//! Lists of objects: the search for the closest hit, and the box around a
//! list.

use crate::aabb::{
    lemma_encloses_transitive, lemma_surrounding_box_is_least, spec_surrounding_box,
    surrounding_box, AABB,
};
use crate::scalar::signed_magnitude;
use vstd::prelude::*;

verus! {

/// The state of a search for the closest hit along a ray: the far end of
/// the interval that is still open, and the record of the closest hit found
/// so far, if there is one.
pub struct Closest<H> {
    pub closest_so_far: u32,
    pub rec: Option<H>,
}

impl<H> Closest<H> {
    /// The state after an object has reported: a hit, given as its ray
    /// parameter and its record, becomes the closest hit and closes the
    /// interval at its parameter; a miss changes nothing.
    pub open spec fn spec_narrow(self, hit: Option<(u32, H)>) -> Closest<H> {
        match hit {
            Some((t, h)) => Closest { closest_so_far: t, rec: Some(h) },
            None => self,
        }
    }

    /// The state after the objects have reported `hits` in turn.
    pub open spec fn scan(self, hits: Seq<Option<(u32, H)>>) -> Closest<H>
        decreases hits.len(),
    {
        if hits.len() == 0 {
            self
        } else {
            self.scan(hits.drop_last()).spec_narrow(hits.last())
        }
    }

    /// Every object kept to the interval that was open when it was asked:
    /// no hit in `hits` lies beyond the closest hit before it, nor beyond
    /// the far end that the search began with.
    pub open spec fn honoured(self, hits: Seq<Option<(u32, H)>>) -> bool {
        forall|i: int|
            0 <= i < hits.len() ==> ((#[trigger] hits[i]) matches Some((t, _))
                ==> signed_magnitude(t) <= signed_magnitude(
                self.scan(hits.take(i)).closest_so_far,
            ))
    }

    /// Begins a search on an interval that ends at `t_max`.
    pub fn new(t_max: u32) -> (c: Self)
        ensures
            c.closest_so_far == t_max,
            c.rec is None,
    {
        Closest { closest_so_far: t_max, rec: None }
    }

    /// Takes in what the next object reports when asked for a hit on the
    /// interval that is still open.
    pub fn narrow(self, hit: Option<(u32, H)>) -> (c: Self)
        ensures
            c == self.spec_narrow(hit),
    {
        match hit {
            Some((t, h)) => Closest { closest_so_far: t, rec: Some(h) },
            None => self,
        }
    }

    /// Scanning one report more narrows the state by that report.
    proof fn lemma_scan_step(self, hits: Seq<Option<(u32, H)>>, i: int)
        requires
            0 <= i < hits.len(),
        ensures
            self.scan(hits.take(i + 1)) == self.scan(hits.take(i)).spec_narrow(hits[i]),
    {
        assert(hits.take(i + 1).drop_last() == hits.take(i));
    }

    /// The far end of the open interval never moves outwards during a
    /// search among objects that keep to it.
    proof fn lemma_scan_descends(self, hits: Seq<Option<(u32, H)>>, j: int, k: int)
        requires
            self.honoured(hits),
            0 <= j <= k <= hits.len(),
        ensures
            signed_magnitude(self.scan(hits.take(k)).closest_so_far) <= signed_magnitude(
                self.scan(hits.take(j)).closest_so_far,
            ),
        decreases k - j,
    {
        if j < k {
            self.lemma_scan_descends(hits, j, k - 1);
            self.lemma_scan_step(hits, k - 1);
        }
    }

    /// What a search has found is what the last object that reported a hit
    /// has reported. It has found nothing if and only if no object reported
    /// a hit, and the interval is then still as it was.
    pub proof fn lemma_scan_finds_reported(self, hits: Seq<Option<(u32, H)>>)
        requires
            self.rec is None,
        ensures
            self.scan(hits).rec is Some <==> exists|i: int|
                0 <= i < hits.len() && (#[trigger] hits[i]) is Some,
            self.scan(hits).rec matches Some(h) ==> exists|i: int|
                0 <= i < hits.len() && #[trigger] hits[i] == Some(
                    (self.scan(hits).closest_so_far, h),
                ),
            self.scan(hits).rec is None ==> self.scan(hits).closest_so_far
                == self.closest_so_far,
        decreases hits.len(),
    {
        if hits.len() > 0 {
            let rest = hits.drop_last();
            let n = rest.len() as int;
            let before = self.scan(rest);
            self.lemma_scan_finds_reported(rest);
            match hits[n] {
                Some((t, h)) => {
                    assert(hits[n] == Some((self.scan(hits).closest_so_far, h)));
                },
                None => {
                    if before.rec is Some {
                        let i = choose|i: int|
                            0 <= i < n && #[trigger] rest[i] == Some(
                                (before.closest_so_far, before.rec->Some_0),
                            );
                        assert(hits[i] == rest[i]);
                    }
                    if exists|i: int| 0 <= i < hits.len() && (#[trigger] hits[i]) is Some {
                        let i = choose|i: int| 0 <= i < hits.len() && (#[trigger] hits[i]) is Some;
                        assert(rest[i] == hits[i]);
                    }
                },
            }
        }
    }

    /// A search among objects that keep to the open interval ends with the
    /// closest hit: no object reported a hit that lies before the one that
    /// the search ends with, and the interval has not grown.
    pub proof fn lemma_scan_finds_closest(self, hits: Seq<Option<(u32, H)>>)
        requires
            self.honoured(hits),
        ensures
            forall|i: int|
                0 <= i < hits.len() ==> ((#[trigger] hits[i]) matches Some((t, _))
                    ==> signed_magnitude(self.scan(hits).closest_so_far) <= signed_magnitude(t)),
            signed_magnitude(self.scan(hits).closest_so_far) <= signed_magnitude(
                self.closest_so_far,
            ),
    {
        let n = hits.len() as int;
        assert(hits.take(n) == hits);
        self.lemma_scan_descends(hits, 0, n);
        assert forall|i: int| 0 <= i < hits.len() implies ((#[trigger] hits[i]) matches Some(
            (t, _),
        ) ==> signed_magnitude(self.scan(hits).closest_so_far) <= signed_magnitude(t)) by {
            self.lemma_scan_step(hits, i);
            self.lemma_scan_descends(hits, i + 1, n);
        }
    }
}

/// The box that surrounds all of `boxes`, taken in from the front: the
/// first box, then what surrounds it and the second, and so on. There is no
/// such box for an empty list, nor if one of the boxes is missing.
pub open spec fn surrounding(boxes: Seq<Option<AABB>>) -> Option<AABB>
    decreases boxes.len(),
{
    if boxes.len() == 0 {
        None
    } else {
        match boxes.last() {
            None => None,
            Some(b) => if boxes.len() == 1 {
                Some(b)
            } else {
                match surrounding(boxes.drop_last()) {
                    None => None,
                    Some(acc) => Some(spec_surrounding_box(acc, b)),
                }
            },
        }
    }
}

/// A list has a surrounding box if and only if it is not empty and every
/// object in it has a box; the surrounding box encloses each of them.
pub proof fn lemma_surrounding(boxes: Seq<Option<AABB>>)
    ensures
        surrounding(boxes) is Some <==> boxes.len() > 0 && forall|i: int|
            0 <= i < boxes.len() ==> (#[trigger] boxes[i]) is Some,
        surrounding(boxes) matches Some(all) ==> forall|i: int|
            0 <= i < boxes.len() ==> all.encloses((#[trigger] boxes[i])->Some_0),
    decreases boxes.len(),
{
    if boxes.len() == 0 {
    } else {
        let rest = boxes.drop_last();
        lemma_surrounding(rest);
        assert forall|i: int| 0 <= i < rest.len() implies rest[i] == boxes[i] by {}
        match boxes.last() {
            None => {},
            Some(b) => {
                if boxes.len() == 1 {
                    assert(b.encloses(b));
                } else {
                    match surrounding(rest) {
                        None => {
                            let i = choose|i: int| 0 <= i < rest.len() && !((#[trigger] rest[i]) is Some);
                            assert(boxes[i] is None);
                        },
                        Some(acc) => {
                            let all = spec_surrounding_box(acc, b);
                            lemma_surrounding_box_is_least(acc, b);
                            assert forall|i: int| 0 <= i < boxes.len() implies all.encloses(
                                (#[trigger] boxes[i])->Some_0,
                            ) by {
                                if i < rest.len() {
                                    assert(acc.encloses(rest[i]->Some_0));
                                    lemma_encloses_transitive(all, acc, rest[i]->Some_0);
                                }
                            }
                        },
                    }
                }
            },
        }
    }
}

/// Returns the bounding box of a list of objects, given the bounding box of
/// each: the box that surrounds them all, or none if the list is empty or
/// one of its objects has no box.
pub fn bounding_box(boxes: &Vec<Option<AABB>>) -> (all: Option<AABB>)
    ensures
        all == surrounding(boxes@),
{
    let mut acc: Option<AABB> = None;
    let mut i: usize = 0;
    while i < boxes.len()
        invariant
            i <= boxes.len(),
            acc == surrounding(boxes@.take(i as int)),
            i > 0 ==> acc is Some,
        decreases boxes.len() - i,
    {
        proof {
            assert(boxes@.take(i + 1).drop_last() == boxes@.take(i as int));
            assert(boxes@.take(i + 1).last() == boxes@[i as int]);
        }
        match &boxes[i] {
            Some(bbox) => {
                acc = match acc {
                    Some(curr) => Some(surrounding_box(&curr, bbox)),
                    None => Some(*bbox),
                };
            },
            None => {
                proof {
                    lemma_surrounding(boxes@);
                }
                return None;
            },
        }
        i = i + 1;
    }
    assert(boxes@.take(i as int) == boxes@);
    acc
}

} // verus!
