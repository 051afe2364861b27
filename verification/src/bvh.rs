//! Construction of a bounding volume hierarchy.
//!
//! The hierarchy is built over object numbers. Each object comes with its
//! bounding box, if it has one; an object without a box is given the box at
//! the origin. Building sorts the objects by the minimum corner of their
//! boxes and halves them, level by level, on an axis drawn at random at each
//! level. Every node keeps the box that surrounds the boxes of its children.

use crate::aabb::{
    lemma_encloses_transitive, lemma_surrounding_box_is_least, spec_surrounding_box,
    surrounding_box, AABB,
};
use crate::rng::random_below;
use crate::scalar::{lemma_magnitude_bounds, signed_magnitude, sort_key, ZERO};
use crate::sort::{lemma_stable_sort_permutes, payloads, sort_by_key, stable_sort_of};
use vstd::arithmetic::power2::pow2;
use vstd::prelude::*;

verus! {

/// A child of a node: one object, by number, or a further node.
#[derive(Debug, PartialEq, Eq)]
pub enum Child {
    Object(usize),
    Node(Box<BvhNode>),
}

/// A node of the hierarchy, with its two children and the box that surrounds
/// them.
#[derive(Debug, PartialEq, Eq)]
pub struct BvhNode {
    pub left: Child,
    pub right: Child,
    pub bbox: AABB,
}

/// The box at the origin, which stands in for a missing box.
pub open spec fn zero_box() -> AABB {
    AABB { min: [ZERO, ZERO, ZERO], max: [ZERO, ZERO, ZERO] }
}

/// The box of object `i`: its own, or the box at the origin if it has none.
pub open spec fn box_of(boxes: Seq<Option<AABB>>, i: int) -> AABB {
    match boxes[i] {
        Some(b) => b,
        None => zero_box(),
    }
}

/// The sort key of object `i` on `axis`: that of the minimum corner of its
/// box.
pub open spec fn key_of(boxes: Seq<Option<AABB>>, i: int, axis: int) -> int {
    0x8000_0000 + signed_magnitude(box_of(boxes, i).min[axis])
}

/// The objects `ids`, each paired with its sort key on `axis`.
pub open spec fn keyed(boxes: Seq<Option<AABB>>, ids: Seq<usize>, axis: int) -> Seq<
    (u64, usize),
> {
    Seq::new(ids.len(), |i: int| (key_of(boxes, ids[i] as int, axis) as u64, ids[i]))
}

/// `lo` and `hi` are the two halves of `ids` after a stable sort by the key
/// on `axis`: `lo` holds the first `ids.len() / 2` objects of the sorted
/// order and `hi` the rest.
pub open spec fn halves(
    boxes: Seq<Option<AABB>>,
    ids: Seq<usize>,
    axis: int,
    lo: Seq<usize>,
    hi: Seq<usize>,
) -> bool {
    exists|order: Seq<(u64, usize)>|
        {
            &&& #[trigger] stable_sort_of(order, keyed(boxes, ids, axis))
            &&& lo == payloads(order).take(ids.len() as int / 2)
            &&& hi == payloads(order).skip(ids.len() as int / 2)
        }
}

/// Every number in `ids` is below `n`.
pub open spec fn in_range(ids: Seq<usize>, n: int) -> bool {
    forall|i: int| 0 <= i < ids.len() ==> ids[i] < n
}

/// The numbers `0, 1, .., n - 1` in order.
pub open spec fn numbers(n: int) -> Seq<usize> {
    Seq::new(n as nat, |i: int| i as usize)
}

/// What `halves` says of the two parts, spelled out: both are drawn from
/// `ids`, together they hold every object of `ids`, the first has
/// `ids.len() / 2` objects, and no object of the first has a larger key on
/// `axis` than any object of the second.
pub proof fn lemma_halves(
    boxes: Seq<Option<AABB>>,
    ids: Seq<usize>,
    axis: int,
    lo: Seq<usize>,
    hi: Seq<usize>,
)
    requires
        halves(boxes, ids, axis, lo, hi),
    ensures
        lo.len() == ids.len() / 2,
        lo.len() + hi.len() == ids.len(),
        lo.to_set().union(hi.to_set()) == ids.to_set(),
        forall|p: int, q: int|
            0 <= p < lo.len() && 0 <= q < hi.len() ==> key_of(boxes, #[trigger] lo[p] as int, axis)
                <= key_of(boxes, #[trigger] hi[q] as int, axis),
{
    let order = choose|order: Seq<(u64, usize)>|
        {
            &&& #[trigger] stable_sort_of(order, keyed(boxes, ids, axis))
            &&& lo == payloads(order).take(ids.len() as int / 2)
            &&& hi == payloads(order).skip(ids.len() as int / 2)
        };
    let pairs = keyed(boxes, ids, axis);
    let mid = ids.len() as int / 2;
    lemma_stable_sort_permutes(order, pairs);
    assert forall|p: int| 0 <= p < order.len() implies ids.contains((#[trigger] order[p]).1)
        && order[p].0 == key_of(boxes, order[p].1 as int, axis) by {
        vstd::seq_lib::to_multiset_contains(order, order[p]);
        vstd::seq_lib::to_multiset_contains(pairs, order[p]);
        assert(order.contains(order[p]));
        let q = choose|q: int| 0 <= q < pairs.len() && pairs[q] == order[p];
        assert(ids[q] == order[p].1);
        lemma_magnitude_bounds(box_of(boxes, ids[q] as int).min[axis]);
    }
    assert forall|q: int| 0 <= q < ids.len() implies lo.to_set().union(hi.to_set()).contains(
        #[trigger] ids[q],
    ) by {
        vstd::seq_lib::to_multiset_contains(order, pairs[q]);
        vstd::seq_lib::to_multiset_contains(pairs, pairs[q]);
        assert(pairs.contains(pairs[q]));
        let p = choose|p: int| 0 <= p < order.len() && order[p] == pairs[q];
        if p < mid {
            assert(lo[p] == ids[q]);
            assert(lo.contains(ids[q]));
        } else {
            assert(hi[p - mid] == ids[q]);
            assert(hi.contains(ids[q]));
        }
    }
    assert forall|x: usize| lo.to_set().union(hi.to_set()).contains(x) implies ids.to_set().contains(
        x,
    ) by {
        if lo.contains(x) {
            let p = choose|p: int| 0 <= p < lo.len() && lo[p] == x;
            assert(order[p].1 == x);
        } else {
            let p = choose|p: int| 0 <= p < hi.len() && hi[p] == x;
            assert(order[mid + p].1 == x);
        }
    }
    assert(lo.to_set().union(hi.to_set()) =~= ids.to_set());
    assert forall|p: int, q: int| 0 <= p < lo.len() && 0 <= q < hi.len() implies key_of(boxes, #[trigger] lo[p] as int, axis)
        <= key_of(boxes, #[trigger] hi[q] as int, axis) by {
        assert(lo[p] == order[p].1);
        assert(hi[q] == order[mid + q].1);
        assert(order[p].0 <= order[mid + q].0);
    }
}

impl Child {
    /// The number of nodes on the longest way from this child down to an
    /// object.
    pub open spec fn height(self) -> nat
        decreases self,
    {
        match self {
            Child::Object(_) => 0,
            Child::Node(n) => n.height(),
        }
    }

    /// The objects at or below this child.
    pub open spec fn objects(self) -> Set<usize>
        decreases self,
    {
        match self {
            Child::Object(i) => set![i],
            Child::Node(n) => n.objects(),
        }
    }

    /// The box of this child: that of the object, or the one that the node
    /// keeps.
    pub open spec fn bounds(self, boxes: Seq<Option<AABB>>) -> AABB {
        match self {
            Child::Object(i) => box_of(boxes, i as int),
            Child::Node(n) => n.bbox,
        }
    }
}

impl BvhNode {
    /// The number of nodes on the longest way from this node down to an
    /// object, this node included.
    pub open spec fn height(self) -> nat
        decreases self,
    {
        if self.left.height() >= self.right.height() {
            1 + self.left.height()
        } else {
            1 + self.right.height()
        }
    }

    /// The objects below this node.
    pub open spec fn objects(self) -> Set<usize>
        decreases self,
    {
        self.left.objects().union(self.right.objects())
    }

    /// This node is a hierarchy over exactly the objects `ids`, built as
    /// follows. A single object is both children of its node. Two or more
    /// objects are sorted stably by their key on one of the three axes and
    /// halved; the first half is arranged below the left child and the
    /// second half below the right child in the same way. In either case the
    /// node keeps the box that surrounds the boxes of its two children.
    pub open spec fn arranges(self, boxes: Seq<Option<AABB>>, ids: Seq<usize>) -> bool
        decreases self, 1nat,
    {
        &&& self.bbox == spec_surrounding_box(self.left.bounds(boxes), self.right.bounds(boxes))
        &&& self.arranges_children(boxes, ids)
    }

    /// The children of this node are arranged over the objects `ids`.
    pub open spec fn arranges_children(self, boxes: Seq<Option<AABB>>, ids: Seq<usize>) -> bool
        decreases self, 0nat,
    {
        if ids.len() == 1 {
            self.left == Child::Object(ids[0]) && self.right == Child::Object(ids[0])
        } else {
            &&& ids.len() >= 2
            &&& self.left matches Child::Node(l)
            &&& self.right matches Child::Node(r)
            &&& exists|axis: int, lo: Seq<usize>, hi: Seq<usize>|
                {
                    &&& 0 <= axis < 3
                    &&& #[trigger] halves(boxes, ids, axis, lo, hi)
                    &&& l.arranges(boxes, lo)
                    &&& r.arranges(boxes, hi)
                }
        }
    }

    /// Every split below this node separates its two sides on some axis: no
    /// object on the left has a larger key on that axis than any object on
    /// the right.
    pub open spec fn separated(self, boxes: Seq<Option<AABB>>) -> bool
        decreases self,
    {
        match (self.left, self.right) {
            (Child::Node(l), Child::Node(r)) => {
                &&& l.separated(boxes)
                &&& r.separated(boxes)
                &&& exists|axis: int|
                    0 <= axis < 3 && #[trigger] self.separates_on(boxes, axis)
            },
            _ => true,
        }
    }

    /// No object on the left has a larger key on `axis` than any object on
    /// the right.
    pub open spec fn separates_on(self, boxes: Seq<Option<AABB>>, axis: int) -> bool {
        forall|a: usize, b: usize|
            self.left.objects().contains(a) && self.right.objects().contains(b)
                ==> key_of(boxes, a as int, axis) <= key_of(boxes, b as int, axis)
    }

    /// A hierarchy arranged over `ids` holds exactly the objects `ids`: none
    /// is lost and none is added, so a search that visits every leaf visits
    /// the same objects as a scan of `ids`.
    pub proof fn lemma_arranged_covers(self, boxes: Seq<Option<AABB>>, ids: Seq<usize>)
        requires
            self.arranges(boxes, ids),
        ensures
            self.objects() == ids.to_set(),
        decreases self,
    {
        if ids.len() == 1 {
            assert(ids.contains(ids[0]));
            assert(self.objects() =~= ids.to_set());
        } else {
            let l = self.left->Node_0;
            let r = self.right->Node_0;
            let (axis, lo, hi) = choose|axis: int, lo: Seq<usize>, hi: Seq<usize>|
                {
                    &&& 0 <= axis < 3
                    &&& #[trigger] halves(boxes, ids, axis, lo, hi)
                    &&& l.arranges(boxes, lo)
                    &&& r.arranges(boxes, hi)
                };
            l.lemma_arranged_covers(boxes, lo);
            r.lemma_arranged_covers(boxes, hi);
            lemma_halves(boxes, ids, axis, lo, hi);
        }
    }

    /// A hierarchy arranged over all the objects of a list holds each of
    /// them and nothing else.
    pub proof fn lemma_arranged_covers_all(self, boxes: Seq<Option<AABB>>)
        requires
            boxes.len() <= usize::MAX,
            self.arranges(boxes, numbers(boxes.len() as int)),
        ensures
            forall|i: usize| #[trigger] self.objects().contains(i) <==> i < boxes.len(),
    {
        let ids = numbers(boxes.len() as int);
        self.lemma_arranged_covers(boxes, ids);
        assert forall|i: usize| #[trigger] self.objects().contains(i) <==> i < boxes.len() by {
            if i < boxes.len() {
                assert(ids[i as int] == i);
                assert(ids.contains(i));
            }
            if ids.contains(i) {
                let p = choose|p: int| 0 <= p < ids.len() && ids[p] == i;
            }
        }
    }

    /// A hierarchy arranged over `ids` separates its two sides at every
    /// split.
    pub proof fn lemma_arranged_separates(self, boxes: Seq<Option<AABB>>, ids: Seq<usize>)
        requires
            self.arranges(boxes, ids),
        ensures
            self.separated(boxes),
        decreases self,
    {
        if ids.len() == 1 {
        } else {
            let l = self.left->Node_0;
            let r = self.right->Node_0;
            let (axis, lo, hi) = choose|axis: int, lo: Seq<usize>, hi: Seq<usize>|
                {
                    &&& 0 <= axis < 3
                    &&& #[trigger] halves(boxes, ids, axis, lo, hi)
                    &&& l.arranges(boxes, lo)
                    &&& r.arranges(boxes, hi)
                };
            l.lemma_arranged_separates(boxes, lo);
            r.lemma_arranged_separates(boxes, hi);
            l.lemma_arranged_covers(boxes, lo);
            r.lemma_arranged_covers(boxes, hi);
            lemma_halves(boxes, ids, axis, lo, hi);
            assert forall|a: usize, b: usize|
                self.left.objects().contains(a) && self.right.objects().contains(
                    b,
                ) implies key_of(boxes, a as int, axis) <= key_of(boxes, b as int, axis) by {
                let p = choose|p: int| 0 <= p < lo.len() && lo[p] == a;
                let q = choose|q: int| 0 <= q < hi.len() && hi[q] == b;
                assert(key_of(boxes, lo[p] as int, axis) <= key_of(boxes, hi[q] as int, axis));
            }
            assert(self.separates_on(boxes, axis));
        }
    }

    /// A hierarchy arranged over one object has height 1; over `n` objects,
    /// two or more, its height `h` satisfies `2^(h - 2) <= n - 1`.
    proof fn lemma_arranged_height(self, boxes: Seq<Option<AABB>>, ids: Seq<usize>)
        requires
            self.arranges(boxes, ids),
        ensures
            ids.len() >= 1,
            self.height() >= 1,
            ids.len() == 1 ==> self.height() == 1,
            ids.len() >= 2 ==> self.height() >= 2 && pow2((self.height() - 2) as nat) <= ids.len()
                - 1,
        decreases self,
    {
        vstd::arithmetic::power2::lemma2_to64();
        if ids.len() == 1 {
        } else {
            let l = self.left->Node_0;
            let r = self.right->Node_0;
            let (axis, lo, hi) = choose|axis: int, lo: Seq<usize>, hi: Seq<usize>|
                {
                    &&& 0 <= axis < 3
                    &&& #[trigger] halves(boxes, ids, axis, lo, hi)
                    &&& l.arranges(boxes, lo)
                    &&& r.arranges(boxes, hi)
                };
            lemma_halves(boxes, ids, axis, lo, hi);
            l.lemma_arranged_height(boxes, lo);
            r.lemma_arranged_height(boxes, hi);
            if l.height() >= 2 {
                vstd::arithmetic::power2::lemma_pow2_unfold((l.height() - 1) as nat);
            }
            if r.height() >= 2 {
                vstd::arithmetic::power2::lemma_pow2_unfold((r.height() - 1) as nat);
            }
        }
    }

    /// The height of a hierarchy grows with the logarithm of the number of
    /// its objects: a hierarchy of height `h` arranged over `n` objects has
    /// `2^(h - 1) < 2 * n`.
    pub proof fn lemma_arranged_is_shallow(self, boxes: Seq<Option<AABB>>, ids: Seq<usize>)
        requires
            self.arranges(boxes, ids),
        ensures
            self.height() >= 1,
            pow2((self.height() - 1) as nat) < 2 * ids.len(),
    {
        vstd::arithmetic::power2::lemma2_to64();
        self.lemma_arranged_height(boxes, ids);
        if ids.len() >= 2 {
            vstd::arithmetic::power2::lemma_pow2_unfold((self.height() - 1) as nat);
        }
    }

    /// The box that the node of a hierarchy keeps encloses the box of every
    /// object below the node: a ray that misses the node's box misses them
    /// all.
    pub proof fn lemma_arranged_encloses(self, boxes: Seq<Option<AABB>>, ids: Seq<usize>)
        requires
            self.arranges(boxes, ids),
        ensures
            forall|i: usize| #[trigger]
                self.objects().contains(i) ==> self.bbox.encloses(box_of(boxes, i as int)),
        decreases self,
    {
        let lb = self.left.bounds(boxes);
        let rb = self.right.bounds(boxes);
        lemma_surrounding_box_is_least(lb, rb);
        if ids.len() == 1 {
        } else {
            let l = self.left->Node_0;
            let r = self.right->Node_0;
            let (axis, lo, hi) = choose|axis: int, lo: Seq<usize>, hi: Seq<usize>|
                {
                    &&& 0 <= axis < 3
                    &&& #[trigger] halves(boxes, ids, axis, lo, hi)
                    &&& l.arranges(boxes, lo)
                    &&& r.arranges(boxes, hi)
                };
            l.lemma_arranged_encloses(boxes, lo);
            r.lemma_arranged_encloses(boxes, hi);
            assert forall|i: usize| #[trigger] self.objects().contains(i) implies self.bbox.encloses(
                box_of(boxes, i as int),
            ) by {
                let b = box_of(boxes, i as int);
                let inner = if l.objects().contains(i) { l.bbox } else { r.bbox };
                assert(self.left.objects() == l.objects());
                assert(self.right.objects() == r.objects());
                assert(l.objects().contains(i) || r.objects().contains(i));
                assert(inner.encloses(b));
                assert(self.bbox.encloses(inner));
                lemma_encloses_transitive(self.bbox, inner, b);
            }
        }
    }

    /// Makes a node of two children and the box that surrounds them.
    pub fn new(left: Child, right: Child, bbox: AABB) -> (node: BvhNode)
        ensures
            node.left == left,
            node.right == right,
            node.bbox == bbox,
    {
        BvhNode { left, right, bbox }
    }

    /// Returns the box of this node.
    pub fn bounding_box(&self) -> (b: Option<AABB>)
        ensures
            b == Some(self.bbox),
    {
        Some(self.bbox)
    }

    /// Returns the box of an object: its own, or the box at the origin if
    /// it has none.
    pub fn box_or_zero(bbox: &Option<AABB>) -> (b: AABB)
        ensures
            b == match *bbox {
                Some(own) => own,
                None => zero_box(),
            },
    {
        match bbox {
            Some(own) => *own,
            None => AABB::zero(),
        }
    }

    /// Sorts the objects `ids` stably by their key on `axis` and halves the
    /// sorted order at its midpoint `ids.len() / 2`.
    pub fn split(boxes: &Vec<Option<AABB>>, ids: &Vec<usize>, axis: usize) -> (parts: (
        Vec<usize>,
        Vec<usize>,
    ))
        requires
            axis < 3,
            in_range(ids@, boxes.len() as int),
        ensures
            halves(boxes@, ids@, axis as int, parts.0@, parts.1@),
            parts.0.len() == ids.len() / 2,
            parts.0.len() + parts.1.len() == ids.len(),
            in_range(parts.0@, boxes.len() as int),
            in_range(parts.1@, boxes.len() as int),
    {
        let mut pairs: Vec<(u64, usize)> = Vec::new();
        let mut i: usize = 0;
        while i < ids.len()
            invariant
                i <= ids.len(),
                axis < 3,
                in_range(ids@, boxes.len() as int),
                pairs@ == keyed(boxes@, ids@, axis as int).take(i as int),
            decreases ids.len() - i,
        {
            let id = ids[i];
            let corner = BvhNode::box_or_zero(&boxes[id]).min;
            pairs.push((sort_key(corner[axis]), id));
            assert(pairs@ == keyed(boxes@, ids@, axis as int).take(i + 1));
            i = i + 1;
        }
        assert(pairs@ == keyed(boxes@, ids@, axis as int));
        let order = sort_by_key(&pairs);
        let mid: usize = ids.len() / 2;
        let mut lo: Vec<usize> = Vec::new();
        let mut hi: Vec<usize> = Vec::new();
        let mut j: usize = 0;
        while j < order.len()
            invariant
                j <= order.len(),
                mid <= order.len(),
                lo@ == payloads(order@).take(if j < mid { j as int } else { mid as int }),
                hi@ == payloads(order@).subrange(mid as int, if j < mid { mid as int } else { j as int }),
            decreases order.len() - j,
        {
            let id = order[j].1;
            if j < mid {
                lo.push(id);
                assert(lo@ == payloads(order@).take(j + 1));
            } else {
                hi.push(id);
                assert(hi@ == payloads(order@).subrange(mid as int, j + 1));
            }
            j = j + 1;
        }
        proof {
            assert(hi@ == payloads(order@).skip(mid as int));
            assert forall|p: int| 0 <= p < order.len() implies (#[trigger] order[p]).1
                < boxes.len() by {
                vstd::seq_lib::to_multiset_contains(order@, order[p]);
                vstd::seq_lib::to_multiset_contains(pairs@, order[p]);
                assert(order@.contains(order[p]));
                let q = choose|q: int| 0 <= q < pairs.len() && pairs[q] == order[p];
                assert(pairs[q].1 == ids[q]);
            }
            assert(in_range(lo@, boxes.len() as int)) by {
                assert forall|p: int| 0 <= p < lo.len() implies lo[p] < boxes.len() by {
                    assert(lo[p] == order[p].1);
                }
            }
            assert(in_range(hi@, boxes.len() as int)) by {
                assert forall|p: int| 0 <= p < hi.len() implies hi[p] < boxes.len() by {
                    assert(hi[p] == order[mid + p].1);
                }
            }
        }
        (lo, hi)
    }

    /// Builds the hierarchy over the objects `ids`.
    fn build(boxes: &Vec<Option<AABB>>, ids: Vec<usize>) -> (node: BvhNode)
        requires
            ids.len() >= 1,
            in_range(ids@, boxes.len() as int),
        ensures
            node.arranges(boxes@, ids@),
        decreases ids.len(),
    {
        if ids.len() == 1 {
            let own = BvhNode::box_or_zero(&boxes[ids[0]]);
            BvhNode::new(Child::Object(ids[0]), Child::Object(ids[0]), surrounding_box(&own, &own))
        } else {
            let mut rng = rand::thread_rng();
            let axis = random_below(&mut rng, 3);
            let (lo, hi) = BvhNode::split(boxes, &ids, axis);
            let ghost lo_ids = lo@;
            let ghost hi_ids = hi@;
            let left = BvhNode::build(boxes, lo);
            let right = BvhNode::build(boxes, hi);
            let bbox = surrounding_box(&left.bbox, &right.bbox);
            let node = BvhNode::new(Child::Node(Box::new(left)), Child::Node(Box::new(right)), bbox);
            proof {
                assert(halves(boxes@, ids@, axis as int, lo_ids, hi_ids));
            }
            node
        }
    }

    /// Builds the hierarchy over the objects `0, 1, .., boxes.len() - 1`,
    /// where `boxes[i]` is the bounding box of object `i`, if it has one.
    /// The axis of each split is drawn at random. Without objects there is
    /// no hierarchy.
    pub fn from_objects(boxes: &Vec<Option<AABB>>) -> (node: Option<BvhNode>)
        ensures
            boxes.len() == 0 <==> node is None,
            node matches Some(n) ==> n.arranges(boxes@, numbers(boxes.len() as int)),
    {
        if boxes.len() == 0 {
            return None;
        }
        let mut ids: Vec<usize> = Vec::new();
        let mut i: usize = 0;
        while i < boxes.len()
            invariant
                i <= boxes.len(),
                ids@ == numbers(i as int),
            decreases boxes.len() - i,
        {
            ids.push(i);
            assert(ids@ == numbers(i + 1));
            i = i + 1;
        }
        Some(BvhNode::build(boxes, ids))
    }
}

} // verus!
