//! Axis-aligned bounding boxes.
//!
//! A box is given by its minimum and maximum corner. Its coordinates are
//! scalars, known by their bit patterns and compared as `scalar` orders
//! them.

use crate::scalar::{at_most, greater, is_negative, lesser, signed_magnitude, ZERO};
use vstd::prelude::*;

verus! {

/// A point or a triple of ray parameters: three scalars, for the x, y and z
/// axis.
pub type Point3 = [u32; 3];

/// An axis-aligned box.
#[derive(Clone, Copy, Debug, PartialEq, Eq)]
pub struct AABB {
    pub min: Point3,
    pub max: Point3,
}

/// The component of `u` and `v` that is chosen on each axis is the lesser one.
pub open spec fn spec_vec3_min(u: Point3, v: Point3) -> Point3 {
    [
        if signed_magnitude(u[0]) <= signed_magnitude(v[0]) { u[0] } else { v[0] },
        if signed_magnitude(u[1]) <= signed_magnitude(v[1]) { u[1] } else { v[1] },
        if signed_magnitude(u[2]) <= signed_magnitude(v[2]) { u[2] } else { v[2] },
    ]
}

/// The component of `u` and `v` that is chosen on each axis is the greater
/// one.
pub open spec fn spec_vec3_max(u: Point3, v: Point3) -> Point3 {
    [
        if signed_magnitude(u[0]) >= signed_magnitude(v[0]) { u[0] } else { v[0] },
        if signed_magnitude(u[1]) >= signed_magnitude(v[1]) { u[1] } else { v[1] },
        if signed_magnitude(u[2]) >= signed_magnitude(v[2]) { u[2] } else { v[2] },
    ]
}

/// Returns the component-wise minimum of two points.
pub fn vec3_min(u: &Point3, v: &Point3) -> (w: Point3)
    ensures
        w == spec_vec3_min(*u, *v),
{
    [lesser(u[0], v[0]), lesser(u[1], v[1]), lesser(u[2], v[2])]
}

/// Returns the component-wise maximum of two points.
pub fn vec3_max(u: &Point3, v: &Point3) -> (w: Point3)
    ensures
        w == spec_vec3_max(*u, *v),
{
    [greater(u[0], v[0]), greater(u[1], v[1]), greater(u[2], v[2])]
}

/// The box that surrounds `a` and `b`: the component-wise minimum of their
/// minimum corners and the component-wise maximum of their maximum corners.
pub open spec fn spec_surrounding_box(a: AABB, b: AABB) -> AABB {
    AABB { min: spec_vec3_min(a.min, b.min), max: spec_vec3_max(a.max, b.max) }
}

/// Returns the smallest box that surrounds both `a` and `b`.
pub fn surrounding_box(a: &AABB, b: &AABB) -> (c: AABB)
    ensures
        c == spec_surrounding_box(*a, *b),
{
    let small = vec3_min(&a.min, &b.min);
    let large = vec3_max(&a.max, &b.max);
    AABB::new(small, large)
}

impl AABB {
    /// On no axis does the minimum corner lie beyond the maximum corner.
    pub open spec fn wf(self) -> bool {
        &&& signed_magnitude(self.min[0]) <= signed_magnitude(self.max[0])
        &&& signed_magnitude(self.min[1]) <= signed_magnitude(self.max[1])
        &&& signed_magnitude(self.min[2]) <= signed_magnitude(self.max[2])
    }

    /// On axis `a` the point `p` lies between the two corners, or at one.
    pub open spec fn contains_on(self, p: Point3, a: int) -> bool {
        signed_magnitude(self.min[a]) <= signed_magnitude(p[a]) <= signed_magnitude(self.max[a])
    }

    /// The point `p` lies in the box, its faces included.
    pub open spec fn contains(self, p: Point3) -> bool {
        self.contains_on(p, 0) && self.contains_on(p, 1) && self.contains_on(p, 2)
    }

    /// On axis `a` the extent of `other` lies in the extent of this box.
    pub open spec fn encloses_on(self, other: AABB, a: int) -> bool {
        &&& signed_magnitude(self.min[a]) <= signed_magnitude(other.min[a])
        &&& signed_magnitude(other.max[a]) <= signed_magnitude(self.max[a])
    }

    /// The box `other` lies in this box.
    pub open spec fn encloses(self, other: AABB) -> bool {
        self.encloses_on(other, 0) && self.encloses_on(other, 1) && self.encloses_on(other, 2)
    }

    /// Makes a box of its two corners.
    pub fn new(min: Point3, max: Point3) -> (b: AABB)
        ensures
            b.min == min,
            b.max == max,
    {
        AABB { min, max }
    }

    /// Returns the box that is the single point at the origin. It stands in
    /// for the box of an object that has none.
    pub fn zero() -> (b: AABB)
        ensures
            b.min == [ZERO, ZERO, ZERO],
            b.max == [ZERO, ZERO, ZERO],
            b.wf(),
    {
        AABB { min: [ZERO, ZERO, ZERO], max: [ZERO, ZERO, ZERO] }
    }

    /// The parameter at which a ray enters the slab of axis `a`, given the
    /// parameters `t0` and `t1` at which it meets the slab's lower and upper
    /// plane and the reciprocal `inv_d` of its direction: the ray meets the
    /// upper plane first where it runs against the axis.
    pub open spec fn entry(t0: Point3, t1: Point3, inv_d: Point3, a: int) -> u32 {
        if signed_magnitude(inv_d[a]) < 0 {
            t1[a]
        } else {
            t0[a]
        }
    }

    /// The parameter at which the ray leaves the slab of axis `a`.
    pub open spec fn exit(t0: Point3, t1: Point3, inv_d: Point3, a: int) -> u32 {
        if signed_magnitude(inv_d[a]) < 0 {
            t0[a]
        } else {
            t1[a]
        }
    }

    /// The ray is inside all three slabs at some parameter of the interval:
    /// it has entered each slab, and the interval has begun, before it
    /// leaves any slab or the interval ends.
    pub open spec fn overlaps(
        t0: Point3,
        t1: Point3,
        inv_d: Point3,
        t_min: u32,
        t_max: u32,
    ) -> bool {
        &&& signed_magnitude(t_min) < signed_magnitude(t_max)
        &&& forall|a: int|
            0 <= a < 3 ==> signed_magnitude(t_min) < signed_magnitude(
                #[trigger] Self::exit(t0, t1, inv_d, a),
            )
        &&& forall|a: int|
            0 <= a < 3 ==> signed_magnitude(#[trigger] Self::entry(t0, t1, inv_d, a))
                < signed_magnitude(t_max)
        &&& forall|a: int, b: int|
            0 <= a < 3 && 0 <= b < 3 ==> signed_magnitude(
                #[trigger] Self::entry(t0, t1, inv_d, a),
            ) < signed_magnitude(#[trigger] Self::exit(t0, t1, inv_d, b))
    }

    /// The slab test. For each axis, `t0` and `t1` hold the ray parameters
    /// at which the ray meets the two planes of the box that bound the slab
    /// of that axis, and `inv_d` holds the reciprocal of the ray's direction.
    /// Axis by axis the interval from `t_min_init` to `t_max_init` is
    /// narrowed to the part that lies in the slab. The ray hits the box if
    /// the interval stays non-empty to the end.
    pub fn hit(t0: &Point3, t1: &Point3, inv_d: &Point3, t_min_init: u32, t_max_init: u32) -> (r:
        bool)
        ensures
            r == Self::overlaps(*t0, *t1, *inv_d, t_min_init, t_max_init),
    {
        let mut t_min = t_min_init;
        let mut t_max = t_max_init;
        let mut a: usize = 0;
        while a < 3
            invariant
                a <= 3,
                signed_magnitude(t_min) >= signed_magnitude(t_min_init),
                signed_magnitude(t_max) <= signed_magnitude(t_max_init),
                forall|b: int|
                    0 <= b < a ==> signed_magnitude(
                        #[trigger] Self::entry(*t0, *t1, *inv_d, b),
                    ) <= signed_magnitude(t_min),
                forall|b: int|
                    0 <= b < a ==> signed_magnitude(t_max) <= signed_magnitude(
                        #[trigger] Self::exit(*t0, *t1, *inv_d, b),
                    ),
                a > 0 ==> signed_magnitude(t_min) < signed_magnitude(t_max),
                // The bounds are attained: each is the initial bound or the
                // parameter of an axis already seen.
                t_min == t_min_init || exists|b: int|
                    0 <= b < a && t_min == #[trigger] Self::entry(*t0, *t1, *inv_d, b),
                t_max == t_max_init || exists|b: int|
                    0 <= b < a && t_max == #[trigger] Self::exit(*t0, *t1, *inv_d, b),
            decreases 3 - a,
        {
            let reversed = is_negative(inv_d[a]);
            let enter = if reversed { t1[a] } else { t0[a] };
            let leave = if reversed { t0[a] } else { t1[a] };
            assert(enter == Self::entry(*t0, *t1, *inv_d, a as int));
            assert(leave == Self::exit(*t0, *t1, *inv_d, a as int));
            t_min = greater(enter, t_min);
            t_max = lesser(leave, t_max);
            if at_most(t_max, t_min) {
                return false;
            }
            a = a + 1;
        }
        true
    }

    /// A ray that has entered every slab when the interval begins, and
    /// leaves each only later, hits the box, provided that the interval is
    /// not empty. Such is a ray whose origin lies strictly inside the box,
    /// on an interval that begins at the origin.
    pub proof fn lemma_hit_from_inside(
        t0: Point3,
        t1: Point3,
        inv_d: Point3,
        t_min: u32,
        t_max: u32,
    )
        requires
            signed_magnitude(t_min) < signed_magnitude(t_max),
            forall|a: int|
                0 <= a < 3 ==> signed_magnitude(#[trigger] Self::entry(t0, t1, inv_d, a))
                    <= signed_magnitude(t_min),
            forall|a: int|
                0 <= a < 3 ==> signed_magnitude(t_min) < signed_magnitude(
                    #[trigger] Self::exit(t0, t1, inv_d, a),
                ),
        ensures
            Self::overlaps(t0, t1, inv_d, t_min, t_max),
    {
    }
}

/// The surrounding box contains both boxes entirely: every point of `a` and
/// every point of `b` is a point of it.
pub proof fn lemma_surrounding_box_contains(a: AABB, b: AABB, p: Point3)
    requires
        a.contains(p) || b.contains(p),
    ensures
        spec_surrounding_box(a, b).contains(p),
{
}

/// The surrounding box encloses both boxes, is well formed if one of them
/// is, and is enclosed by every box that encloses both.
pub proof fn lemma_surrounding_box_is_least(a: AABB, b: AABB)
    ensures
        spec_surrounding_box(a, b).encloses(a),
        spec_surrounding_box(a, b).encloses(b),
        a.wf() || b.wf() ==> spec_surrounding_box(a, b).wf(),
        forall|c: AABB| c.encloses(a) && c.encloses(b) ==> #[trigger] c.encloses(
            spec_surrounding_box(a, b),
        ),
{
}

/// A box that lies in a box that lies in a third box lies in the third box,
/// and so does every point of it.
pub proof fn lemma_encloses_transitive(a: AABB, b: AABB, c: AABB)
    requires
        a.encloses(b),
        b.encloses(c),
    ensures
        a.encloses(c),
        forall|p: Point3| b.contains(p) ==> #[trigger] a.contains(p),
{
}

} // verus!
