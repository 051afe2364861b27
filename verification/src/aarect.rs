//! Axis-aligned rectangles.
//!
//! A rectangle lies in a plane on which one coordinate is constant. It is
//! given by that coordinate's axis and value, and by its extent on the two
//! other axes. All coordinates are scalars, known by their bit patterns and
//! compared as `scalar` orders them.

use crate::aabb::{Point3, AABB};
use crate::scalar::{at_most, signed_magnitude, ZERO};
use vstd::prelude::*;

verus! {

/// The coordinate axis that an axis-aligned rectangle is perpendicular to,
/// that is, the one coordinate that is constant over the rectangle.
#[derive(Clone, Copy, Debug, PartialEq, Eq, Structural)]
pub enum Missing {
    X,
    Y,
    Z,
}

impl Missing {
    /// The component index of the axis: 0 for x, 1 for y, 2 for z.
    pub open spec fn spec_idx(self) -> int {
        match self {
            Missing::X => 0,
            Missing::Y => 1,
            Missing::Z => 2,
        }
    }

    /// The two component indices that span the rectangle's plane, in
    /// ascending order.
    pub open spec fn spec_plane(self) -> (int, int) {
        match self {
            Missing::X => (1, 2),
            Missing::Y => (0, 2),
            Missing::Z => (0, 1),
        }
    }

    /// Returns the component index of the axis.
    pub fn idx(&self) -> (i: usize)
        ensures
            i == self.spec_idx(),
            i < 3,
    {
        match self {
            Missing::X => 0,
            Missing::Y => 1,
            Missing::Z => 2,
        }
    }

    /// Returns the component indices of the two axes that span the
    /// rectangle's plane, the smaller one first.
    pub fn plane(&self) -> (ab: (usize, usize))
        ensures
            ab.0 == self.spec_plane().0,
            ab.1 == self.spec_plane().1,
            ab.0 < ab.1 < 3,
            ab.0 != self.spec_idx(),
            ab.1 != self.spec_idx(),
    {
        match self {
            Missing::X => (1, 2),
            Missing::Y => (0, 2),
            Missing::Z => (0, 1),
        }
    }

    /// Returns the axis with component index `i`, if `i` names one.
    pub fn from_idx(i: usize) -> (m: Option<Missing>)
        ensures
            i < 3 <==> m is Some,
            m matches Some(a) ==> a.spec_idx() == i,
    {
        if i == 0 {
            Some(Missing::X)
        } else if i == 1 {
            Some(Missing::Y)
        } else if i == 2 {
            Some(Missing::Z)
        } else {
            None
        }
    }
}

/// The point `p` with its component on axis `a` replaced by `x`.
pub open spec fn replaced(p: Point3, a: int, x: u32) -> Point3 {
    [
        if a == 0 { x } else { p[0] },
        if a == 1 { x } else { p[1] },
        if a == 2 { x } else { p[2] },
    ]
}

/// An axis-aligned rectangle. On the axis `missing` it lies at the coordinate
/// `k`; on the two other axes it extends from `v0` to `v1`. The components
/// of `v0` and `v1` on the axis `missing` are not used and are zero.
#[derive(Clone, Copy, Debug, PartialEq, Eq)]
pub struct Rect2D {
    pub v0: Point3,
    pub v1: Point3,
    pub k: u32,
    pub missing: Missing,
}

impl Rect2D {
    /// On axis `a` the point `p` lies within the extent of the rectangle.
    pub open spec fn spans(self, p: Point3, a: int) -> bool {
        signed_magnitude(self.v0[a]) <= signed_magnitude(p[a]) <= signed_magnitude(self.v1[a])
    }

    /// A ray that crosses the plane of the rectangle at the parameter `t`
    /// and the point `p` meets the rectangle on the interval from `t_min` to
    /// `t_max`: the parameter lies in the interval, its ends included, and
    /// the point lies within the extent of the rectangle on both axes of the
    /// plane, its edges included.
    pub open spec fn meets(self, t: u32, p: Point3, t_min: u32, t_max: u32) -> bool {
        &&& signed_magnitude(t_min) <= signed_magnitude(t) <= signed_magnitude(t_max)
        &&& self.spans(p, self.missing.spec_plane().0)
        &&& self.spans(p, self.missing.spec_plane().1)
    }

    /// The box of the rectangle when its plane is given the thickness from
    /// `below` to `above`: the extent of the rectangle on the axes of its
    /// plane, and from `below` to `above` on the axis `missing`.
    pub open spec fn thickened(self, below: u32, above: u32) -> AABB {
        AABB {
            min: replaced(self.v0, self.missing.spec_idx(), below),
            max: replaced(self.v1, self.missing.spec_idx(), above),
        }
    }

    fn new(v0: Point3, v1: Point3, k: u32, missing: Missing) -> (r: Rect2D)
        ensures
            r == (Rect2D { v0, v1, k, missing }),
    {
        Rect2D { v0, v1, k, missing }
    }

    /// Makes the rectangle from `(x0, y0)` to `(x1, y1)` in the plane `z = k`.
    pub fn new_xy(x0: u32, x1: u32, y0: u32, y1: u32, k: u32) -> (r: Rect2D)
        ensures
            r == (Rect2D { v0: [x0, y0, ZERO], v1: [x1, y1, ZERO], k, missing: Missing::Z }),
    {
        Self::new([x0, y0, ZERO], [x1, y1, ZERO], k, Missing::Z)
    }

    /// Makes the rectangle from `(x0, z0)` to `(x1, z1)` in the plane `y = k`.
    pub fn new_xz(x0: u32, x1: u32, z0: u32, z1: u32, k: u32) -> (r: Rect2D)
        ensures
            r == (Rect2D { v0: [x0, ZERO, z0], v1: [x1, ZERO, z1], k, missing: Missing::Y }),
    {
        Self::new([x0, ZERO, z0], [x1, ZERO, z1], k, Missing::Y)
    }

    /// Makes the rectangle from `(y0, z0)` to `(y1, z1)` in the plane `x = k`.
    pub fn new_yz(y0: u32, y1: u32, z0: u32, z1: u32, k: u32) -> (r: Rect2D)
        ensures
            r == (Rect2D { v0: [ZERO, y0, z0], v1: [ZERO, y1, z1], k, missing: Missing::X }),
    {
        Self::new([ZERO, y0, z0], [ZERO, y1, z1], k, Missing::X)
    }

    /// Says whether a ray meets the rectangle, given the parameter `t` at
    /// which the ray crosses the plane of the rectangle and the point `p` at
    /// which it does so. The ray misses if `t` lies outside the interval
    /// from `t_min` to `t_max`, or if `p` lies outside the extent of the
    /// rectangle on one of the two axes of the plane.
    pub fn hit(&self, t: u32, p: &Point3, t_min: u32, t_max: u32) -> (r: bool)
        ensures
            r == self.meets(t, *p, t_min, t_max),
    {
        if !at_most(t_min, t) || !at_most(t, t_max) {
            return false;
        }
        let (a, b) = self.missing.plane();
        at_most(self.v0[a], p[a]) && at_most(p[a], self.v1[a]) && at_most(self.v0[b], p[b])
            && at_most(p[b], self.v1[b])
    }

    /// Returns the bounding box of the rectangle. A box without thickness
    /// cannot be partitioned, so the caller gives the plane a thickness:
    /// `below` and `above` are coordinates a little to either side of `k`.
    pub fn bounding_box(&self, below: u32, above: u32) -> (b: Option<AABB>)
        ensures
            b == Some(self.thickened(below, above)),
    {
        let mut lower = self.v0;
        let mut upper = self.v1;
        lower[self.missing.idx()] = below;
        upper[self.missing.idx()] = above;
        assert(lower =~= replaced(self.v0, self.missing.spec_idx(), below));
        assert(upper =~= replaced(self.v1, self.missing.spec_idx(), above));
        Some(AABB::new(lower, upper))
    }
}

} // verus!
