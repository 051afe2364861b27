//! Boxes made of six rectangles.

use crate::aabb::{Point3, AABB};
use crate::aarect::Rect2D;
use vstd::prelude::*;

verus! {

/// An axis-aligned box with its six faces.
#[derive(Clone, Copy, Debug, PartialEq, Eq)]
pub struct Cube {
    pub min: Point3,
    pub max: Point3,
    pub sides: [Rect2D; 6],
}

/// The six faces of the box from `min` to `max`: the two faces across the
/// z axis, then those across the y axis, then those across the x axis, and
/// of each pair the face at the maximum corner first.
pub open spec fn faces(min: Point3, max: Point3) -> Seq<Rect2D> {
    seq![
        Rect2D { v0: [min[0], min[1], 0], v1: [max[0], max[1], 0], k: max[2], missing: crate::aarect::Missing::Z },
        Rect2D { v0: [min[0], min[1], 0], v1: [max[0], max[1], 0], k: min[2], missing: crate::aarect::Missing::Z },
        Rect2D { v0: [min[0], 0, min[2]], v1: [max[0], 0, max[2]], k: max[1], missing: crate::aarect::Missing::Y },
        Rect2D { v0: [min[0], 0, min[2]], v1: [max[0], 0, max[2]], k: min[1], missing: crate::aarect::Missing::Y },
        Rect2D { v0: [0, min[1], min[2]], v1: [0, max[1], max[2]], k: max[0], missing: crate::aarect::Missing::X },
        Rect2D { v0: [0, min[1], min[2]], v1: [0, max[1], max[2]], k: min[0], missing: crate::aarect::Missing::X },
    ]
}

impl Cube {
    /// Makes the box from the corner `min` to the corner `max`.
    pub fn new(min: Point3, max: Point3) -> (cube: Cube)
        ensures
            cube.min == min,
            cube.max == max,
            cube.sides@ == faces(min, max),
    {
        let sides = [
            Rect2D::new_xy(min[0], max[0], min[1], max[1], max[2]),
            Rect2D::new_xy(min[0], max[0], min[1], max[1], min[2]),
            Rect2D::new_xz(min[0], max[0], min[2], max[2], max[1]),
            Rect2D::new_xz(min[0], max[0], min[2], max[2], min[1]),
            Rect2D::new_yz(min[1], max[1], min[2], max[2], max[0]),
            Rect2D::new_yz(min[1], max[1], min[2], max[2], min[0]),
        ];
        assert(sides@ =~= faces(min, max));
        Cube { min, max, sides }
    }

    /// Returns the bounding box, which is the box itself.
    pub fn bounding_box(&self) -> (b: Option<AABB>)
        ensures
            b == Some(AABB { min: self.min, max: self.max }),
    {
        Some(AABB::new(self.min, self.max))
    }
}

} // verus!
