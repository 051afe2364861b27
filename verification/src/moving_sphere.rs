//! Spheres.

use crate::scalar::{at_most, signed_magnitude};
use vstd::prelude::*;

verus! {

/// The parameter `t` lies in the interval from `t_min` to `t_max`, its ends
/// included.
pub open spec fn in_interval(t: u32, t_min: u32, t_max: u32) -> bool {
    signed_magnitude(t_min) <= signed_magnitude(t) <= signed_magnitude(t_max)
}

/// A ray meets a sphere at two parameters, the roots of a quadratic
/// equation. Returns the root at which the ray hits the sphere on the
/// interval from `t_min` to `t_max`: the smaller root `near` if it lies in
/// the interval, else the larger root `far` if that lies in the interval,
/// else none.
pub fn nearest_root(near: u32, far: u32, t_min: u32, t_max: u32) -> (root: Option<u32>)
    ensures
        root == if in_interval(near, t_min, t_max) {
            Some(near)
        } else if in_interval(far, t_min, t_max) {
            Some(far)
        } else {
            None
        },
{
    if at_most(t_min, near) && at_most(near, t_max) {
        Some(near)
    } else if at_most(t_min, far) && at_most(far, t_max) {
        Some(far)
    } else {
        None
    }
}

} // verus!
