//! The part of a small path tracer that decides rather than computes.
//!
//! A path tracer works on single-precision numbers. This library never does
//! arithmetic on them: it takes them by their bit patterns and only compares
//! them (`scalar`). On that rest the bounding boxes and their slab test
//! (`aabb`), the rules by which rectangles, boxes and spheres accept a hit
//! (`aarect`, `cube`, `moving_sphere`), the search for the closest hit and
//! the box around a list (`hittable`), and the construction of the bounding
//! volume hierarchy (`bvh`) with its stable sort (`sort`). Beside these
//! stand the lattice of gradient noise (`perlin`), the texture containers
//! (`texture`), the bounce control of the integrator (`integrator`) and the
//! raster schedule of the sampler (`sampler`). The random source is the
//! `rand` crate and the image buffer is that of the `image` crate; what is
//! taken on trust of them is stated in `rng` and `texture`.

pub mod aabb;
pub mod aarect;
pub mod bvh;
pub mod cube;
pub mod hittable;
pub mod integrator;
pub mod moving_sphere;
pub mod perlin;
pub mod rng;
pub mod sampler;
pub mod scalar;
pub mod sort;
pub mod texture;
