//! A Monte-Carlo ray tracer core with verified fixed-point arithmetic.
//!
//! All geometry and radiance computations run on 16.16 fixed-point numbers
//! (an `i64` holding value * 65536), so every arithmetic step has an exact
//! integer specification.  Randomness is drawn through a small set of
//! wrappers around the `rand` crate that promise only the range of each
//! draw; everything proved here holds for every possible sequence of draws.

pub mod aabb;
pub mod bvh_node;
pub mod camera;
pub mod fx;
pub mod hittable;
pub mod laws;
pub mod hittable_list;
pub mod material;
pub mod ray;
pub mod render;
pub mod rng;
pub mod scenes;
pub mod sphere;
pub mod texture;
pub mod transform;
pub mod vec3;

use vstd::prelude::*;

verus! {

} // verus!
