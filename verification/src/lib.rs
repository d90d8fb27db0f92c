//! A sample-based forward path tracer over exact fixed-point arithmetic.
//!
//! Scalars are fixed-point numbers: an `i64` holding `value * SCALE`.
//! Every geometric routine is verified against a specification-level
//! mirror of its arithmetic, so the contracts pin results down exactly.

pub mod bounding_box;
pub mod bvh;
pub mod color;
pub mod fx;
pub mod geometry;
pub mod material;
pub mod point3;
pub mod ray;
pub mod render;
pub mod rng;
pub mod scene;
pub mod vec3;
