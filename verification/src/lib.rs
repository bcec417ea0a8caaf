//! Verified core of a Monte-Carlo path tracer over triangle meshes.
//!
//! All geometry is carried in exact integer arithmetic: vertex coordinates are
//! fixed-point integers, ray/triangle and ray/box intersection distances are
//! exact rationals, and radiometric quantities are fixed-point values.  This
//! lets every routine state precisely what it computes, and lets the
//! bounding-volume-hierarchy traversal be proved equivalent to a linear scan
//! over all triangles.

pub mod aabb;
pub mod bsdf;
pub mod bvh;
pub mod frame;
pub mod integrate;
pub mod lights;
pub mod material;
pub mod ratio;
pub mod sampler;
pub mod surface;
pub mod tri;
pub mod vec3;

use vstd::prelude::*;

verus! {

/// Fixed-point scale: raw values carry this many units per 1.0.
pub const FX_ONE: i64 = 65536;

} // verus!
