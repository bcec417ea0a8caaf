//! Material records in fixed point.
//!
//! Each channel group is a 4-lane fixed-point value that is either an RGBA
//! constant or an atlas rectangle `(u, v, w, h)`, selected by a has-texture
//! flag.  Emission is scaled by a constant gain on ingestion; roughness and
//! metallic are clamped away from the degenerate ends of their ranges.

use vstd::prelude::*;
use crate::FX_ONE;

verus! {

/// Fixed-point quantum used for the numerical floors (about 1e-3).
pub const FX_EPS: i64 = 66;

/// Gain applied to emissive colors when a scene is ingested.
pub const EMISSION_GAIN: i64 = 15;

/// A 4-lane fixed-point value: an RGBA color or an atlas rectangle.
#[derive(Clone, Copy, PartialEq, Eq, Structural, Debug)]
pub struct Fx4 {
    pub x: i64,
    pub y: i64,
    pub z: i64,
    pub w: i64,
}

impl Fx4 {
    pub fn zero() -> (r: Fx4)
        ensures
            r == (Fx4 { x: 0, y: 0, z: 0, w: 0 }),
    {
        Fx4 { x: 0, y: 0, z: 0, w: 0 }
    }
}

/// Per-material record: emissive, albedo, roughness, metallic and normal
/// channels, each either a constant or an atlas rectangle.
#[derive(Clone, Copy, PartialEq, Eq, Structural, Debug)]
pub struct MaterialData {
    pub emissive: Fx4,
    pub albedo: Fx4,
    pub roughness: Fx4,
    pub metallic: Fx4,
    pub normals: Fx4,
    pub has_albedo_texture: bool,
    pub has_metallic_texture: bool,
    pub has_roughness_texture: bool,
    pub has_normal_texture: bool,
}

/// Sum of the three emissive color channels.
pub open spec fn emissive_sum(m: MaterialData) -> int {
    m.emissive.x + m.emissive.y + m.emissive.z
}

/// A material emits light when any emissive channel is nonzero.
pub open spec fn is_emissive_spec(m: MaterialData) -> bool {
    !(m.emissive.x == 0 && m.emissive.y == 0 && m.emissive.z == 0)
}

impl MaterialData {
    pub fn new() -> (r: MaterialData)
        ensures
            r.emissive == (Fx4 { x: 0, y: 0, z: 0, w: 0 }),
            !r.has_albedo_texture && !r.has_metallic_texture && !r.has_roughness_texture
                && !r.has_normal_texture,
    {
        MaterialData {
            emissive: Fx4::zero(),
            albedo: Fx4::zero(),
            roughness: Fx4::zero(),
            metallic: Fx4::zero(),
            normals: Fx4::zero(),
            has_albedo_texture: false,
            has_metallic_texture: false,
            has_roughness_texture: false,
            has_normal_texture: false,
        }
    }

    pub fn is_emissive(&self) -> (r: bool)
        ensures
            r == is_emissive_spec(*self),
    {
        !(self.emissive.x == 0 && self.emissive.y == 0 && self.emissive.z == 0)
    }
}

/// Emission gain applied on ingestion: every emissive channel is multiplied
/// by `EMISSION_GAIN`.
pub fn scale_emission(e: i64) -> (r: i64)
    requires
        -576460752303423488 <= e <= 576460752303423488,
    ensures
        r == EMISSION_GAIN * e,
{
    15 * e
}

/// Roughness floor and ceiling: the stored value is clamped to
/// `[FX_EPS, FX_ONE]`.
pub fn clamp_roughness(r: i64) -> (c: i64)
    ensures
        c == if r < FX_EPS {
            FX_EPS as int
        } else if r > FX_ONE {
            FX_ONE as int
        } else {
            r as int
        },
        FX_EPS <= c <= FX_ONE,
{
    if r < FX_EPS {
        FX_EPS
    } else if r > FX_ONE {
        FX_ONE
    } else {
        r
    }
}

/// Metallic clamp: the stored value is clamped to `[0, FX_ONE - FX_EPS]`.
pub fn clamp_metallic(m: i64) -> (c: i64)
    ensures
        c == if m < 0 {
            0int
        } else if m > FX_ONE - FX_EPS {
            FX_ONE - FX_EPS
        } else {
            m as int
        },
        0 <= c <= FX_ONE - FX_EPS,
{
    if m < 0 {
        0
    } else if m > FX_ONE - FX_EPS {
        FX_ONE - FX_EPS
    } else {
        m
    }
}

} // verus!
