//! Scattering lobes and lobe selection.
//!
//! The shading model tags every scattering event with a lobe; the integrator
//! dispatches on the tag (direct light sampling happens only at diffuse
//! reflections).  Lobe selection for the metallic-roughness surface clamps
//! the specular weight into a fixed band to avoid fireflies, and compares it
//! against one stream value.

use vstd::prelude::*;
use crate::FX_ONE;

verus! {

/// A labelled scattering mode, used for sampling dispatch and weighting.
#[derive(Clone, Copy, PartialEq, Eq, Structural, Debug)]
pub enum Lobe {
    DiffuseReflection,
    SpecularReflection,
    DiffuseTransmission,
    SpecularTransmission,
}

impl Default for Lobe {
    /// The default lobe is diffuse reflection.
    fn default() -> (r: Lobe)
        ensures
            r == Lobe::DiffuseReflection,
    {
        Lobe::DiffuseReflection
    }
}

/// Lower clamp of the lobe-selection weight (0.1 in fixed point).
pub const CLAMP_LO: i64 = 6554;

/// Upper clamp of the lobe-selection weight (0.9 in fixed point).
pub const CLAMP_HI: i64 = 58982;

/// The clamped specular weight: weights strictly between zero and one are
/// forced into the firefly band; exact zero and one are kept.
pub open spec fn clamped_weight(w: int) -> int {
    if w == 0 || w == FX_ONE {
        w
    } else if w < CLAMP_LO {
        CLAMP_LO as int
    } else if w > CLAMP_HI {
        CLAMP_HI as int
    } else {
        w
    }
}

/// Clamp the specular lobe weight into the firefly band.
pub fn clamp_specular_weight(w: i64) -> (r: i64)
    requires
        0 <= w <= FX_ONE,
    ensures
        r == clamped_weight(w as int),
        0 <= r <= FX_ONE,
{
    if w == 0 || w == FX_ONE {
        w
    } else if w < CLAMP_LO {
        CLAMP_LO
    } else if w > CLAMP_HI {
        CLAMP_HI
    } else {
        w
    }
}

/// Select the lobe for a metallic-roughness sample: with stream value `r3`
/// at least the clamped specular weight, scatter diffusely, otherwise
/// specularly.
pub fn select_lobe(specular_weight: i64, r3: i64) -> (r: Lobe)
    requires
        0 <= specular_weight <= FX_ONE,
        0 <= r3 < FX_ONE,
    ensures
        r == (if r3 >= clamped_weight(specular_weight as int) {
            Lobe::DiffuseReflection
        } else {
            Lobe::SpecularReflection
        }),
{
    let w = clamp_specular_weight(specular_weight);
    if r3 >= w {
        Lobe::DiffuseReflection
    } else {
        Lobe::SpecularReflection
    }
}

/// Pi in fixed point (rounded to the nearest unit).
pub const PI_FX: i64 = 205887;

/// Lambertian density of a direction with the given cosine against the
/// normal: `cos / pi`, as an exact rational.
pub fn lambertian_pdf(cos_fx: i64) -> (r: crate::ratio::Rat)
    requires
        0 <= cos_fx <= FX_ONE,
    ensures
        r.num == cos_fx,
        r.den == PI_FX,
        r.wf(),
{
    crate::ratio::Rat::new(cos_fx, PI_FX)
}

/// Lambertian reflectance times the cosine: `albedo / pi * cos`, as an
/// exact rational (the albedo is a fixed-point factor, hence the extra
/// scale in the denominator).
pub fn lambertian_eval(albedo_fx: i64, cos_fx: i64) -> (r: (i64, i64))
    requires
        0 <= albedo_fx <= FX_ONE,
        0 <= cos_fx <= FX_ONE,
    ensures
        r.0 == albedo_fx * cos_fx,
        r.1 == PI_FX * FX_ONE,
{
    proof {
        crate::vec3::lemma_mul_bound(albedo_fx as int, cos_fx as int, 65536, 65536);
    }
    (albedo_fx * cos_fx, PI_FX * FX_ONE)
}

/// Energy conservation of the Lambertian surface: its reflectance-cosine
/// product divided by its sampling density is exactly the albedo, for every
/// direction.  For a unit albedo the two rationals coincide, so an estimate
/// of their ratio converges to the albedo with no bias.
pub proof fn lemma_lambertian_energy(albedo_fx: int, cos_fx: int)
    requires
        0 <= albedo_fx <= FX_ONE,
        0 < cos_fx <= FX_ONE,
    ensures
        (albedo_fx * cos_fx) * (PI_FX as int) * (FX_ONE as int) == albedo_fx * (cos_fx * ((
        PI_FX * FX_ONE) as int)),
{
    lemma_energy_assoc(albedo_fx, cos_fx, PI_FX as int, FX_ONE as int);
}

proof fn lemma_energy_assoc(a: int, c: int, p: int, f: int) by (nonlinear_arith)
    ensures
        (a * c) * p * f == a * (c * (p * f)),
{
}

/// The rough dielectric is a one-point sampler: its density is always one.
pub fn glass_pdf() -> (r: i64)
    ensures
        r == FX_ONE,
{
    FX_ONE
}

/// The rough dielectric's reflectance by lobe: unit for the reflection
/// branch, the tint for transmission.
pub fn glass_evaluate(albedo_r: i64, albedo_g: i64, albedo_b: i64, lobe: Lobe) -> (r: (
    i64,
    i64,
    i64,
))
    ensures
        lobe == Lobe::SpecularReflection ==> r == (FX_ONE as i64, FX_ONE as i64, FX_ONE as i64),
        lobe != Lobe::SpecularReflection ==> r == (albedo_r, albedo_g, albedo_b),
{
    if lobe == Lobe::SpecularReflection {
        (FX_ONE, FX_ONE, FX_ONE)
    } else {
        (albedo_r, albedo_g, albedo_b)
    }
}

/// The branch a dielectric sample takes: reflect exactly when the drawn
/// value does not exceed the Fresnel term.
pub fn glass_reflects(fresnel_fx: i64, r3: i64) -> (r: bool)
    ensures
        r == (r3 <= fresnel_fx),
{
    r3 <= fresnel_fx
}

} // verus!
