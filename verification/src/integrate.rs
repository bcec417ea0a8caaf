//! Path-integrator bookkeeping over fixed-point spectra.
//!
//! The radiometric state of a path — throughput and accumulated radiance —
//! is a triple of nonnegative fixed-point channels.  The decision logic of
//! the per-pixel loop (when a hit on an emissive surface terminates the
//! path and what it adds, when a diffuse bounce samples a light directly,
//! and when Russian roulette ends the path) is exact integer logic.

use vstd::prelude::*;
use crate::FX_ONE;
use crate::bsdf::Lobe;

verus! {

/// Magnitude cap on every spectrum channel (2^40 fixed-point units); keeps
/// all products inside `i128`.
pub const SPEC_MAX: i64 = 1099511627776;

/// A nonnegative fixed-point RGB triple.
#[derive(Clone, Copy, PartialEq, Eq, Structural, Debug)]
pub struct Spec3 {
    pub r: i64,
    pub g: i64,
    pub b: i64,
}

impl Spec3 {
    /// Channels are nonnegative and below the cap.
    pub open spec fn wf(self) -> bool {
        &&& 0 <= self.r <= SPEC_MAX
        &&& 0 <= self.g <= SPEC_MAX
        &&& 0 <= self.b <= SPEC_MAX
    }

    pub fn zero() -> (s: Spec3)
        ensures
            s == (Spec3 { r: 0, g: 0, b: 0 }),
            s.wf(),
    {
        Spec3 { r: 0, g: 0, b: 0 }
    }

    pub fn one() -> (s: Spec3)
        ensures
            s == (Spec3 { r: FX_ONE as i64, g: FX_ONE as i64, b: FX_ONE as i64 }),
            s.wf(),
    {
        Spec3 { r: FX_ONE, g: FX_ONE, b: FX_ONE }
    }

    /// The largest channel, the survival probability of Russian roulette.
    pub fn max_channel(&self) -> (m: i64)
        ensures
            m == if self.r >= self.g && self.r >= self.b {
                self.r
            } else if self.g >= self.b {
                self.g
            } else {
                self.b
            },
    {
        if self.r >= self.g && self.r >= self.b {
            self.r
        } else if self.g >= self.b {
            self.g
        } else {
            self.b
        }
    }
}

/// One fixed-point channel product, rounded down and saturated at the cap.
pub open spec fn fx_mul_spec(a: int, b: int) -> int {
    if (a * b) / (FX_ONE as int) <= SPEC_MAX {
        (a * b) / (FX_ONE as int)
    } else {
        SPEC_MAX as int
    }
}

fn fx_mul_nn(a: i64, b: i64) -> (r: i64)
    requires
        0 <= a <= SPEC_MAX,
        0 <= b <= SPEC_MAX,
    ensures
        r == fx_mul_spec(a as int, b as int),
        0 <= r <= SPEC_MAX,
{
    proof {
        crate::vec3::lemma_mul_bound(a as int, b as int, SPEC_MAX as int, SPEC_MAX as int);
        assert((a as int) * (b as int) >= 0) by (nonlinear_arith)
            requires
                (a as int) >= 0,
                (b as int) >= 0,
        ;
        assert(((a as int) * (b as int)) / 65536 >= 0) by (nonlinear_arith)
            requires
                (a as int) * (b as int) >= 0,
        ;
    }
    let q: i128 = ((a as i128) * (b as i128)) / 65536;
    if q <= SPEC_MAX as i128 {
        q as i64
    } else {
        SPEC_MAX
    }
}

/// Componentwise spectrum product (throughput update by a sampled spectrum
/// already divided by its density).
pub fn spec3_mul(a: &Spec3, b: &Spec3) -> (r: Spec3)
    requires
        a.wf(),
        b.wf(),
    ensures
        r.r == fx_mul_spec(a.r as int, b.r as int),
        r.g == fx_mul_spec(a.g as int, b.g as int),
        r.b == fx_mul_spec(a.b as int, b.b as int),
        r.wf(),
{
    let rr = fx_mul_nn(a.r, b.r);
    let rg = fx_mul_nn(a.g, b.g);
    let rb = fx_mul_nn(a.b, b.b);
    Spec3 { r: rr, g: rg, b: rb }
}

/// Saturating spectrum sum: accumulation into the pixel never overflows,
/// each channel stops at the cap.
pub fn spec3_add_saturating(a: &Spec3, b: &Spec3) -> (r: Spec3)
    requires
        a.wf(),
        b.wf(),
    ensures
        r.r == if a.r + b.r <= SPEC_MAX {
            a.r + b.r
        } else {
            SPEC_MAX as int
        },
        r.g == if a.g + b.g <= SPEC_MAX {
            a.g + b.g
        } else {
            SPEC_MAX as int
        },
        r.b == if a.b + b.b <= SPEC_MAX {
            a.b + b.b
        } else {
            SPEC_MAX as int
        },
        r.wf(),
{
    let rr = if a.r + b.r <= SPEC_MAX {
        a.r + b.r
    } else {
        SPEC_MAX
    };
    let rg = if a.g + b.g <= SPEC_MAX {
        a.g + b.g
    } else {
        SPEC_MAX
    };
    let rb = if a.b + b.b <= SPEC_MAX {
        a.b + b.b
    } else {
        SPEC_MAX
    };
    Spec3 { r: rr, g: rg, b: rb }
}

/// Rescale a throughput by the survival probability `q` (channelwise
/// `x * FX_ONE / q`, saturating at the cap).
pub fn spec3_rescale(a: &Spec3, q: i64) -> (r: Spec3)
    requires
        a.wf(),
        0 < q <= FX_ONE,
    ensures
        r.r == if (a.r as int) * 65536 / (q as int) <= SPEC_MAX {
            (a.r as int) * 65536 / (q as int)
        } else {
            SPEC_MAX as int
        },
        r.g == if (a.g as int) * 65536 / (q as int) <= SPEC_MAX {
            (a.g as int) * 65536 / (q as int)
        } else {
            SPEC_MAX as int
        },
        r.b == if (a.b as int) * 65536 / (q as int) <= SPEC_MAX {
            (a.b as int) * 65536 / (q as int)
        } else {
            SPEC_MAX as int
        },
        r.wf(),
{
    let rr = rescale_channel(a.r, q);
    let rg = rescale_channel(a.g, q);
    let rb = rescale_channel(a.b, q);
    Spec3 { r: rr, g: rg, b: rb }
}

fn rescale_channel(x: i64, q: i64) -> (r: i64)
    requires
        0 <= x <= SPEC_MAX,
        0 < q <= FX_ONE,
    ensures
        r == if (x as int) * 65536 / (q as int) <= SPEC_MAX {
            (x as int) * 65536 / (q as int)
        } else {
            SPEC_MAX as int
        },
        0 <= r <= SPEC_MAX,
{
    proof {
        crate::vec3::lemma_mul_bound(x as int, 65536, SPEC_MAX as int, 65536);
        assert((x as int) * 65536 >= 0) by (nonlinear_arith)
            requires
                (x as int) >= 0,
        ;
        assert((x as int) * 65536 / (q as int) >= 0) by (nonlinear_arith)
            requires
                (x as int) * 65536 >= 0,
                (q as int) > 0,
        ;
    }
    let num: i128 = (x as i128) * 65536;
    let d = num / (q as i128);
    if d <= SPEC_MAX as i128 {
        d as i64
    } else {
        SPEC_MAX
    }
}

/// What a hit on an emissive surface does to the path.
#[derive(Clone, Copy, PartialEq, Eq, Structural, Debug)]
pub enum EmissiveHit {
    /// The emitter was struck from behind: terminate, adding nothing.
    TerminateSilent,
    /// First bounce, or the previous bounce was not diffuse: add the full
    /// emission and terminate.
    AddEmission,
    /// The previous bounce was diffuse and its direct light was already
    /// sampled: add only the weighted sampling-side term and terminate.
    AddWeighted,
}

/// The emissive-hit rule of the per-pixel loop.
pub fn emissive_hit_action(bounce: u32, backface: bool, prev_lobe: Lobe) -> (r: EmissiveHit)
    ensures
        r == (if backface {
            EmissiveHit::TerminateSilent
        } else if bounce == 0 || prev_lobe != Lobe::DiffuseReflection {
            EmissiveHit::AddEmission
        } else {
            EmissiveHit::AddWeighted
        }),
{
    if backface {
        EmissiveHit::TerminateSilent
    } else if bounce == 0 || prev_lobe != Lobe::DiffuseReflection {
        EmissiveHit::AddEmission
    } else {
        EmissiveHit::AddWeighted
    }
}

/// Russian roulette: past the start bounce, the path dies exactly when the
/// drawn value exceeds the survival probability (the throughput's largest
/// channel); a surviving path is rescaled by that probability.
pub fn roulette_terminates(bounce: u32, start_bounce: u32, survival: i64, draw: i64) -> (r: bool)
    ensures
        r == (bounce > start_bounce && draw > survival),
{
    bounce > start_bounce && draw > survival
}

/// Which pixel a global ray index belongs to, and its coordinates: rays are
/// dealt out pixel-first, so consecutive indices sweep the image repeatedly.
pub fn pixel_of_ray(ray_idx: u64, width: u32, height: u32) -> (r: (u64, u32, u32))
    requires
        width > 0,
        height > 0,
    ensures
        r.0 == ray_idx as int % ((width * height) as int),
        r.1 == r.0 as int % (width as int),
        r.2 == r.0 as int / (width as int),
        r.1 < width,
        r.2 < height,
{
    proof {
        crate::vec3::lemma_mul_bound(width as int, height as int, 0xFFFFFFFF, 0xFFFFFFFF);
        assert((width as int) * (height as int) > 0) by (nonlinear_arith)
            requires
                (width as int) > 0,
                (height as int) > 0,
        ;
    }
    let num_pixels = (width as u64) * (height as u64);
    let pixel = ray_idx % num_pixels;
    let x = (pixel % (width as u64)) as u32;
    let y = (pixel / (width as u64)) as u32;
    proof {
        assert(pixel < num_pixels);
        assert((pixel as int) / (width as int) < height as int) by (nonlinear_arith)
            requires
                (pixel as int) < (width as int) * (height as int),
                (width as int) > 0,
                (height as int) > 0,
                (pixel as int) >= 0,
        ;
        assert((pixel as int) % (width as int) < width as int) by (nonlinear_arith)
            requires
                (width as int) > 0,
                (pixel as int) >= 0,
        ;
    }
    (pixel, x, y)
}

/// Mean of an accumulated channel over the sample count, rounded down.
pub fn mean_channel(sum: i64, samples: u32) -> (r: i64)
    requires
        0 <= sum <= SPEC_MAX,
        samples > 0,
    ensures
        r == (sum as int) / (samples as int),
        0 <= r <= SPEC_MAX,
{
    proof {
        assert((sum as int) / (samples as int) >= 0 && (sum as int) / (samples as int) <= sum
            as int) by (nonlinear_arith)
            requires
                (sum as int) >= 0,
                (samples as int) >= 1,
        ;
    }
    sum / (samples as i64)
}

/// Tone mapping of one channel: clamp the mean radiance to `[0, 1]`,
/// multiply by 255, and round to the nearest step.
pub fn quantize_channel(mean: i64) -> (r: u8)
    requires
        0 <= mean,
    ensures
        r == (if mean > FX_ONE {
            255int
        } else {
            ((mean as int) * 255 + 32768) / 65536
        }),
{
    let c = if mean > FX_ONE {
        FX_ONE
    } else {
        mean
    };
    proof {
        crate::vec3::lemma_mul_bound(c as int, 255, 65536, 255);
        assert(((c as int) * 255 + 32768) / 65536 <= 255 && ((c as int) * 255 + 32768) / 65536
            >= 0) by (nonlinear_arith)
            requires
                0 <= (c as int) <= 65536,
        ;
        if mean <= FX_ONE {
            assert(c == mean);
        } else {
            assert((65536int * 255 + 32768) / 65536 == 255);
        }
    }
    ((c * 255 + 32768) / 65536) as u8
}

/// Wrap a texture coordinate outside the unit interval to its fractional
/// part (Euclidean remainder by one, so negative coordinates wrap upward).
pub fn wrap_uv(u: i64) -> (r: i64)
    requires
        -1099511627776 <= u <= 1099511627776,
    ensures
        r == if 0 <= u <= FX_ONE {
            u as int
        } else {
            u as int % (FX_ONE as int)
        },
        0 <= r <= FX_ONE,
{
    proof {
        assert(0 <= (u as int) % 65536 < 65536);
    }
    if 0 <= u && u <= FX_ONE {
        u
    } else if u >= 0 {
        u % FX_ONE
    } else {
        let m = u % FX_ONE;
        if m == 0 {
            0
        } else {
            m + FX_ONE
        }
    }
}

} // verus!
