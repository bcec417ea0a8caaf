//! Camera-side helpers: field of view, screen-to-plane transforms, and the
//! orthogonal frame used to turn hemisphere samples into world directions.

use vstd::prelude::*;
use crate::FX_ONE;
use crate::vec3::{Vec3i, v_dot, v_cross, lemma_mul_bound};

verus! {

/// Half pi in fixed point (rounded to the nearest unit).
pub const HALF_PI_FX: i64 = 102944;

/// A field of view, held in fixed-point radians.
#[derive(Clone, Copy, PartialEq, Eq, Structural, Debug)]
pub struct Fov(pub i64);

impl Fov {
    /// A field of view given directly in radians.
    pub fn rad(rad: i64) -> (r: Fov)
        ensures
            r == Fov(rad),
    {
        Fov(rad)
    }

    /// A field of view given in degrees, converted by a quarter turn per
    /// ninety degrees.
    pub fn deg(deg: i64) -> (r: Fov)
        requires
            0 <= deg <= 360,
        ensures
            r == Fov(((deg * HALF_PI_FX / 90) as i64)),
            0 <= r.0 <= 4 * HALF_PI_FX,
    {
        proof {
            lemma_mul_bound(deg as int, HALF_PI_FX as int, 360, HALF_PI_FX as int);
            assert(0 <= (deg as int) * (HALF_PI_FX as int) / 90 <= 4 * HALF_PI_FX)
                by (nonlinear_arith)
                requires
                    0 <= (deg as int) <= 360,
            ;
        }
        Fov(deg * HALF_PI_FX / 90)
    }

    /// The angle in fixed-point radians.
    pub fn radians(self) -> (r: i64)
        ensures
            r == self.0,
    {
        self.0
    }
}

/// An affine map from screen coordinates to the camera plane.
#[derive(Clone, Copy, PartialEq, Eq, Structural, Debug)]
pub struct Transform {
    pub scale: i64,
    pub offset: i64,
}

/// Truncated fixed-point product, the rounding a hardware multiply uses:
/// round toward zero.
pub open spec fn fx_mul_trunc(a: int, b: int) -> int {
    if a * b >= 0 {
        (a * b) / (FX_ONE as int)
    } else {
        -((-(a * b)) / (FX_ONE as int))
    }
}

impl Transform {
    /// Apply the map: `scale * x + offset` in fixed point, product rounded
    /// toward zero.
    pub fn apply(&self, x: i64) -> (r: i64)
        requires
            -2147483648 <= self.scale <= 2147483648,
            -2147483648 <= x <= 2147483648,
            -4611686018427387904 <= self.offset <= 4611686018427387904,
        ensures
            r == fx_mul_trunc(self.scale as int, x as int) + self.offset,
    {
        proof {
            lemma_mul_bound(self.scale as int, x as int, 2147483648, 2147483648);
            assert(fx_mul_trunc(self.scale as int, x as int) == (if (self.scale as i128) * (
            x as i128) >= 0 {
                ((self.scale as i128) * (x as i128) / 65536) as int
            } else {
                -((-((self.scale as i128) * (x as i128))) / 65536) as int
            }));
            assert((self.scale as int) * (x as int) >= 0 ==> ((self.scale as int) * (x as int))
                / 65536 <= 2147483648 * 2147483648) by (nonlinear_arith)
                requires
                    -(2147483648 * 2147483648) <= (self.scale as int) * (x as int) <= 2147483648
                        * 2147483648,
            ;
            assert((self.scale as int) * (x as int) < 0 ==> (-((self.scale as int) * (x as int)))
                / 65536 <= 2147483648 * 2147483648) by (nonlinear_arith)
                requires
                    -(2147483648 * 2147483648) <= (self.scale as int) * (x as int) <= 2147483648
                        * 2147483648,
            ;
        }
        let p: i128 = (self.scale as i128) * (x as i128);
        let q: i128 = if p >= 0 {
            p / 65536
        } else {
            -((-p) / 65536)
        };
        (q as i64) + self.offset
    }
}

/// The emissive strength of a light source.
#[derive(Clone, Copy, PartialEq, Eq, Structural, Debug)]
pub struct Light {
    pub hv: i64,
}

/// An orthogonal frame around a shading normal, used to map
/// cosine-hemisphere samples into world space.  The two tangents are exact
/// cross products, so their orthogonality is exact rather than approximate.
#[derive(Clone, Copy, PartialEq, Eq, Structural, Debug)]
pub struct Cos {
    pub normal: Vec3i,
    pub u: Vec3i,
    pub v: Vec3i,
}

impl Cos {
    /// Build the frame: pick a fixed helper axis not parallel to the
    /// normal (the y axis for steep normals, else the x axis), and take two
    /// cross products.  Both tangents are exactly orthogonal to the normal
    /// and to each other, and nonzero for a roughly unit-length normal.
    pub fn normal(normal: Vec3i) -> (r: Cos)
        requires
            normal.bounded(),
            3900000000 <= (normal.x as int) * (normal.x as int) + (normal.y as int) * (normal.y
                as int) + (normal.z as int) * (normal.z as int) <= 4800000000,
        ensures
            r.normal == normal,
            v_dot(r.u@, r.normal@) == 0,
            v_dot(r.v@, r.normal@) == 0,
            v_dot(r.v@, r.u@) == 0,
            !(r.u.x == 0 && r.u.y == 0 && r.u.z == 0),
            !(r.v.x == 0 && r.v.y == 0 && r.v.z == 0),
    {
        let steep = normal.x > 58982 || normal.x < -58982;
        let u = if steep {
            // helper axis (0, 1, 0): u = n x a = (-n.z, 0, n.x)
            Vec3i { x: -normal.z, y: 0, z: normal.x }
        } else {
            // helper axis (1, 0, 0): u = n x a = (0, n.z, -n.y)
            Vec3i { x: 0, y: normal.z, z: -normal.y }
        };
        proof {
            if !steep && normal.y == 0 && normal.z == 0 {
                assert((normal.x as int) * (normal.x as int) < 3900000000) by (nonlinear_arith)
                    requires
                        -58982 <= (normal.x as int) <= 58982,
                ;
                assert(false);
            }
            assert((u.x as int) * (normal.x as int) + (u.y as int) * (normal.y as int) + (u.z
                as int) * (normal.z as int) == 0) by (nonlinear_arith)
                requires
                    (u.x as int == -(normal.z as int) && u.y as int == 0 && u.z as int == normal.x
                        as int) || (u.x as int == 0 && u.y as int == normal.z as int && u.z as int
                        == -(normal.y as int)),
            ;
            lemma_mul_bound(normal.y as int, u.z as int, 262144, 524288);
            lemma_mul_bound(normal.z as int, u.y as int, 262144, 524288);
            lemma_mul_bound(normal.z as int, u.x as int, 262144, 524288);
            lemma_mul_bound(normal.x as int, u.z as int, 262144, 524288);
            lemma_mul_bound(normal.x as int, u.y as int, 262144, 524288);
            lemma_mul_bound(normal.y as int, u.x as int, 262144, 524288);
        }
        let v = Vec3i {
            x: normal.y * u.z - normal.z * u.y,
            y: normal.z * u.x - normal.x * u.z,
            z: normal.x * u.y - normal.y * u.x,
        };
        proof {
            assert(v@ == v_cross(normal@, u@));
            lemma_cross_v_dot(normal@.x, normal@.y, normal@.z, u@.x, u@.y, u@.z);
            assert(v_dot(u@, normal@) == 0);
            // the second tangent is nonzero: one of its lanes is a negated
            // sum of squares with at least one square positive
            if steep {
                assert(v.y as int == -((normal.z as int) * (normal.z as int) + (normal.x as int)
                    * (normal.x as int))) by (nonlinear_arith)
                    requires
                        (v.y as int) == (normal.z as int) * (u.x as int) - (normal.x as int) * (
                        u.z as int),
                        (u.x as int) == -(normal.z as int),
                        (u.z as int) == (normal.x as int),
                ;
                assert((normal.z as int) * (normal.z as int) + (normal.x as int) * (normal.x
                    as int) > 0) by (nonlinear_arith)
                    requires
                        (normal.x as int) > 58982 || (normal.x as int) < -58982,
                ;
            } else {
                assert(v.x as int == -((normal.y as int) * (normal.y as int) + (normal.z as int)
                    * (normal.z as int))) by (nonlinear_arith)
                    requires
                        (v.x as int) == (normal.y as int) * (u.z as int) - (normal.z as int) * (
                        u.y as int),
                        (u.z as int) == -(normal.y as int),
                        (u.y as int) == (normal.z as int),
                ;
                assert((normal.y as int) * (normal.y as int) + (normal.z as int) * (normal.z
                    as int) > 0) by (nonlinear_arith)
                    requires
                        !(normal.y == 0 && normal.z == 0),
                ;
            }
        }
        Cos { normal, u, v }
    }
}

proof fn lemma_diff_mul(p: int, q: int, w: int) by (nonlinear_arith)
    ensures
        (p - q) * w == w * p - w * q,
{
}

proof fn lemma_swap_mid(a: int, b: int, c: int) by (nonlinear_arith)
    ensures
        a * (b * c) == b * (a * c),
{
}

proof fn lemma_swap_ends(a: int, b: int, c: int) by (nonlinear_arith)
    ensures
        a * (b * c) == c * (b * a),
{
}

/// The cross product `n x u` is orthogonal to `n` and to `u`, stated over
/// the dot products the frame's contract uses.
proof fn lemma_cross_v_dot(nx: int, ny: int, nz: int, ux: int, uy: int, uz: int)
    ensures
        (ny * uz - nz * uy) * nx + (nz * ux - nx * uz) * ny + (nx * uy - ny * ux) * nz == 0,
        (ny * uz - nz * uy) * ux + (nz * ux - nx * uz) * uy + (nx * uy - ny * ux) * uz == 0,
{
    lemma_diff_mul(ny * uz, nz * uy, nx);
    lemma_diff_mul(nz * ux, nx * uz, ny);
    lemma_diff_mul(nx * uy, ny * ux, nz);
    lemma_swap_mid(nx, ny, uz);
    lemma_swap_mid(nx, nz, uy);
    lemma_swap_mid(ny, nz, ux);
    lemma_diff_mul(ny * uz, nz * uy, ux);
    lemma_diff_mul(nz * ux, nx * uz, uy);
    lemma_diff_mul(nx * uy, ny * ux, uz);
    lemma_swap_ends(ux, ny, uz);
    lemma_swap_ends(ux, nz, uy);
    lemma_swap_ends(uy, nx, uz);
}

/// Per-render configuration: camera placement, image size, and the bounce
/// policy.  Positions are in scene units, angles in fixed-point radians.
#[derive(Clone, Copy, PartialEq, Eq, Structural, Debug)]
pub struct TracingConfig {
    pub cam_pos: Vec3i,
    pub cam_rot_x: i64,
    pub cam_rot_y: i64,
    pub width: u32,
    pub height: u32,
    pub min_bounces: u32,
    pub max_bounces: u32,
}

impl TracingConfig {
    /// The soft preset: a 720p frame from just behind the origin with a
    /// short bounce budget.
    pub fn soft() -> (r: TracingConfig)
        ensures
            r.width == 1280 && r.height == 720,
            r.cam_pos == (Vec3i { x: 0i64, y: 1024i64, z: -5120i64 }),
            r.cam_rot_x == 0 && r.cam_rot_y == 0,
            r.min_bounces == 3 && r.max_bounces == 4,
    {
        TracingConfig {
            cam_pos: Vec3i { x: 0, y: 1024, z: -5120 },
            cam_rot_x: 0,
            cam_rot_y: 0,
            width: 1280,
            height: 720,
            min_bounces: 3,
            max_bounces: 4,
        }
    }
}

} // verus!
