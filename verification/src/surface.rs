//! Per-hit surface attributes.
//!
//! A vertex carries a position, a shading normal, a tangent and two texture
//! channels.  At a hit, attributes are interpolated with the intersector's
//! exact barycentric numerators; material channels are either constants or
//! atlas rectangles selected by a has-texture flag, fetched with exact
//! floor-rounded bilinear filtering; a sampled normal is remapped and taken
//! into world space through the tangent frame.

use vstd::prelude::*;
use crate::FX_ONE;
use crate::vec3::{Vec3i, lemma_mul_bound};
use crate::tri::T_BOUND;
use crate::material::Fx4;
use crate::frame::fx_mul_trunc;

verus! {

/// A vertex record: position, unit shading normal, unit tangent, and two
/// texture-coordinate channels, all in fixed point.
#[derive(Clone, Copy, PartialEq, Eq, Structural, Debug)]
pub struct VertexData {
    pub pos: Vec3i,
    pub normal: Vec3i,
    pub tangent: Vec3i,
    pub u0: i64,
    pub v0: i64,
    pub u1: i64,
    pub v1: i64,
}

/// One attribute lane interpolated at a hit from the intersector's exact
/// barycentric numerators: the floor of the blend
/// `((den-u-v)*a + u*b + v*c) / den`.
pub fn interpolate_attr(a: i64, b: i64, c: i64, u_num: i64, v_num: i64, den: i64) -> (r: i64)
    requires
        0 < den <= T_BOUND,
        0 <= u_num,
        0 <= v_num,
        u_num + v_num <= den,
        -262144 <= a <= 262144,
        -262144 <= b <= 262144,
        -262144 <= c <= 262144,
    ensures
        den * r <= (den - u_num - v_num) * a + u_num * b + v_num * c < den * (r + 1),
        -262144 <= r <= 262144,
{
    let w0: i128 = (den - u_num - v_num) as i128;
    proof {
        lemma_mul_bound(w0 as int, (a + 262144) as int, T_BOUND as int, 524288);
        lemma_mul_bound(u_num as int, (b + 262144) as int, T_BOUND as int, 524288);
        lemma_mul_bound(v_num as int, (c + 262144) as int, T_BOUND as int, 524288);
        assert(w0 * ((a + 262144) as int) >= 0 && (u_num as int) * ((b + 262144) as int) >= 0 && (
        v_num as int) * ((c + 262144) as int) >= 0) by (nonlinear_arith)
            requires
                w0 >= 0 && u_num >= 0 && v_num >= 0,
                a + 262144 >= 0 && b + 262144 >= 0 && c + 262144 >= 0,
        ;
        assert(w0 * ((a + 262144) as int) <= w0 * 524288) by (nonlinear_arith)
            requires
                w0 >= 0,
                ((a + 262144) as int) <= 524288,
        ;
        assert((u_num as int) * ((b + 262144) as int) <= (u_num as int) * 524288)
            by (nonlinear_arith)
            requires
                u_num >= 0,
                ((b + 262144) as int) <= 524288,
        ;
        assert((v_num as int) * ((c + 262144) as int) <= (v_num as int) * 524288)
            by (nonlinear_arith)
            requires
                v_num >= 0,
                ((c + 262144) as int) <= 524288,
        ;
        assert(w0 * 524288 + (u_num as int) * 524288 + (v_num as int) * 524288 == (den as int)
            * 524288) by (nonlinear_arith)
            requires
                w0 + u_num + v_num == den as int,
        ;
        lemma_shift_blend(
            w0 as int,
            u_num as int,
            v_num as int,
            den as int,
            a as int,
            b as int,
            c as int,
        );
    }
    let shifted: i128 = w0 * ((a as i128) + 262144) + (u_num as i128) * ((b as i128) + 262144) + (
    v_num as i128) * ((c as i128) + 262144);
    let q: i128 = shifted / (den as i128);
    proof {
        assert((den as int) * (q as int) <= (shifted as int) && (shifted as int) < (den as int) * ((
        q as int) + 1)) by (nonlinear_arith)
            requires
                shifted >= 0,
                (den as int) > 0,
                (q as int) == (shifted as int) / (den as int),
        ;
        assert(0 <= q <= 524288) by (nonlinear_arith)
            requires
                (den as int) * (q as int) <= (shifted as int),
                (shifted as int) <= (den as int) * 524288,
                (shifted as int) < (den as int) * ((q as int) + 1),
                shifted >= 0,
                (den as int) > 0,
        ;
        assert((den as int) * ((q as int) - 262144) == (den as int) * (q as int) - (den as int)
            * 262144) by (nonlinear_arith);
        assert((den as int) * ((q as int) - 262144 + 1) == (den as int) * ((q as int) + 1) - (
        den as int) * 262144) by (nonlinear_arith);
    }
    (q as i64) - 262144
}

/// Shifting all three attributes by the same amount shifts the blend by the
/// weight total times that amount.
proof fn lemma_shift_blend(w0: int, w1: int, w2: int, den: int, a: int, b: int, c: int)
    by (nonlinear_arith)
    requires
        w0 + w1 + w2 == den,
    ensures
        w0 * (a + 262144) + w1 * (b + 262144) + w2 * (c + 262144) == w0 * a + w1 * b + w2 * c + den
            * 262144,
{
}

/// The atlas texel addressed by `(x, y)`, wrapping both coordinates.
pub open spec fn texel_at(texels: Seq<Fx4>, w: int, h: int, x: int, y: int) -> Fx4 {
    texels[(y % h) * w + (x % w)]
}

/// One channel of the floor-rounded bilinear mix of four texels.
pub open spec fn bilerp_channel(c00: int, c10: int, c01: int, c11: int, fx: int, fy: int) -> int {
    (c00 * ((65536 - fx) * (65536 - fy)) + c10 * (fx * (65536 - fy)) + c01 * ((65536 - fx) * fy)
        + c11 * (fx * fy)) / 4294967296
}

/// Exact bilinear filtering at fixed-point coordinates `(u, v)` in `[0, 1]`:
/// the coordinates are scaled to texel space, split into whole and
/// fractional parts, and the four wrapped neighbours are mixed with the
/// floor-rounded weighted sum.
pub open spec fn bilerp_spec(texels: Seq<Fx4>, w: int, h: int, u: int, v: int) -> Fx4 {
    let x0 = (u * w) / 65536;
    let y0 = (v * h) / 65536;
    let fx = u * w - x0 * 65536;
    let fy = v * h - y0 * 65536;
    let c00 = texel_at(texels, w, h, x0, y0);
    let c10 = texel_at(texels, w, h, x0 + 1, y0);
    let c01 = texel_at(texels, w, h, x0, y0 + 1);
    let c11 = texel_at(texels, w, h, x0 + 1, y0 + 1);
    Fx4 {
        x: bilerp_channel(c00.x as int, c10.x as int, c01.x as int, c11.x as int, fx, fy) as i64,
        y: bilerp_channel(c00.y as int, c10.y as int, c01.y as int, c11.y as int, fx, fy) as i64,
        z: bilerp_channel(c00.z as int, c10.z as int, c01.z as int, c11.z as int, fx, fy) as i64,
        w: bilerp_channel(c00.w as int, c10.w as int, c01.w as int, c11.w as int, fx, fy) as i64,
    }
}

/// Every channel of every texel is a nonnegative fixed-point value below the
/// spectrum cap.
pub open spec fn atlas_wf(texels: Seq<Fx4>) -> bool {
    forall|i: int|
        0 <= i < texels.len() ==> {
            &&& 0 <= (#[trigger] texels[i]).x <= 1099511627776
            &&& 0 <= texels[i].y <= 1099511627776
            &&& 0 <= texels[i].z <= 1099511627776
            &&& 0 <= texels[i].w <= 1099511627776
        }
}

fn bilerp_channel_exec(c00: i64, c10: i64, c01: i64, c11: i64, fx: i64, fy: i64) -> (r: i64)
    requires
        0 <= c00 <= 1099511627776,
        0 <= c10 <= 1099511627776,
        0 <= c01 <= 1099511627776,
        0 <= c11 <= 1099511627776,
        0 <= fx < 65536,
        0 <= fy < 65536,
    ensures
        r == bilerp_channel(c00 as int, c10 as int, c01 as int, c11 as int, fx as int, fy as int),
        0 <= r <= 1099511627776,
{
    proof {
        lemma_mul_bound((65536 - fx) as int, (65536 - fy) as int, 65536, 65536);
        lemma_mul_bound(fx as int, (65536 - fy) as int, 65536, 65536);
        lemma_mul_bound((65536 - fx) as int, fy as int, 65536, 65536);
        lemma_mul_bound(fx as int, fy as int, 65536, 65536);
    }
    let wa: i128 = ((65536 - fx) as i128) * ((65536 - fy) as i128);
    let wb: i128 = (fx as i128) * ((65536 - fy) as i128);
    let wc: i128 = ((65536 - fx) as i128) * (fy as i128);
    let wd: i128 = (fx as i128) * (fy as i128);
    proof {
        assert(wa + wb + wc + wd == 4294967296) by (nonlinear_arith)
            requires
                wa == ((65536 - fx) as int) * ((65536 - fy) as int),
                wb == (fx as int) * ((65536 - fy) as int),
                wc == ((65536 - fx) as int) * (fy as int),
                wd == (fx as int) * (fy as int),
        ;
        assert(wa >= 0 && wb >= 0 && wc >= 0 && wd >= 0) by (nonlinear_arith)
            requires
                0 <= fx < 65536,
                0 <= fy < 65536,
                wa == ((65536 - fx) as int) * ((65536 - fy) as int),
                wb == (fx as int) * ((65536 - fy) as int),
                wc == ((65536 - fx) as int) * (fy as int),
                wd == (fx as int) * (fy as int),
        ;
        lemma_mul_bound(c00 as int, wa as int, 1099511627776, 4294967296);
        lemma_mul_bound(c10 as int, wb as int, 1099511627776, 4294967296);
        lemma_mul_bound(c01 as int, wc as int, 1099511627776, 4294967296);
        lemma_mul_bound(c11 as int, wd as int, 1099511627776, 4294967296);
        assert((c00 as int) * (wa as int) >= 0 && (c10 as int) * (wb as int) >= 0 && (c01 as int)
            * (wc as int) >= 0 && (c11 as int) * (wd as int) >= 0) by (nonlinear_arith)
            requires
                c00 >= 0 && c10 >= 0 && c01 >= 0 && c11 >= 0,
                wa >= 0 && wb >= 0 && wc >= 0 && wd >= 0,
        ;
        assert((c00 as int) * (wa as int) <= 1099511627776 * (wa as int)) by (nonlinear_arith)
            requires
                0 <= c00 <= 1099511627776,
                wa >= 0,
        ;
        assert((c10 as int) * (wb as int) <= 1099511627776 * (wb as int)) by (nonlinear_arith)
            requires
                0 <= c10 <= 1099511627776,
                wb >= 0,
        ;
        assert((c01 as int) * (wc as int) <= 1099511627776 * (wc as int)) by (nonlinear_arith)
            requires
                0 <= c01 <= 1099511627776,
                wc >= 0,
        ;
        assert((c11 as int) * (wd as int) <= 1099511627776 * (wd as int)) by (nonlinear_arith)
            requires
                0 <= c11 <= 1099511627776,
                wd >= 0,
        ;
        assert(1099511627776 * (wa as int) + 1099511627776 * (wb as int) + 1099511627776 * (
        wc as int) + 1099511627776 * (wd as int) == 1099511627776 * 4294967296)
            by (nonlinear_arith)
            requires
                (wa as int) + (wb as int) + (wc as int) + (wd as int) == 4294967296,
        ;
    }
    let sum: i128 = (c00 as i128) * wa + (c10 as i128) * wb + (c01 as i128) * wc + (c11 as i128)
        * wd;
    let q = sum / 4294967296;
    proof {
        assert(0 <= q <= 1099511627776) by (nonlinear_arith)
            requires
                0 <= sum,
                (sum as int) <= 1099511627776 * 4294967296,
                (q as int) == (sum as int) / 4294967296,
        ;
    }
    q as i64
}

/// Exact bilinear atlas fetch at wrapped fixed-point coordinates.
pub fn sample_atlas(texels: &Vec<Fx4>, width: u32, height: u32, u: i64, v: i64) -> (r: Fx4)
    requires
        texels@.len() == (width as int) * (height as int),
        0 < width <= 65536,
        0 < height <= 65536,
        0 <= u <= FX_ONE,
        0 <= v <= FX_ONE,
        atlas_wf(texels@),
    ensures
        r == bilerp_spec(texels@, width as int, height as int, u as int, v as int),
{
    proof {
        lemma_mul_bound(u as int, width as int, 65536, 65536);
        lemma_mul_bound(v as int, height as int, 65536, 65536);
        lemma_mul_bound(width as int, height as int, 65536, 65536);
    }
    let sx: i64 = u * (width as i64);
    let sy: i64 = v * (height as i64);
    let x0: i64 = sx / 65536;
    let y0: i64 = sy / 65536;
    let fx: i64 = sx - x0 * 65536;
    let fy: i64 = sy - y0 * 65536;
    proof {
        assert(0 <= (sx as int) / 65536 * 65536 <= sx && sx - (sx as int) / 65536 * 65536 < 65536)
            by (nonlinear_arith)
            requires
                0 <= sx,
        ;
        assert(0 <= (sy as int) / 65536 * 65536 <= sy && sy - (sy as int) / 65536 * 65536 < 65536)
            by (nonlinear_arith)
            requires
                0 <= sy,
        ;
    }
    let c00 = fetch(texels, width, height, x0 as u64, y0 as u64);
    let c10 = fetch(texels, width, height, (x0 + 1) as u64, y0 as u64);
    let c01 = fetch(texels, width, height, x0 as u64, (y0 + 1) as u64);
    let c11 = fetch(texels, width, height, (x0 + 1) as u64, (y0 + 1) as u64);
    let rx = bilerp_channel_exec(c00.x, c10.x, c01.x, c11.x, fx, fy);
    let ry = bilerp_channel_exec(c00.y, c10.y, c01.y, c11.y, fx, fy);
    let rz = bilerp_channel_exec(c00.z, c10.z, c01.z, c11.z, fx, fy);
    let rw = bilerp_channel_exec(c00.w, c10.w, c01.w, c11.w, fx, fy);
    Fx4 { x: rx, y: ry, z: rz, w: rw }
}

/// Wrapped texel fetch.
fn fetch(texels: &Vec<Fx4>, width: u32, height: u32, x: u64, y: u64) -> (r: Fx4)
    requires
        texels@.len() == (width as int) * (height as int),
        0 < width <= 65536,
        0 < height <= 65536,
        atlas_wf(texels@),
    ensures
        r == texel_at(texels@, width as int, height as int, x as int, y as int),
        0 <= r.x <= 1099511627776,
        0 <= r.y <= 1099511627776,
        0 <= r.z <= 1099511627776,
        0 <= r.w <= 1099511627776,
{
    let xw = x % (width as u64);
    let yw = y % (height as u64);
    proof {
        assert((yw as int) * (width as int) + (xw as int) < (height as int) * (width as int))
            by (nonlinear_arith)
            requires
                0 <= (yw as int) < (height as int),
                0 <= (xw as int) < (width as int),
        ;
        assert((yw as int) * (width as int) + (xw as int) >= 0) by (nonlinear_arith)
            requires
                0 <= (yw as int),
                0 <= (xw as int),
                (width as int) > 0,
        ;
        assert((height as int) * (width as int) == (width as int) * (height as int))
            by (nonlinear_arith);
        lemma_mul_bound(yw as int, width as int, 65535, 65536);
    }
    let idx = (yw as usize) * (width as usize) + (xw as usize);
    texels[idx]
}

/// Select a material channel: the bilinear atlas fetch at the
/// rectangle-mapped coordinates when the texture flag is set, else the
/// constant value.  The rectangle is `(u, v, w, h)` within the unit square.
pub fn material_channel(
    value: Fx4,
    has_texture: bool,
    texels: &Vec<Fx4>,
    width: u32,
    height: u32,
    u: i64,
    v: i64,
) -> (r: Fx4)
    requires
        texels@.len() == (width as int) * (height as int),
        0 < width <= 65536,
        0 < height <= 65536,
        0 <= u <= FX_ONE,
        0 <= v <= FX_ONE,
        atlas_wf(texels@),
        has_texture ==> {
            &&& 0 <= value.x && 0 <= value.z && value.x + value.z <= FX_ONE
            &&& 0 <= value.y && 0 <= value.w && value.y + value.w <= FX_ONE
        },
    ensures
        r == (if has_texture {
            bilerp_spec(
                texels@,
                width as int,
                height as int,
                value.x + (u * value.z) / (FX_ONE as int),
                value.y + (v * value.w) / (FX_ONE as int),
            )
        } else {
            value
        }),
{
    if has_texture {
        proof {
            lemma_mul_bound(u as int, value.z as int, 65536, 65536);
            lemma_mul_bound(v as int, value.w as int, 65536, 65536);
            assert((u as int) * (value.z as int) >= 0 && (u as int) * (value.z as int) <= 65536
                * (value.z as int)) by (nonlinear_arith)
                requires
                    0 <= u <= 65536,
                    0 <= value.z,
            ;
            assert((v as int) * (value.w as int) >= 0 && (v as int) * (value.w as int) <= 65536
                * (value.w as int)) by (nonlinear_arith)
                requires
                    0 <= v <= 65536,
                    0 <= value.w,
            ;
            assert(0 <= ((u as int) * (value.z as int)) / 65536 <= value.z as int)
                by (nonlinear_arith)
                requires
                    0 <= u <= 65536,
                    0 <= value.z,
                    (u as int) * (value.z as int) <= 65536 * (value.z as int),
                    (u as int) * (value.z as int) >= 0,
            ;
            assert(0 <= ((v as int) * (value.w as int)) / 65536 <= value.w as int)
                by (nonlinear_arith)
                requires
                    0 <= v <= 65536,
                    0 <= value.w,
                    (v as int) * (value.w as int) <= 65536 * (value.w as int),
                    (v as int) * (value.w as int) >= 0,
            ;
        }
        let su = value.x + (u * value.z) / 65536;
        let sv = value.y + (v * value.w) / 65536;
        sample_atlas(texels, width, height, su, sv)
    } else {
        value
    }
}

/// Remap a texture-encoded normal lane from `[0, 1]` to `[-1, 1]`.
pub fn remap_normal(c: i64) -> (r: i64)
    requires
        0 <= c <= FX_ONE,
    ensures
        r == 2 * c - FX_ONE,
        -FX_ONE <= r <= FX_ONE,
{
    2 * c - FX_ONE
}

/// Sign-preserving fixed-point quotient by one, rounding toward zero.
pub open spec fn fx_div_trunc(n: int) -> int {
    if n >= 0 {
        n / (FX_ONE as int)
    } else {
        -((-n) / (FX_ONE as int))
    }
}

fn fx_mul_signed(a: i64, b: i64) -> (r: i64)
    requires
        -2147483648 <= a <= 2147483648,
        -2147483648 <= b <= 2147483648,
    ensures
        r == fx_mul_trunc(a as int, b as int),
        -70368744177664 <= r <= 70368744177664,
{
    proof {
        lemma_mul_bound(a as int, b as int, 2147483648, 2147483648);
        assert((a as int) * (b as int) >= 0 ==> ((a as int) * (b as int)) / 65536 <= 2147483648
            * 2147483648) by (nonlinear_arith)
            requires
                -(2147483648 * 2147483648) <= (a as int) * (b as int) <= 2147483648 * 2147483648,
        ;
        assert((a as int) * (b as int) < 0 ==> (-((a as int) * (b as int))) / 65536 <= 2147483648
            * 2147483648) by (nonlinear_arith)
            requires
                -(2147483648 * 2147483648) <= (a as int) * (b as int) <= 2147483648 * 2147483648,
        ;
    }
    let p: i128 = (a as i128) * (b as i128);
    let q: i128 = if p >= 0 {
        p / 65536
    } else {
        -((-p) / 65536)
    };
    proof {
        assert(-70368744177664 <= q <= 70368744177664) by (nonlinear_arith)
            requires
                -(2147483648 * 2147483648) <= p <= 2147483648 * 2147483648,
                q == (if p >= 0 {
                    (p as int) / 65536
                } else {
                    -((-(p as int)) / 65536)
                }),
        ;
    }
    q as i64
}

/// A sampled tangent-space normal taken to world space through the frame
/// `(tangent, bitangent, normal)`: each world lane is the truncated
/// fixed-point combination of the three frame vectors.
pub fn tbn_apply(tangent: &Vec3i, bitangent: &Vec3i, normal: &Vec3i, s: &Vec3i) -> (r: Vec3i)
    requires
        tangent.bounded(),
        bitangent.bounded(),
        normal.bounded(),
        s.bounded(),
    ensures
        r.x == fx_mul_trunc(tangent.x as int, s.x as int) + fx_mul_trunc(
            bitangent.x as int,
            s.y as int,
        ) + fx_mul_trunc(normal.x as int, s.z as int),
        r.y == fx_mul_trunc(tangent.y as int, s.x as int) + fx_mul_trunc(
            bitangent.y as int,
            s.y as int,
        ) + fx_mul_trunc(normal.y as int, s.z as int),
        r.z == fx_mul_trunc(tangent.z as int, s.x as int) + fx_mul_trunc(
            bitangent.z as int,
            s.y as int,
        ) + fx_mul_trunc(normal.z as int, s.z as int),
{
    let rx = fx_mul_signed(tangent.x, s.x) + fx_mul_signed(bitangent.x, s.y) + fx_mul_signed(
        normal.x,
        s.z,
    );
    let ry = fx_mul_signed(tangent.y, s.x) + fx_mul_signed(bitangent.y, s.y) + fx_mul_signed(
        normal.y,
        s.z,
    );
    let rz = fx_mul_signed(tangent.z, s.x) + fx_mul_signed(bitangent.z, s.y) + fx_mul_signed(
        normal.z,
        s.z,
    );
    Vec3i { x: rx, y: ry, z: rz }
}

/// The bitangent of a tangent frame: the cross product of two unit-scale
/// fixed-point vectors, brought back to unit scale by a truncated quotient.
pub fn bitangent(tangent: &Vec3i, normal: &Vec3i) -> (r: Vec3i)
    requires
        tangent.bounded(),
        normal.bounded(),
    ensures
        r.x == fx_div_trunc(
            (tangent.y as int) * (normal.z as int) - (tangent.z as int) * (normal.y as int),
        ),
        r.y == fx_div_trunc(
            (tangent.z as int) * (normal.x as int) - (tangent.x as int) * (normal.z as int),
        ),
        r.z == fx_div_trunc(
            (tangent.x as int) * (normal.y as int) - (tangent.y as int) * (normal.x as int),
        ),
{
    let rx = cross_lane(tangent.y, normal.z, tangent.z, normal.y);
    let ry = cross_lane(tangent.z, normal.x, tangent.x, normal.z);
    let rz = cross_lane(tangent.x, normal.y, tangent.y, normal.x);
    Vec3i { x: rx, y: ry, z: rz }
}

fn cross_lane(p: i64, q: i64, m: i64, n: i64) -> (r: i64)
    requires
        -262144 <= p <= 262144,
        -262144 <= q <= 262144,
        -262144 <= m <= 262144,
        -262144 <= n <= 262144,
    ensures
        r == fx_div_trunc((p as int) * (q as int) - (m as int) * (n as int)),
{
    proof {
        lemma_mul_bound(p as int, q as int, 262144, 262144);
        lemma_mul_bound(m as int, n as int, 262144, 262144);
    }
    let d: i128 = (p as i128) * (q as i128) - (m as i128) * (n as i128);
    let q2: i128 = if d >= 0 {
        d / 65536
    } else {
        -((-d) / 65536)
    };
    q2 as i64
}

} // verus!
