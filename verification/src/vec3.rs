//! Exact integer 3-vectors.
//!
//! Vertex coordinates and ray data are fixed-point integers bounded by
//! `COORD_BOUND`; all products taken by the intersection routines then fit
//! comfortably in `i128`.  Specification-level vectors carry unbounded `int`
//! components so that contracts are stated over exact mathematical values.

use vstd::prelude::*;

verus! {

/// Bound on every coordinate a scene may carry (2^18 fixed-point units).
pub const COORD_BOUND: i64 = 262144;

/// An exact integer 3-vector as stored in scenes and rays.
#[derive(Clone, Copy, PartialEq, Eq, Structural, Debug)]
pub struct Vec3i {
    pub x: i64,
    pub y: i64,
    pub z: i64,
}

/// Specification-level vector with unbounded components.
pub ghost struct V3 {
    pub x: int,
    pub y: int,
    pub z: int,
}

impl Vec3i {
    /// The mathematical value of this vector.
    pub open spec fn view(self) -> V3 {
        V3 { x: self.x as int, y: self.y as int, z: self.z as int }
    }

    /// All three coordinates lie within the scene bound.
    pub open spec fn bounded(self) -> bool {
        &&& -COORD_BOUND <= self.x <= COORD_BOUND
        &&& -COORD_BOUND <= self.y <= COORD_BOUND
        &&& -COORD_BOUND <= self.z <= COORD_BOUND
    }

    pub fn new(x: i64, y: i64, z: i64) -> (r: Vec3i)
        ensures
            r == (Vec3i { x, y, z }),
    {
        Vec3i { x, y, z }
    }
}

pub open spec fn v_sub(a: V3, b: V3) -> V3 {
    V3 { x: a.x - b.x, y: a.y - b.y, z: a.z - b.z }
}

pub open spec fn v_add(a: V3, b: V3) -> V3 {
    V3 { x: a.x + b.x, y: a.y + b.y, z: a.z + b.z }
}

pub open spec fn v_scale(k: int, a: V3) -> V3 {
    V3 { x: k * a.x, y: k * a.y, z: k * a.z }
}

pub open spec fn v_dot(a: V3, b: V3) -> int {
    a.x * b.x + a.y * b.y + a.z * b.z
}

pub open spec fn v_cross(a: V3, b: V3) -> V3 {
    V3 {
        x: a.y * b.z - a.z * b.y,
        y: a.z * b.x - a.x * b.z,
        z: a.x * b.y - a.y * b.x,
    }
}

/// Componentwise interval membership: `lo <= p <= hi`.
pub open spec fn v_in_box(p: V3, lo: V3, hi: V3) -> bool {
    &&& lo.x <= p.x <= hi.x
    &&& lo.y <= p.y <= hi.y
    &&& lo.z <= p.z <= hi.z
}

/// Cramer's rule for the Moller-Trumbore system: with `det = e1 . (d x e2)`,
/// `un = s . (d x e2)`, `vn = d . (s x e1)` and `tn = e2 . (s x e1)`, the
/// vector `det * s` equals `un * e1 + vn * e2 - tn * d`.  This ties the
/// barycentric solution of the intersection system back to the ray equation.
pub proof fn lemma_cramer(s: V3, d: V3, e1: V3, e2: V3)
    ensures
        v_scale(v_dot(e1, v_cross(d, e2)), s) == v_sub(
            v_add(
                v_scale(v_dot(s, v_cross(d, e2)), e1),
                v_scale(v_dot(d, v_cross(s, e1)), e2),
            ),
            v_scale(v_dot(e2, v_cross(s, e1)), d),
        ),
{
    lemma_cramer_axis(
        s.x, s.y, s.z, e1.x, e1.y, e1.z, e2.x, e2.y, e2.z, d.x, d.y, d.z,
    );
    lemma_cramer_axis(
        s.y, s.z, s.x, e1.y, e1.z, e1.x, e2.y, e2.z, e2.x, d.y, d.z, d.x,
    );
    lemma_cramer_axis(
        s.z, s.x, s.y, e1.z, e1.x, e1.y, e2.z, e2.x, e2.y, d.z, d.x, d.y,
    );
}

/// One component of the Cramer identity; the other components follow by
/// cyclically permuting the coordinate names.
proof fn lemma_cramer_axis(
    sx: int,
    sy: int,
    sz: int,
    ax: int,
    ay: int,
    az: int,
    bx: int,
    by: int,
    bz: int,
    dx: int,
    dy: int,
    dz: int,
)
    ensures
        (ax * (dy * bz - dz * by) + ay * (dz * bx - dx * bz) + az * (dx * by - dy * bx)) * sx
            == (sx * (dy * bz - dz * by) + sy * (dz * bx - dx * bz) + sz * (dx * by - dy * bx)) * ax
            + (dx * (sy * az - sz * ay) + dy * (sz * ax - sx * az) + dz * (sx * ay - sy * ax)) * bx
            - (bx * (sy * az - sz * ay) + by * (sz * ax - sx * az) + bz * (sx * ay - sy * ax)) * dx,
{
    lemma_dist3(
        ax * (dy * bz - dz * by),
        ay * (dz * bx - dx * bz),
        az * (dx * by - dy * bx),
        sx,
    );
    lemma_expand(ax, dy * bz, dz * by, sx);
    lemma_expand(ay, dz * bx, dx * bz, sx);
    lemma_expand(az, dx * by, dy * bx, sx);
    assert((ax * (dy * bz - dz * by) + ay * (dz * bx - dx * bz) + az * (dx * by - dy * bx)) * sx
        == sx * (ax * (dy * bz)) - sx * (ax * (dz * by)) + sx * (ay * (dz * bx)) - sx * (ay * (dx
        * bz)) + sx * (az * (dx * by)) - sx * (az * (dy * bx)));

    lemma_dist3(
        sx * (dy * bz - dz * by),
        sy * (dz * bx - dx * bz),
        sz * (dx * by - dy * bx),
        ax,
    );
    lemma_expand(sx, dy * bz, dz * by, ax);
    lemma_swap(ax, sx, dy * bz);
    lemma_swap(ax, sx, dz * by);
    lemma_expand(sy, dz * bx, dx * bz, ax);
    lemma_swap(ax, sy, dz * bx);
    lemma_swap(ax, sy, dx * bz);
    lemma_expand(sz, dx * by, dy * bx, ax);
    lemma_swap(ax, sz, dx * by);
    lemma_swap(ax, sz, dy * bx);
    assert((sx * (dy * bz - dz * by) + sy * (dz * bx - dx * bz) + sz * (dx * by - dy * bx)) * ax
        == sx * (ax * (dy * bz)) - sx * (ax * (dz * by)) + sy * (ax * (dz * bx)) - sy * (ax * (dx
        * bz)) + sz * (ax * (dx * by)) - sz * (ax * (dy * bx)));

    lemma_dist3(
        dx * (sy * az - sz * ay),
        dy * (sz * ax - sx * az),
        dz * (sx * ay - sy * ax),
        bx,
    );
    lemma_expand(dx, sy * az, sz * ay, bx);
    lemma_rot2(bx, dx, sy, az);
    lemma_rot2(bx, dx, sz, ay);
    lemma_expand(dy, sz * ax, sx * az, bx);
    lemma_rot2(bx, dy, sz, ax);
    lemma_rot2(bx, dy, sx, az);
    lemma_expand(dz, sx * ay, sy * ax, bx);
    lemma_rot2(bx, dz, sx, ay);
    lemma_rot2(bx, dz, sy, ax);
    assert((dx * (sy * az - sz * ay) + dy * (sz * ax - sx * az) + dz * (sx * ay - sy * ax)) * bx
        == sy * (az * (dx * bx)) - sz * (ay * (dx * bx)) + sz * (ax * (dy * bx)) - sx * (az * (dy
        * bx)) + sx * (ay * (dz * bx)) - sy * (ax * (dz * bx)));

    lemma_dist3(
        bx * (sy * az - sz * ay),
        by * (sz * ax - sx * az),
        bz * (sx * ay - sy * ax),
        dx,
    );
    lemma_expand(bx, sy * az, sz * ay, dx);
    lemma_rot(dx, bx, sy, az);
    lemma_rot(dx, bx, sz, ay);
    lemma_expand(by, sz * ax, sx * az, dx);
    lemma_rot(dx, by, sz, ax);
    lemma_rot(dx, by, sx, az);
    lemma_expand(bz, sx * ay, sy * ax, dx);
    lemma_rot(dx, bz, sx, ay);
    lemma_rot(dx, bz, sy, ax);
    assert((bx * (sy * az - sz * ay) + by * (sz * ax - sx * az) + bz * (sx * ay - sy * ax)) * dx
        == sy * (az * (dx * bx)) - sz * (ay * (dx * bx)) + sz * (ax * (dx * by)) - sx * (az * (dx
        * by)) + sx * (ay * (dx * bz)) - sy * (ax * (dx * bz)));
}

proof fn lemma_dist3(p: int, q: int, r: int, w: int) by (nonlinear_arith)
    ensures
        (p + q + r) * w == p * w + q * w + r * w,
{
}

proof fn lemma_expand(c: int, p: int, q: int, w: int) by (nonlinear_arith)
    ensures
        (c * (p - q)) * w == w * (c * p) - w * (c * q),
{
}

proof fn lemma_swap(a: int, b: int, m: int) by (nonlinear_arith)
    ensures
        a * (b * m) == b * (a * m),
{
}

proof fn lemma_rot(a: int, b: int, c: int, d: int) by (nonlinear_arith)
    ensures
        a * (b * (c * d)) == c * (d * (a * b)),
{
}

proof fn lemma_rot2(a: int, b: int, c: int, d: int) by (nonlinear_arith)
    ensures
        a * (b * (c * d)) == c * (d * (b * a)),
{
}

/// Magnitude bound for a product, used to discharge overflow conditions.
pub proof fn lemma_mul_bound(a: int, b: int, ab: int, bb: int) by (nonlinear_arith)
    requires
        -ab <= a <= ab,
        -bb <= b <= bb,
        0 <= ab,
        0 <= bb,
    ensures
        -(ab * bb) <= a * b <= ab * bb,
{
}

} // verus!
