//! Exact ray/triangle intersection (Moller-Trumbore).
//!
//! All quantities are exact integers; the hit distance along the ray is the
//! rational `t_num / t_den` with positive denominator.  A degenerate system
//! (determinant zero) is a miss.  The back-face flag is the sign of the
//! determinant, as in single-sided rendering.

use vstd::prelude::*;
use crate::vec3::{
    Vec3i, V3, v_dot, v_cross, v_sub, v_add, v_scale, v_in_box, lemma_cramer, lemma_mul_bound,
};

verus! {

/// Magnitude bound on hit-distance numerators and denominators that follows
/// from the coordinate bound (48 * COORD_BOUND^3).
pub const T_BOUND: i64 = 864691128455135232;

/// A ray: origin and direction in scene units.  The direction need not be
/// normalized; hit distances are rationals in units of the direction length.
#[derive(Clone, Copy, PartialEq, Eq, Structural, Debug)]
pub struct Ray {
    pub origin: Vec3i,
    pub dir: Vec3i,
}

impl Ray {
    /// Origin and direction are within scene bounds and the direction is
    /// nonzero.
    pub open spec fn wf(self) -> bool {
        &&& self.origin.bounded()
        &&& self.dir.bounded()
        &&& !(self.dir.x == 0 && self.dir.y == 0 && self.dir.z == 0)
    }
}

/// Determinant of the Moller-Trumbore system.
pub open spec fn mt_det(ro: V3, rd: V3, a: V3, b: V3, c: V3) -> int {
    v_dot(v_sub(b, a), v_cross(rd, v_sub(c, a)))
}

/// Numerator of the first barycentric coordinate (times the determinant sign).
pub open spec fn mt_un(ro: V3, rd: V3, a: V3, b: V3, c: V3) -> int {
    v_dot(v_sub(ro, a), v_cross(rd, v_sub(c, a)))
}

/// Numerator of the second barycentric coordinate.
pub open spec fn mt_vn(ro: V3, rd: V3, a: V3, b: V3, c: V3) -> int {
    v_dot(rd, v_cross(v_sub(ro, a), v_sub(b, a)))
}

/// Numerator of the hit distance.
pub open spec fn mt_tn(ro: V3, rd: V3, a: V3, b: V3, c: V3) -> int {
    v_dot(v_sub(c, a), v_cross(v_sub(ro, a), v_sub(b, a)))
}

/// The sign used to normalize the system to a positive denominator.
pub open spec fn mt_sign(ro: V3, rd: V3, a: V3, b: V3, c: V3) -> int {
    if mt_det(ro, rd, a, b, c) > 0 {
        1
    } else {
        -1
    }
}

/// Whether the ray meets the triangle at a parameter `t >= 0`:
/// the system is nondegenerate, the barycentric coordinates are nonnegative
/// and sum to at most one, and the hit lies forward of the origin.
pub open spec fn tri_hits(ro: V3, rd: V3, a: V3, b: V3, c: V3) -> bool {
    let det = mt_det(ro, rd, a, b, c);
    let sg = mt_sign(ro, rd, a, b, c);
    &&& det != 0
    &&& sg * mt_un(ro, rd, a, b, c) >= 0
    &&& sg * mt_vn(ro, rd, a, b, c) >= 0
    &&& sg * mt_un(ro, rd, a, b, c) + sg * mt_vn(ro, rd, a, b, c) <= sg * det
    &&& sg * mt_tn(ro, rd, a, b, c) >= 0
}

/// Hit distance numerator, normalized to a positive denominator.
pub open spec fn hit_t_num(ro: V3, rd: V3, a: V3, b: V3, c: V3) -> int {
    mt_sign(ro, rd, a, b, c) * mt_tn(ro, rd, a, b, c)
}

/// First barycentric numerator, normalized like the distance.
pub open spec fn hit_u_num(ro: V3, rd: V3, a: V3, b: V3, c: V3) -> int {
    mt_sign(ro, rd, a, b, c) * mt_un(ro, rd, a, b, c)
}

/// Second barycentric numerator.
pub open spec fn hit_v_num(ro: V3, rd: V3, a: V3, b: V3, c: V3) -> int {
    mt_sign(ro, rd, a, b, c) * mt_vn(ro, rd, a, b, c)
}

/// Hit distance denominator, positive whenever the system is nondegenerate.
pub open spec fn hit_t_den(ro: V3, rd: V3, a: V3, b: V3, c: V3) -> int {
    mt_sign(ro, rd, a, b, c) * mt_det(ro, rd, a, b, c)
}

/// Whether the triangle is met from behind (negative determinant).
pub open spec fn hit_backface(ro: V3, rd: V3, a: V3, b: V3, c: V3) -> bool {
    mt_det(ro, rd, a, b, c) < 0
}

/// An accepted ray/triangle hit: exact distance `t_num / t_den`, the exact
/// barycentric numerators over the same denominator (for interpolating
/// shading attributes at the hit), and the back-face flag.
#[derive(Clone, Copy, PartialEq, Eq, Structural, Debug)]
pub struct TriHit {
    pub t_num: i64,
    pub t_den: i64,
    pub u_num: i64,
    pub v_num: i64,
    pub backface: bool,
}

pub(crate) fn sub_vec(a: &Vec3i, b: &Vec3i) -> (r: Vec3i)
    requires
        a.bounded(),
        b.bounded(),
    ensures
        r@ == v_sub(a@, b@),
        -524288 <= r.x <= 524288,
        -524288 <= r.y <= 524288,
        -524288 <= r.z <= 524288,
{
    Vec3i { x: a.x - b.x, y: a.y - b.y, z: a.z - b.z }
}

pub(crate) fn cross_vec(a: &Vec3i, b: &Vec3i) -> (r: Vec3i)
    requires
        -524288 <= a.x <= 524288,
        -524288 <= a.y <= 524288,
        -524288 <= a.z <= 524288,
        -524288 <= b.x <= 524288,
        -524288 <= b.y <= 524288,
        -524288 <= b.z <= 524288,
    ensures
        r@ == v_cross(a@, b@),
        -549755813888 <= r.x <= 549755813888,
        -549755813888 <= r.y <= 549755813888,
        -549755813888 <= r.z <= 549755813888,
{
    proof {
        lemma_mul_bound(a.y as int, b.z as int, 524288, 524288);
        lemma_mul_bound(a.z as int, b.y as int, 524288, 524288);
        lemma_mul_bound(a.z as int, b.x as int, 524288, 524288);
        lemma_mul_bound(a.x as int, b.z as int, 524288, 524288);
        lemma_mul_bound(a.x as int, b.y as int, 524288, 524288);
        lemma_mul_bound(a.y as int, b.x as int, 524288, 524288);
    }
    Vec3i {
        x: a.y * b.z - a.z * b.y,
        y: a.z * b.x - a.x * b.z,
        z: a.x * b.y - a.y * b.x,
    }
}

pub(crate) fn dot_vec(a: &Vec3i, b: &Vec3i) -> (r: i64)
    requires
        -524288 <= a.x <= 524288,
        -524288 <= a.y <= 524288,
        -524288 <= a.z <= 524288,
        -549755813888 <= b.x <= 549755813888,
        -549755813888 <= b.y <= 549755813888,
        -549755813888 <= b.z <= 549755813888,
    ensures
        r == v_dot(a@, b@),
        -T_BOUND <= r <= T_BOUND,
{
    proof {
        lemma_mul_bound(a.x as int, b.x as int, 524288, 549755813888);
        lemma_mul_bound(a.y as int, b.y as int, 524288, 549755813888);
        lemma_mul_bound(a.z as int, b.z as int, 524288, 549755813888);
    }
    a.x * b.x + a.y * b.y + a.z * b.z
}

/// Exact Moller-Trumbore intersection.  Returns the hit with its exact
/// rational distance, or `None` exactly when the ray misses (or grazes a
/// degenerate system).
#[verifier::rlimit(80)]
pub fn intersect_triangle(ray: &Ray, a: &Vec3i, b: &Vec3i, c: &Vec3i) -> (r: Option<TriHit>)
    requires
        ray.wf(),
        a.bounded(),
        b.bounded(),
        c.bounded(),
    ensures
        match r {
            Some(h) => {
                &&& tri_hits(ray.origin@, ray.dir@, a@, b@, c@)
                &&& h.t_num == hit_t_num(ray.origin@, ray.dir@, a@, b@, c@)
                &&& h.t_den == hit_t_den(ray.origin@, ray.dir@, a@, b@, c@)
                &&& h.u_num == hit_u_num(ray.origin@, ray.dir@, a@, b@, c@)
                &&& h.v_num == hit_v_num(ray.origin@, ray.dir@, a@, b@, c@)
                &&& 0 <= h.t_num <= T_BOUND
                &&& 0 < h.t_den <= T_BOUND
                &&& 0 <= h.u_num && 0 <= h.v_num && h.u_num + h.v_num <= h.t_den
                &&& h.backface == hit_backface(ray.origin@, ray.dir@, a@, b@, c@)
            },
            None => !tri_hits(ray.origin@, ray.dir@, a@, b@, c@),
        },
{
    let e1 = sub_vec(b, a);
    let e2 = sub_vec(c, a);
    let sv = sub_vec(&ray.origin, a);
    let pv = cross_vec(&ray.dir, &e2);
    let qv = cross_vec(&sv, &e1);
    let det = dot_vec(&e1, &pv);
    let un = dot_vec(&sv, &pv);
    let vn = dot_vec(&ray.dir, &qv);
    let tn = dot_vec(&e2, &qv);

    proof {
        assert(det == mt_det(ray.origin@, ray.dir@, a@, b@, c@));
        assert(un == mt_un(ray.origin@, ray.dir@, a@, b@, c@));
        assert(vn == mt_vn(ray.origin@, ray.dir@, a@, b@, c@));
        assert(tn == mt_tn(ray.origin@, ray.dir@, a@, b@, c@));
    }
    if det == 0 {
        proof {
            assert(!tri_hits(ray.origin@, ray.dir@, a@, b@, c@));
        }
        return None;
    }
    let backface = det < 0;
    let (u, v, t, d) = if det > 0 {
        (un, vn, tn, det)
    } else {
        (-un, -vn, -tn, -det)
    };
    proof {
        let sg = mt_sign(ray.origin@, ray.dir@, a@, b@, c@);
        if det > 0 {
            assert(sg == 1);
        } else {
            assert(sg == -1);
        }
        assert(u as int == sg * mt_un(ray.origin@, ray.dir@, a@, b@, c@));
        assert(v as int == sg * mt_vn(ray.origin@, ray.dir@, a@, b@, c@));
        assert(t as int == sg * mt_tn(ray.origin@, ray.dir@, a@, b@, c@));
        assert(d as int == sg * mt_det(ray.origin@, ray.dir@, a@, b@, c@));
    }
    if u < 0 || v < 0 || u + v > d || t < 0 {
        proof {
            assert(!tri_hits(ray.origin@, ray.dir@, a@, b@, c@));
        }
        return None;
    }
    proof {
        assert(tri_hits(ray.origin@, ray.dir@, a@, b@, c@));
        assert(t == hit_t_num(ray.origin@, ray.dir@, a@, b@, c@));
        assert(d == hit_t_den(ray.origin@, ray.dir@, a@, b@, c@));
        assert(u == hit_u_num(ray.origin@, ray.dir@, a@, b@, c@));
        assert(v == hit_v_num(ray.origin@, ray.dir@, a@, b@, c@));
        assert(backface == hit_backface(ray.origin@, ray.dir@, a@, b@, c@));
    }
    Some(TriHit { t_num: t, t_den: d, u_num: u, v_num: v, backface })
}

/// A hit's normalized denominator is positive.
pub proof fn lemma_hit_den_pos(ro: V3, rd: V3, a: V3, b: V3, c: V3)
    requires
        tri_hits(ro, rd, a, b, c),
    ensures
        hit_t_den(ro, rd, a, b, c) > 0,
        hit_t_num(ro, rd, a, b, c) >= 0,
{
    if mt_det(ro, rd, a, b, c) > 0 {
        assert(hit_t_den(ro, rd, a, b, c) == mt_det(ro, rd, a, b, c));
    } else {
        assert(hit_t_den(ro, rd, a, b, c) == -mt_det(ro, rd, a, b, c));
    }
}

/// If the ray hits the triangle and all three vertices lie in a box, then the
/// hit point lies in the box: componentwise, scaling by the (positive) hit
/// denominator, `den*lo <= den*origin + num*dir <= den*hi`.  This is what
/// makes a bounding-box test conservative.
pub proof fn lemma_hit_point_in_box(ro: V3, rd: V3, a: V3, b: V3, c: V3, lo: V3, hi: V3)
    requires
        tri_hits(ro, rd, a, b, c),
        v_in_box(a, lo, hi),
        v_in_box(b, lo, hi),
        v_in_box(c, lo, hi),
    ensures
        v_in_box(
            v_add(
                v_scale(hit_t_den(ro, rd, a, b, c), ro),
                v_scale(hit_t_num(ro, rd, a, b, c), rd),
            ),
            v_scale(hit_t_den(ro, rd, a, b, c), lo),
            v_scale(hit_t_den(ro, rd, a, b, c), hi),
        ),
{
    let det = mt_det(ro, rd, a, b, c);
    let un = mt_un(ro, rd, a, b, c);
    let vn = mt_vn(ro, rd, a, b, c);
    let tn = mt_tn(ro, rd, a, b, c);
    lemma_cramer(v_sub(ro, a), rd, v_sub(b, a), v_sub(c, a));
    if det > 0 {
        lemma_hit_axis(det, un, vn, tn, ro.x, a.x, b.x, c.x, rd.x, lo.x, hi.x);
        lemma_hit_axis(det, un, vn, tn, ro.y, a.y, b.y, c.y, rd.y, lo.y, hi.y);
        lemma_hit_axis(det, un, vn, tn, ro.z, a.z, b.z, c.z, rd.z, lo.z, hi.z);
    } else {
        lemma_neg_axis(det, un, vn, tn, ro.x, a.x, b.x, c.x, rd.x);
        lemma_neg_axis(det, un, vn, tn, ro.y, a.y, b.y, c.y, rd.y);
        lemma_neg_axis(det, un, vn, tn, ro.z, a.z, b.z, c.z, rd.z);
        lemma_hit_axis(-det, -un, -vn, -tn, ro.x, a.x, b.x, c.x, rd.x, lo.x, hi.x);
        lemma_hit_axis(-det, -un, -vn, -tn, ro.y, a.y, b.y, c.y, rd.y, lo.y, hi.y);
        lemma_hit_axis(-det, -un, -vn, -tn, ro.z, a.z, b.z, c.z, rd.z, lo.z, hi.z);
    }
}

/// One axis of the containment argument: from the Cramer identity and the
/// barycentric sign conditions, the hit point coordinate stays between the
/// scaled box walls.
proof fn lemma_hit_axis(
    dd: int,
    uu: int,
    vv: int,
    tt: int,
    o: int,
    pa: int,
    pb: int,
    pc: int,
    rd: int,
    lo: int,
    hi: int,
) by (nonlinear_arith)
    requires
        dd > 0,
        uu >= 0,
        vv >= 0,
        uu + vv <= dd,
        dd * (o - pa) == uu * (pb - pa) + vv * (pc - pa) - tt * rd,
        lo <= pa <= hi,
        lo <= pb <= hi,
        lo <= pc <= hi,
    ensures
        dd * lo <= dd * o + tt * rd <= dd * hi,
{
}

/// Negating the Cramer identity on one axis.
proof fn lemma_neg_axis(dd: int, uu: int, vv: int, tt: int, o: int, pa: int, pb: int, pc: int, rd: int)
    by (nonlinear_arith)
    requires
        dd * (o - pa) == uu * (pb - pa) + vv * (pc - pa) - tt * rd,
    ensures
        (-dd) * (o - pa) == (-uu) * (pb - pa) + (-vv) * (pc - pa) - (-tt) * rd,
{
}

} // verus!
