//! Exact ray/box slab test.
//!
//! The test reports an entry distance used to order child visits, and its
//! rejection is conservative: a rejected box provably contains no ray point
//! whose distance lies in the open query range.  Rays with zero direction
//! components are handled by treating the degenerate axis as an interval
//! constraint on the origin alone.

use vstd::prelude::*;
use crate::vec3::{Vec3i, V3, v_in_box};
use crate::tri::Ray;
use crate::ratio::{
    Rat, rat_le_s, rat_lt_s, rat_le, rat_lt, lemma_rat_le_trans, lemma_mul_le_cancel,
};

verus! {

/// An axis-aligned box in scene units.
#[derive(Clone, Copy, PartialEq, Eq, Structural, Debug)]
pub struct Aabb {
    pub lo: Vec3i,
    pub hi: Vec3i,
}

impl Aabb {
    pub open spec fn wf(self) -> bool {
        &&& self.lo.bounded()
        &&& self.hi.bounded()
    }

    /// The box contains the (unscaled) point `p`.
    pub open spec fn contains(self, p: V3) -> bool {
        v_in_box(p, self.lo@, self.hi@)
    }
}

/// The rational `n/dn` lies within the slab of one axis: scaling the walls by
/// the positive denominator, `dn*lo <= dn*o + n*d <= dn*hi`.
pub open spec fn axis_mem(n: int, dn: int, o: int, d: int, lo: int, hi: int) -> bool {
    &&& dn * lo <= dn * o + n * d
    &&& dn * o + n * d <= dn * hi
}

/// The ray point at rational parameter `n/dn` lies inside the box.
pub open spec fn rat_point_in_box(n: int, dn: int, ro: V3, rd: V3, bx: Aabb) -> bool {
    &&& axis_mem(n, dn, ro.x, rd.x, bx.lo.x as int, bx.hi.x as int)
    &&& axis_mem(n, dn, ro.y, rd.y, bx.lo.y as int, bx.hi.y as int)
    &&& axis_mem(n, dn, ro.z, rd.z, bx.lo.z as int, bx.hi.z as int)
}

/// Outcome of one axis of the slab test.
#[derive(Clone, Copy)]
enum AxisSlab {
    /// The axis is degenerate and the origin lies outside its walls.
    Miss,
    /// The axis is degenerate and imposes no constraint on the distance.
    Free,
    /// Crossing distances of the two walls, in increasing order.
    Span(Rat, Rat),
}

proof fn lemma_axis_span_pos(n: int, dn: int, o: int, d: int, lo: int, hi: int)
    by (nonlinear_arith)
    requires
        dn > 0,
        d > 0,
        axis_mem(n, dn, o, d, lo, hi),
    ensures
        rat_le_s(lo - o, d, n, dn),
        rat_le_s(n, dn, hi - o, d),
{
}

proof fn lemma_axis_span_neg(n: int, dn: int, o: int, d: int, lo: int, hi: int)
    by (nonlinear_arith)
    requires
        dn > 0,
        d < 0,
        axis_mem(n, dn, o, d, lo, hi),
    ensures
        rat_le_s(o - hi, -d, n, dn),
        rat_le_s(n, dn, o - lo, -d),
{
}

fn axis_slab(lo: i64, hi: i64, o: i64, d: i64) -> (r: AxisSlab)
    requires
        -262144 <= lo <= 262144,
        -262144 <= hi <= 262144,
        -262144 <= o <= 262144,
        -262144 <= d <= 262144,
    ensures
        r is Miss ==> d == 0 && (o < lo || o > hi),
        r is Free ==> d == 0,
        r matches AxisSlab::Span(a, b) ==> {
            &&& a.wf()
            &&& b.wf()
            &&& d != 0
            &&& forall|n: int, dn: int|
                dn > 0 && #[trigger] axis_mem(n, dn, o as int, d as int, lo as int, hi as int)
                    ==> rat_le_s(a.num as int, a.den as int, n, dn) && rat_le_s(
                        n,
                        dn,
                        b.num as int,
                        b.den as int,
                    )
        },
{
    if d == 0 {
        if o < lo || o > hi {
            AxisSlab::Miss
        } else {
            AxisSlab::Free
        }
    } else if d > 0 {
        let a = Rat::new(lo - o, d);
        let b = Rat::new(hi - o, d);
        proof {
            assert forall|n: int, dn: int|
                dn > 0 && #[trigger] axis_mem(n, dn, o as int, d as int, lo as int, hi as int)
                    implies rat_le_s(a.num as int, a.den as int, n, dn) && rat_le_s(
                    n,
                    dn,
                    b.num as int,
                    b.den as int,
                ) by {
                lemma_axis_span_pos(n, dn, o as int, d as int, lo as int, hi as int);
            }
        }
        AxisSlab::Span(a, b)
    } else {
        let a = Rat::new(o - hi, -d);
        let b = Rat::new(o - lo, -d);
        proof {
            assert forall|n: int, dn: int|
                dn > 0 && #[trigger] axis_mem(n, dn, o as int, d as int, lo as int, hi as int)
                    implies rat_le_s(a.num as int, a.den as int, n, dn) && rat_le_s(
                    n,
                    dn,
                    b.num as int,
                    b.den as int,
                ) by {
                lemma_axis_span_neg(n, dn, o as int, d as int, lo as int, hi as int);
            }
        }
        AxisSlab::Span(a, b)
    }
}

/// Slab test against the open distance range `(t_min, best)` (unbounded above
/// when `best` is `None`).  Returns an entry distance used to order child
/// visits, or `None` when the box can be skipped; skipping is conservative:
/// no ray point with a distance in the range lies inside the box.
pub fn aabb_enter(bx: &Aabb, ray: &Ray, t_min: &Rat, best: Option<Rat>) -> (r: Option<Rat>)
    requires
        bx.wf(),
        ray.wf(),
        t_min.wf(),
        best matches Some(bb) ==> bb.wf(),
    ensures
        r matches Some(e) ==> e.wf(),
        r is None ==> forall|n: int, dn: int|
            !(dn > 0 && #[trigger] rat_point_in_box(n, dn, ray.origin@, ray.dir@, *bx)
                && rat_lt_s(t_min.num as int, t_min.den as int, n, dn)
                && (best matches Some(bb) ==> rat_lt_s(n, dn, bb.num as int, bb.den as int))),
        r matches Some(e) ==> forall|n: int, dn: int|
            (dn > 0 && #[trigger] rat_point_in_box(n, dn, ray.origin@, ray.dir@, *bx)
                && rat_lt_s(t_min.num as int, t_min.den as int, n, dn)
                && (best matches Some(bb) ==> rat_lt_s(n, dn, bb.num as int, bb.den as int)))
                ==> rat_le_s(e.num as int, e.den as int, n, dn),
{
    let ox = match axis_slab(bx.lo.x, bx.hi.x, ray.origin.x, ray.dir.x) {
        AxisSlab::Miss => {
            proof {
                assert forall|n: int, dn: int|
                    !(dn > 0 && #[trigger] rat_point_in_box(n, dn, ray.origin@, ray.dir@, *bx)
                        && rat_lt_s(t_min.num as int, t_min.den as int, n, dn)
                        && (best matches Some(bb) ==> rat_lt_s(n, dn, bb.num as int, bb.den as int))) by {
                    if dn > 0 && rat_point_in_box(n, dn, ray.origin@, ray.dir@, *bx) {
                        assert(n * (ray.dir.x as int) == 0) by (nonlinear_arith)
                            requires ray.dir.x as int == 0;
                        lemma_mul_le_cancel(dn, bx.lo.x as int, ray.origin.x as int);
                        lemma_mul_le_cancel(dn, ray.origin.x as int, bx.hi.x as int);
                    }
                }
            }
            return None;
        },
        AxisSlab::Free => None,
        AxisSlab::Span(a, b) => Some((a, b)),
    };
    let oy = match axis_slab(bx.lo.y, bx.hi.y, ray.origin.y, ray.dir.y) {
        AxisSlab::Miss => {
            proof {
                assert forall|n: int, dn: int|
                    !(dn > 0 && #[trigger] rat_point_in_box(n, dn, ray.origin@, ray.dir@, *bx)
                        && rat_lt_s(t_min.num as int, t_min.den as int, n, dn)
                        && (best matches Some(bb) ==> rat_lt_s(n, dn, bb.num as int, bb.den as int))) by {
                    if dn > 0 && rat_point_in_box(n, dn, ray.origin@, ray.dir@, *bx) {
                        assert(n * (ray.dir.y as int) == 0) by (nonlinear_arith)
                            requires ray.dir.y as int == 0;
                        lemma_mul_le_cancel(dn, bx.lo.y as int, ray.origin.y as int);
                        lemma_mul_le_cancel(dn, ray.origin.y as int, bx.hi.y as int);
                    }
                }
            }
            return None;
        },
        AxisSlab::Free => None,
        AxisSlab::Span(a, b) => Some((a, b)),
    };
    let oz = match axis_slab(bx.lo.z, bx.hi.z, ray.origin.z, ray.dir.z) {
        AxisSlab::Miss => {
            proof {
                assert forall|n: int, dn: int|
                    !(dn > 0 && #[trigger] rat_point_in_box(n, dn, ray.origin@, ray.dir@, *bx)
                        && rat_lt_s(t_min.num as int, t_min.den as int, n, dn)
                        && (best matches Some(bb) ==> rat_lt_s(n, dn, bb.num as int, bb.den as int))) by {
                    if dn > 0 && rat_point_in_box(n, dn, ray.origin@, ray.dir@, *bx) {
                        assert(n * (ray.dir.z as int) == 0) by (nonlinear_arith)
                            requires ray.dir.z as int == 0;
                        lemma_mul_le_cancel(dn, bx.lo.z as int, ray.origin.z as int);
                        lemma_mul_le_cancel(dn, ray.origin.z as int, bx.hi.z as int);
                    }
                }
            }
            return None;
        },
        AxisSlab::Free => None,
        AxisSlab::Span(a, b) => Some((a, b)),
    };

    let mut amin: Rat = Rat::new(0, 1);
    let mut amax: Rat = Rat::new(0, 1);
    let mut any: bool = false;
    if let Some((a, b)) = ox {
        amin = a;
        amax = b;
        any = true;
    }
    if let Some((a, b)) = oy {
        if !any {
            amin = a;
            amax = b;
            any = true;
        } else {
            if rat_lt(&amin, &a) {
                amin = a;
            }
            if rat_lt(&b, &amax) {
                amax = b;
            }
        }
    }
    if let Some((a, b)) = oz {
        if !any {
            amin = a;
            amax = b;
            any = true;
        } else {
            if rat_lt(&amin, &a) {
                amin = a;
            }
            if rat_lt(&b, &amax) {
                amax = b;
            }
        }
    }
    if !any {
        // the ray direction is nonzero, so some axis produced a span
        proof {
            assert(false);
        }
        return None;
    }

    // every admissible distance satisfies amin' <= t <= amax' for some spans;
    // the three prune tests below each contradict one side of the range
    if rat_lt(&amax, &amin) {
        proof {
            assert forall|n: int, dn: int|
                !(dn > 0 && #[trigger] rat_point_in_box(n, dn, ray.origin@, ray.dir@, *bx)
                    && rat_lt_s(t_min.num as int, t_min.den as int, n, dn)
                    && (best matches Some(bb) ==> rat_lt_s(n, dn, bb.num as int, bb.den as int))) by {
                if dn > 0 && rat_point_in_box(n, dn, ray.origin@, ray.dir@, *bx) {
                    lemma_rat_le_trans(
                        amin.num as int, amin.den as int, n, dn, amax.num as int, amax.den as int,
                    );
                }
            }
        }
        return None;
    }
    if rat_le(&amax, t_min) {
        proof {
            assert forall|n: int, dn: int|
                !(dn > 0 && #[trigger] rat_point_in_box(n, dn, ray.origin@, ray.dir@, *bx)
                    && rat_lt_s(t_min.num as int, t_min.den as int, n, dn)
                    && (best matches Some(bb) ==> rat_lt_s(n, dn, bb.num as int, bb.den as int))) by {
                if dn > 0 && rat_point_in_box(n, dn, ray.origin@, ray.dir@, *bx) {
                    lemma_rat_le_trans(
                        n, dn, amax.num as int, amax.den as int, t_min.num as int, t_min.den as int,
                    );
                }
            }
        }
        return None;
    }
    if let Some(bb) = best {
        if rat_le(&bb, &amin) {
            proof {
                assert forall|n: int, dn: int|
                    !(dn > 0 && #[trigger] rat_point_in_box(n, dn, ray.origin@, ray.dir@, *bx)
                        && rat_lt_s(t_min.num as int, t_min.den as int, n, dn)
                        && (best matches Some(bb2) ==> rat_lt_s(n, dn, bb2.num as int, bb2.den as int))) by {
                    if dn > 0 && rat_point_in_box(n, dn, ray.origin@, ray.dir@, *bx) {
                        lemma_rat_le_trans(
                            bb.num as int, bb.den as int, amin.num as int, amin.den as int, n, dn,
                        );
                    }
                }
            }
            return None;
        }
    }
    proof {
        // the returned entry is one of the axis crossing distances, each of
        // which lower-bounds every distance whose point lies in the box
        assert forall|n: int, dn: int|
            (dn > 0 && #[trigger] rat_point_in_box(n, dn, ray.origin@, ray.dir@, *bx)
                && rat_lt_s(t_min.num as int, t_min.den as int, n, dn)
                && (best matches Some(bb) ==> rat_lt_s(n, dn, bb.num as int, bb.den as int)))
                implies rat_le_s(amin.num as int, amin.den as int, n, dn) by {}
    }
    Some(amin)
}

} // verus!
