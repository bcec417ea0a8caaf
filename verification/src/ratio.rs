//! Exact rational hit distances.
//!
//! A distance along a ray is `num / den` with `den > 0`; both parts are
//! bounded by `T_BOUND` so that cross-multiplied comparisons fit in `i128`.

use vstd::prelude::*;
use crate::tri::T_BOUND;
use crate::vec3::lemma_mul_bound;

verus! {

/// An exact nonnegative-denominator rational.
#[derive(Clone, Copy, PartialEq, Eq, Structural, Debug)]
pub struct Rat {
    pub num: i64,
    pub den: i64,
}

impl Rat {
    /// Positive denominator, both parts within the global magnitude bound.
    pub open spec fn wf(self) -> bool {
        &&& 0 < self.den <= T_BOUND
        &&& -T_BOUND <= self.num <= T_BOUND
    }

    pub fn new(num: i64, den: i64) -> (r: Rat)
        ensures
            r == (Rat { num, den }),
    {
        Rat { num, den }
    }
}

/// `an/ad <= bn/bd`, by cross-multiplication (meaningful for positive
/// denominators).
pub open spec fn rat_le_s(an: int, ad: int, bn: int, bd: int) -> bool {
    an * bd <= bn * ad
}

/// `an/ad < bn/bd`.
pub open spec fn rat_lt_s(an: int, ad: int, bn: int, bd: int) -> bool {
    an * bd < bn * ad
}

/// Exact comparison `a <= b`.
pub fn rat_le(a: &Rat, b: &Rat) -> (r: bool)
    requires
        a.wf(),
        b.wf(),
    ensures
        r == rat_le_s(a.num as int, a.den as int, b.num as int, b.den as int),
{
    proof {
        lemma_mul_bound(a.num as int, b.den as int, T_BOUND as int, T_BOUND as int);
        lemma_mul_bound(b.num as int, a.den as int, T_BOUND as int, T_BOUND as int);
    }
    (a.num as i128) * (b.den as i128) <= (b.num as i128) * (a.den as i128)
}

/// Exact comparison `a < b`.
pub fn rat_lt(a: &Rat, b: &Rat) -> (r: bool)
    requires
        a.wf(),
        b.wf(),
    ensures
        r == rat_lt_s(a.num as int, a.den as int, b.num as int, b.den as int),
{
    proof {
        lemma_mul_bound(a.num as int, b.den as int, T_BOUND as int, T_BOUND as int);
        lemma_mul_bound(b.num as int, a.den as int, T_BOUND as int, T_BOUND as int);
    }
    (a.num as i128) * (b.den as i128) < (b.num as i128) * (a.den as i128)
}

/// Transitivity of `<=` over positive denominators.
pub proof fn lemma_rat_le_trans(an: int, ad: int, bn: int, bd: int, cn: int, cd: int)
    by (nonlinear_arith)
    requires
        ad > 0,
        bd > 0,
        cd > 0,
        rat_le_s(an, ad, bn, bd),
        rat_le_s(bn, bd, cn, cd),
    ensures
        rat_le_s(an, ad, cn, cd),
{
}

/// `a < b <= c` gives `a < c`.
pub proof fn lemma_rat_lt_le_trans(an: int, ad: int, bn: int, bd: int, cn: int, cd: int)
    by (nonlinear_arith)
    requires
        ad > 0,
        bd > 0,
        cd > 0,
        rat_lt_s(an, ad, bn, bd),
        rat_le_s(bn, bd, cn, cd),
    ensures
        rat_lt_s(an, ad, cn, cd),
{
}

/// Strict transitivity.
pub proof fn lemma_rat_lt_trans(an: int, ad: int, bn: int, bd: int, cn: int, cd: int)
    by (nonlinear_arith)
    requires
        ad > 0,
        bd > 0,
        cd > 0,
        rat_lt_s(an, ad, bn, bd),
        rat_lt_s(bn, bd, cn, cd),
    ensures
        rat_lt_s(an, ad, cn, cd),
{
}

/// Cancelling a positive factor in a product inequality.
pub proof fn lemma_mul_le_cancel(k: int, a: int, b: int) by (nonlinear_arith)
    requires
        k > 0,
        k * a <= k * b,
    ensures
        a <= b,
{
}

} // verus!
