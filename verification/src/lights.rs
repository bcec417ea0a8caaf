//! Emissive-light selection.
//!
//! Each emissive triangle gets a power proportional to its emission times its
//! area; a Walker alias table over those powers then draws a light in
//! constant time.  All weights are integers, so the table provably conserves
//! probability mass: summed over all bins, the mass assigned to a triangle is
//! exactly its weight times the bin count.

use vstd::prelude::*;
use crate::FX_ONE;
use crate::sampler::{Sampler, draw_fx, state_step, state_after};
use crate::vec3::{Vec3i, V3, v_sub, v_cross, v_dot, lemma_mul_bound};
use crate::tri::{sub_vec, cross_vec};
use crate::bvh::Triangle;
use crate::material::{MaterialData, is_emissive_spec};

verus! {

/// Squared length of `(b-a) x (c-a)`, i.e. four times the squared triangle
/// area.
pub open spec fn area_sq_spec(a: V3, b: V3, c: V3) -> int {
    v_dot(v_cross(v_sub(b, a), v_sub(c, a)), v_cross(v_sub(b, a), v_sub(c, a)))
}

/// Exact squared twice-area of a triangle.
pub fn triangle_area_sq(a: &Vec3i, b: &Vec3i, c: &Vec3i) -> (r: u128)
    requires
        a.bounded(),
        b.bounded(),
        c.bounded(),
    ensures
        r == area_sq_spec(a@, b@, c@),
{
    let e1 = sub_vec(b, a);
    let e2 = sub_vec(c, a);
    let cr = cross_vec(&e1, &e2);
    proof {
        lemma_mul_bound(cr.x as int, cr.x as int, 549755813888, 549755813888);
        lemma_mul_bound(cr.y as int, cr.y as int, 549755813888, 549755813888);
        lemma_mul_bound(cr.z as int, cr.z as int, 549755813888, 549755813888);
        assert((cr.x as int) * (cr.x as int) >= 0) by (nonlinear_arith);
        assert((cr.y as int) * (cr.y as int) >= 0) by (nonlinear_arith);
        assert((cr.z as int) * (cr.z as int) >= 0) by (nonlinear_arith);
    }
    let xx = (cr.x as i128) * (cr.x as i128);
    let yy = (cr.y as i128) * (cr.y as i128);
    let zz = (cr.z as i128) * (cr.z as i128);
    (xx + yy + zz) as u128
}

/// Integer square root: the greatest `r` with `r * r <= x`.
pub fn isqrt(x: u128) -> (r: u64)
    ensures
        (r as int) * (r as int) <= x as int,
        (r as int + 1) * (r as int + 1) > x as int,
{
    let mut lo: u128 = 0;
    let mut hi: u128 = 18446744073709551616u128;
    while lo + 1 < hi
        invariant
            lo < hi <= 18446744073709551616u128,
            (lo as int) * (lo as int) <= x as int,
            (hi as int) * (hi as int) > x as int,
        decreases hi - lo,
    {
        let mid = lo + (hi - lo) / 2;
        proof {
            lemma_mul_bound(
                mid as int,
                mid as int,
                18446744073709551615,
                18446744073709551615,
            );
        }
        if mid * mid <= x {
            lo = mid;
        } else {
            hi = mid;
        }
    }
    lo as u64
}

/// Which triangles may be picked as lights: exactly those whose material has
/// a nonzero emissive color.
pub fn compute_emissive_mask(indices: &Vec<Triangle>, material_datas: &Vec<MaterialData>) -> (r:
    Vec<bool>)
    requires
        forall|i: int|
            0 <= i < indices@.len() ==> (#[trigger] indices@[i]).m < material_datas@.len(),
    ensures
        r@.len() == indices@.len(),
        forall|i: int|
            0 <= i < indices@.len() ==> r@[i] == is_emissive_spec(
                material_datas@[#[trigger] indices@[i].m as int],
            ),
{
    let mut mask: Vec<bool> = Vec::new();
    let mut i: usize = 0;
    while i < indices.len()
        invariant
            forall|k: int|
                0 <= k < indices@.len() ==> (#[trigger] indices@[k]).m < material_datas@.len(),
            i <= indices@.len(),
            mask@.len() == i,
            forall|k: int|
                0 <= k < i ==> mask@[k] == is_emissive_spec(
                    material_datas@[#[trigger] indices@[k].m as int],
                ),
        decreases indices@.len() - i,
    {
        let t = indices[i];
        mask.push(material_datas[t.m as usize].is_emissive());
        i = i + 1;
    }
    mask
}

/// One alias-table bin: two triangle outcomes.  Of the bin's `total` units
/// of mass, `mass_a` belongs to `tri_a` and the rest to `tri_b`.
#[derive(Clone, Copy, PartialEq, Eq, Structural, Debug)]
pub struct LightPick {
    pub tri_a: u32,
    pub tri_b: u32,
    pub mass_a: u128,
}

/// The share of one bin owned by triangle `j`.
pub open spec fn bin_share(e: LightPick, total: int, j: int) -> int {
    (if e.tri_a == j {
        e.mass_a as int
    } else {
        0
    }) + (if e.tri_b == j {
        total - e.mass_a
    } else {
        0
    })
}

/// Mass assigned to triangle `j` by the first `upto` bins.
pub open spec fn mass_sum(entries: Seq<LightPick>, total: int, j: int, upto: int) -> int
    decreases upto,
{
    if upto <= 0 {
        0
    } else {
        mass_sum(entries, total, j, upto - 1) + bin_share(entries[upto - 1], total, j)
    }
}

/// Sum of the first `upto` weights.
pub open spec fn weight_sum(w: Seq<u64>, upto: int) -> int
    decreases upto,
{
    if upto <= 0 {
        0
    } else {
        weight_sum(w, upto - 1) + w[upto - 1]
    }
}

/// The alias table: one bin per emissive triangle, the weight array it was
/// built from, and the total weight.
pub struct LightTable {
    pub entries: Vec<LightPick>,
    pub weights: Vec<u64>,
    pub total: u128,
}

/// A sound table: the total is the weight sum, every bin splits exactly
/// `total` units between two triangles of positive weight, and — the alias
/// property — the mass assigned to each triangle across all bins is exactly
/// its weight times the bin count.  A table has bins exactly when some
/// weight is positive.
pub open spec fn table_wf(t: LightTable) -> bool {
    &&& t.total == weight_sum(t.weights@, t.weights@.len() as int)
    &&& t.total <= 0x400000000000000000000
    &&& t.entries@.len() <= 0x100000
    &&& forall|i: int|
        0 <= i < t.entries@.len() ==> {
            &&& (#[trigger] t.entries@[i]).tri_a < t.weights@.len()
            &&& t.entries@[i].tri_b < t.weights@.len()
            &&& t.entries@[i].mass_a <= t.total
            &&& t.weights@[t.entries@[i].tri_a as int] > 0
            &&& t.weights@[t.entries@[i].tri_b as int] > 0
        }
    &&& forall|j: int|
        0 <= j < t.weights@.len() ==> mass_sum(
            t.entries@,
            t.total as int,
            j,
            t.entries@.len() as int,
        ) == t.entries@.len() * (#[trigger] t.weights@[j] as int)
}

/// Mass held by slot `k` for triangle `j` midway through the build: a
/// finished slot holds its bin's share, an unfinished one its remaining
/// mass if it owns `j`.
pub open spec fn slot_mass(
    entries: Seq<LightPick>,
    fin: Seq<bool>,
    owners: Seq<u32>,
    rem: Seq<u128>,
    total: int,
    j: int,
    k: int,
) -> int {
    if fin[k] {
        bin_share(entries[k], total, j)
    } else if owners[k] == j {
        rem[k] as int
    } else {
        0
    }
}

/// Total mass the first `upto` slots hold for triangle `j`.
pub open spec fn slot_mass_sum(
    entries: Seq<LightPick>,
    fin: Seq<bool>,
    owners: Seq<u32>,
    rem: Seq<u128>,
    total: int,
    j: int,
    upto: int,
) -> int
    decreases upto,
{
    if upto <= 0 {
        0
    } else {
        slot_mass_sum(entries, fin, owners, rem, total, j, upto - 1) + slot_mass(
            entries,
            fin,
            owners,
            rem,
            total,
            j,
            upto - 1,
        )
    }
}

/// Remaining mass of the unfinished slots among the first `upto`.
pub open spec fn rem_sum(rem: Seq<u128>, fin: Seq<bool>, upto: int) -> int
    decreases upto,
{
    if upto <= 0 {
        0
    } else {
        rem_sum(rem, fin, upto - 1) + (if fin[upto - 1] {
            0int
        } else {
            rem[upto - 1] as int
        })
    }
}

/// Number of unfinished slots among the first `upto`.
pub open spec fn unfin_count(fin: Seq<bool>, upto: int) -> int
    decreases upto,
{
    if upto <= 0 {
        0
    } else {
        unfin_count(fin, upto - 1) + (if fin[upto - 1] {
            0int
        } else {
            1int
        })
    }
}

/// If two build states agree on every slot below `upto` except `p`, their
/// slot-mass sums differ by the change at `p`.
proof fn lemma_slot_sum_update(
    e1: Seq<LightPick>,
    f1: Seq<bool>,
    r1: Seq<u128>,
    e2: Seq<LightPick>,
    f2: Seq<bool>,
    r2: Seq<u128>,
    owners: Seq<u32>,
    total: int,
    j: int,
    p: int,
    upto: int,
)
    requires
        forall|k: int|
            0 <= k < upto && k != p ==> slot_mass(e1, f1, owners, r1, total, j, k) == slot_mass(
                e2,
                f2,
                owners,
                r2,
                total,
                j,
                k,
            ),
        0 <= p < upto,
    ensures
        slot_mass_sum(e2, f2, owners, r2, total, j, upto) == slot_mass_sum(
            e1,
            f1,
            owners,
            r1,
            total,
            j,
            upto,
        ) - slot_mass(e1, f1, owners, r1, total, j, p) + slot_mass(e2, f2, owners, r2, total, j, p),
    decreases upto,
{
    if upto - 1 > p {
        lemma_slot_sum_update(e1, f1, r1, e2, f2, r2, owners, total, j, p, upto - 1);
    } else {
        lemma_slot_sum_same(e1, f1, r1, e2, f2, r2, owners, total, j, upto - 1);
    }
}

/// If two build states agree on every slot below `upto`, their slot-mass
/// sums agree.
proof fn lemma_slot_sum_same(
    e1: Seq<LightPick>,
    f1: Seq<bool>,
    r1: Seq<u128>,
    e2: Seq<LightPick>,
    f2: Seq<bool>,
    r2: Seq<u128>,
    owners: Seq<u32>,
    total: int,
    j: int,
    upto: int,
)
    requires
        forall|k: int|
            0 <= k < upto ==> slot_mass(e1, f1, owners, r1, total, j, k) == slot_mass(
                e2,
                f2,
                owners,
                r2,
                total,
                j,
                k,
            ),
    ensures
        slot_mass_sum(e2, f2, owners, r2, total, j, upto) == slot_mass_sum(
            e1,
            f1,
            owners,
            r1,
            total,
            j,
            upto,
        ),
    decreases upto,
{
    if upto > 0 {
        lemma_slot_sum_same(e1, f1, r1, e2, f2, r2, owners, total, j, upto - 1);
    }
}

/// The same, for the remaining-mass sum and the unfinished count.
proof fn lemma_rem_sum_update(
    r1: Seq<u128>,
    f1: Seq<bool>,
    r2: Seq<u128>,
    f2: Seq<bool>,
    p: int,
    upto: int,
)
    requires
        forall|k: int|
            0 <= k < upto && k != p ==> (f1[k] == f2[k] && (f1[k] || r1[k] == r2[k])),
        0 <= p < upto,
    ensures
        rem_sum(r2, f2, upto) == rem_sum(r1, f1, upto) - (if f1[p] {
            0int
        } else {
            r1[p] as int
        }) + (if f2[p] {
            0int
        } else {
            r2[p] as int
        }),
        unfin_count(f2, upto) == unfin_count(f1, upto) - (if f1[p] {
            0int
        } else {
            1int
        }) + (if f2[p] {
            0int
        } else {
            1int
        }),
    decreases upto,
{
    if upto - 1 > p {
        lemma_rem_sum_update(r1, f1, r2, f2, p, upto - 1);
    } else {
        lemma_rem_sum_same(r1, f1, r2, f2, upto - 1);
    }
}

proof fn lemma_rem_sum_same(r1: Seq<u128>, f1: Seq<bool>, r2: Seq<u128>, f2: Seq<bool>, upto: int)
    requires
        forall|k: int| 0 <= k < upto ==> (f1[k] == f2[k] && (f1[k] || r1[k] == r2[k])),
    ensures
        rem_sum(r2, f2, upto) == rem_sum(r1, f1, upto),
        unfin_count(f2, upto) == unfin_count(f1, upto),
    decreases upto,
{
    if upto > 0 {
        lemma_rem_sum_same(r1, f1, r2, f2, upto - 1);
    }
}

/// When every slot is finished, the slot-mass sum is the bins' mass sum.
proof fn lemma_slot_sum_all_fin(
    entries: Seq<LightPick>,
    fin: Seq<bool>,
    owners: Seq<u32>,
    rem: Seq<u128>,
    total: int,
    j: int,
    upto: int,
)
    requires
        forall|k: int| 0 <= k < upto ==> fin[k],
    ensures
        slot_mass_sum(entries, fin, owners, rem, total, j, upto) == mass_sum(entries, total, j, upto),
    decreases upto,
{
    if upto > 0 {
        lemma_slot_sum_all_fin(entries, fin, owners, rem, total, j, upto - 1);
    }
}

/// An unfinished slot keeps the sum at least `target` times the count minus
/// one, plus its own remainder.
proof fn lemma_rem_sum_lower(rem: Seq<u128>, fin: Seq<bool>, target: int, p: int, upto: int)
    requires
        forall|k: int| 0 <= k < upto && !fin[k] ==> rem[k] as int >= target,
        0 <= p < upto,
        !fin[p],
        target >= 0,
    ensures
        rem_sum(rem, fin, upto) >= target * (unfin_count(fin, upto) - 1) + rem[p],
        unfin_count(fin, upto) >= 1,
    decreases upto,
{
    if upto - 1 > p {
        lemma_rem_sum_lower(rem, fin, target, p, upto - 1);
        if fin[upto - 1] {
            assert(unfin_count(fin, upto) == unfin_count(fin, upto - 1));
        } else {
            assert(unfin_count(fin, upto) - 1 == unfin_count(fin, upto - 1));
            assert(target * (unfin_count(fin, upto - 1) - 1) + target == target * unfin_count(
                fin,
                upto - 1,
            )) by (nonlinear_arith);
        }
    } else {
        lemma_rem_sum_upper_zero(rem, fin, target, upto - 1);
        assert(unfin_count(fin, upto) - 1 == unfin_count(fin, upto - 1));
    }
}

/// Every unfinished slot holding at least `target` bounds the sum from
/// below by `target` times the count.
proof fn lemma_rem_sum_upper_zero(rem: Seq<u128>, fin: Seq<bool>, target: int, upto: int)
    requires
        forall|k: int| 0 <= k < upto && !fin[k] ==> rem[k] as int >= target,
        target >= 0,
    ensures
        rem_sum(rem, fin, upto) >= target * unfin_count(fin, upto),
        unfin_count(fin, upto) >= 0,
    decreases upto,
{
    if upto > 0 {
        lemma_rem_sum_upper_zero(rem, fin, target, upto - 1);
        if fin[upto - 1] {
            assert(unfin_count(fin, upto) == unfin_count(fin, upto - 1));
        } else {
            assert(unfin_count(fin, upto) == unfin_count(fin, upto - 1) + 1);
            assert(target * (unfin_count(fin, upto - 1) + 1) == target * unfin_count(fin, upto - 1)
                + target) by (nonlinear_arith);
        }
    }
}

/// Every unfinished slot strictly below `target` bounds the sum strictly,
/// when any unfinished slot exists.
proof fn lemma_rem_sum_strict(rem: Seq<u128>, fin: Seq<bool>, target: int, upto: int)
    requires
        forall|k: int| 0 <= k < upto && !fin[k] ==> (rem[k] as int) < target,
        target >= 1,
    ensures
        unfin_count(fin, upto) >= 1 ==> rem_sum(rem, fin, upto) < target * unfin_count(fin, upto),
        unfin_count(fin, upto) >= 0,
        unfin_count(fin, upto) == 0 ==> rem_sum(rem, fin, upto) == 0,
    decreases upto,
{
    if upto > 0 {
        lemma_rem_sum_strict(rem, fin, target, upto - 1);
        if fin[upto - 1] {
            assert(unfin_count(fin, upto) == unfin_count(fin, upto - 1));
        } else {
            assert(unfin_count(fin, upto) == unfin_count(fin, upto - 1) + 1);
            assert(target * (unfin_count(fin, upto - 1) + 1) == target * unfin_count(fin, upto - 1)
                + target) by (nonlinear_arith);
        }
    }
}

/// Sum of the weights owned by the first `upto` slots.
pub open spec fn owner_wsum(owners: Seq<u32>, w: Seq<u64>, upto: int) -> int
    decreases upto,
{
    if upto <= 0 {
        0
    } else {
        owner_wsum(owners, w, upto - 1) + w[owners[upto - 1] as int]
    }
}

proof fn lemma_owner_wsum_same(o1: Seq<u32>, o2: Seq<u32>, w: Seq<u64>, upto: int)
    requires
        forall|k: int| 0 <= k < upto ==> o1[k] == o2[k],
        forall|k: int| 0 <= k < upto ==> 0 <= #[trigger] o1[k] < w.len(),
    ensures
        owner_wsum(o1, w, upto) == owner_wsum(o2, w, upto),
    decreases upto,
{
    if upto > 0 {
        lemma_owner_wsum_same(o1, o2, w, upto - 1);
    }
}

/// The weight sum dominates every single weight.
proof fn lemma_weight_sum_lower(w: Seq<u64>, j: int, upto: int)
    requires
        0 <= j < upto,
    ensures
        weight_sum(w, upto) >= w[j],
        weight_sum(w, upto) >= 0,
    decreases upto,
{
    if upto > 0 {
        if j < upto - 1 {
            lemma_weight_sum_lower(w, j, upto - 1);
        } else {
            lemma_weight_sum_nonneg(w, upto - 1);
        }
    }
}

proof fn lemma_weight_sum_nonneg(w: Seq<u64>, upto: int)
    ensures
        weight_sum(w, upto) >= 0,
    decreases upto,
{
    if upto > 0 {
        lemma_weight_sum_nonneg(w, upto - 1);
    }
}

/// The mass a freshly seeded build assigns to triangle `j` after the first
/// `k` slots are in place.
pub open spec fn seeded_mass(owners: Seq<u32>, powers: Seq<u64>, m: int, j: int, k: int) -> int {
    if exists|k2: int| 0 <= k2 < k && (#[trigger] owners[k2]) == j {
        m * (powers[j] as int)
    } else {
        0
    }
}

/// Build the alias table over per-triangle powers (a zero power marks a
/// triangle that is never picked).  Mass is repeatedly moved from a slot
/// above the per-bin average to one below it; each move finishes one bin
/// with exactly two outcomes.  The finished table conserves mass exactly.
pub fn build_light_pick_table(powers: &Vec<u64>) -> (t: LightTable)
    requires
        powers@.len() <= 0x100000,
        forall|i: int| 0 <= i < powers@.len() ==> #[trigger] powers@[i] <= 0x4000000000000000,
    ensures
        table_wf(t),
        t.weights@ == powers@,
        (t.entries@.len() == 0) <==> (forall|j: int|
            0 <= j < powers@.len() ==> powers@[j] == 0),
{
    let n = powers.len();
    let mut weights: Vec<u64> = Vec::new();
    let mut i: usize = 0;
    while i < n
        invariant
            i <= n == powers@.len(),
            weights@.len() == i,
            forall|k: int| 0 <= k < i ==> weights@[k] == powers@[k],
        decreases n - i,
    {
        weights.push(powers[i]);
        i = i + 1;
    }
    proof {
        assert(weights@ =~= powers@);
    }

    // total power and the owners of the future bins
    let mut total: u128 = 0;
    let mut owners: Vec<u32> = Vec::new();
    let mut j: usize = 0;
    while j < n
        invariant
            j <= n == powers@.len(),
            n <= 0x100000,
            forall|i2: int| 0 <= i2 < powers@.len() ==> #[trigger] powers@[i2] <= 0x4000000000000000,
            total == weight_sum(powers@, j as int),
            total <= (j as int) * 0x4000000000000000,
            total == owner_wsum(owners@, powers@, owners@.len() as int),
            owners@.len() <= j,
            forall|k: int|
                0 <= k < owners@.len() ==> (#[trigger] owners@[k]) < j && powers@[owners@[k] as int]
                    > 0,
            forall|a: int, b: int| 0 <= a < b < owners@.len() ==> owners@[a] < owners@[b],
            forall|j2: int|
                0 <= j2 < j && powers@[j2] > 0 ==> exists|k: int|
                    0 <= k < owners@.len() && (#[trigger] owners@[k]) == j2,
        decreases n - j,
    {
        let ghost owners0 = owners@;
        let w = powers[j];
        if w > 0 {
            owners.push(j as u32);
        }
        proof {
            lemma_owner_wsum_same(owners0, owners@, powers@, owners0.len() as int);
            if w > 0 {
                assert(owners@[owners@.len() - 1] == j as u32);
            }
            assert forall|j2: int|
                0 <= j2 < j + 1 && powers@[j2] > 0 implies exists|kk: int|
                    0 <= kk < owners@.len() && (#[trigger] owners@[kk]) == j2 by {
                if j2 == j {
                    assert(owners@[owners@.len() - 1] == j2);
                } else {
                    let kk = choose|kk: int|
                        0 <= kk < owners0.len() && (#[trigger] owners0[kk]) == j2;
                    assert(owners@[kk] == j2);
                }
            }
        }
        total = total + w as u128;
        j = j + 1;
    }
    let m = owners.len();
    if m == 0 {
        return LightTable { entries: Vec::new(), weights, total };
    }
    proof {
        lemma_weight_sum_lower(powers@, owners@[0] as int, n as int);
        assert(total >= 1);
    }

    // one slot per owner, holding its scaled weight
    let mut entries: Vec<LightPick> = Vec::new();
    let mut rem: Vec<u128> = Vec::new();
    let mut fin: Vec<bool> = Vec::new();
    let mut k: usize = 0;
    while k < m
        invariant
            k <= m == owners@.len(),
            n == powers@.len() <= 0x100000,
            weights@ == powers@,
            m <= n,
            forall|i2: int| 0 <= i2 < powers@.len() ==> #[trigger] powers@[i2] <= 0x4000000000000000,
            forall|k2: int|
                0 <= k2 < owners@.len() ==> (#[trigger] owners@[k2]) < n && powers@[owners@[k2]
                    as int] > 0,
            forall|a: int, b: int| 0 <= a < b < owners@.len() ==> owners@[a] < owners@[b],
            entries@.len() == k,
            rem@.len() == k,
            fin@.len() == k,
            forall|k2: int| 0 <= k2 < k ==> !(#[trigger] fin@[k2]),
            forall|k2: int|
                0 <= k2 < k ==> (#[trigger] rem@[k2]) == (m as int) * (powers@[owners@[k2] as int]
                    as int),
            forall|k2: int| 0 <= k2 < k ==> (#[trigger] rem@[k2]) <= 0x400000000000000000000,
            rem_sum(rem@, fin@, k as int) == (m as int) * owner_wsum(owners@, powers@, k as int),
            unfin_count(fin@, k as int) == k as int,
            forall|j2: int|
                0 <= j2 < n ==> slot_mass_sum(
                    entries@,
                    fin@,
                    owners@,
                    rem@,
                    total as int,
                    j2,
                    k as int,
                ) == seeded_mass(owners@, powers@, m as int, j2, k as int),
        decreases m - k,
    {
        let ghost e0 = entries@;
        let ghost r0 = rem@;
        let ghost f0 = fin@;
        let o = owners[k];
        let w = weights[o as usize];
        proof {
            lemma_mul_bound(m as int, w as int, 0x100000, 0x4000000000000000);
        }
        let slot_rem: u128 = (m as u128) * (w as u128);
        entries.push(LightPick { tri_a: o, tri_b: o, mass_a: 0 });
        rem.push(slot_rem);
        fin.push(false);
        proof {
            lemma_rem_sum_same(r0, f0, rem@, fin@, k as int);
            assert((m as int) * owner_wsum(owners@, powers@, k as int + 1) == (m as int)
                * owner_wsum(owners@, powers@, k as int) + (m as int) * (powers@[owners@[k as int]
                as int] as int)) by (nonlinear_arith)
                requires
                    owner_wsum(owners@, powers@, k as int + 1) == owner_wsum(
                        owners@,
                        powers@,
                        k as int,
                    ) + powers@[owners@[k as int] as int],
            ;
            assert forall|j2: int| 0 <= j2 < n implies #[trigger] slot_mass_sum(
                entries@,
                fin@,
                owners@,
                rem@,
                total as int,
                j2,
                k as int + 1,
            ) == seeded_mass(owners@, powers@, m as int, j2, k as int + 1) by {
                lemma_slot_sum_same(e0, f0, r0, entries@, fin@, rem@, owners@, total as int, j2, k as int);
                assert(fin@[k as int] == false);
                assert(rem@[k as int] == slot_rem);
                assert(slot_mass_sum(entries@, fin@, owners@, rem@, total as int, j2, k as int + 1)
                    == slot_mass_sum(entries@, fin@, owners@, rem@, total as int, j2, k as int)
                    + slot_mass(entries@, fin@, owners@, rem@, total as int, j2, k as int));
                if owners@[k as int] == j2 {
                    assert forall|k2: int| 0 <= k2 < k implies (#[trigger] owners@[k2]) != j2 by {
                        assert(owners@[k2] < owners@[k as int]);
                    }
                    assert(seeded_mass(owners@, powers@, m as int, j2, k as int) == 0);
                    assert(slot_mass_sum(e0, f0, owners@, r0, total as int, j2, k as int) == 0);
                    assert(powers@[j2] == weights@[o as int]);
                    assert(slot_mass(entries@, fin@, owners@, rem@, total as int, j2, k as int)
                        == (m as int) * (powers@[j2] as int));
                    assert(owners@[k as int] == j2);
                    assert(seeded_mass(owners@, powers@, m as int, j2, k as int + 1) == (m as int)
                        * (powers@[j2] as int));
                } else {
                    assert(slot_mass(entries@, fin@, owners@, rem@, total as int, j2, k as int)
                        == 0);
                    if exists|k2: int| 0 <= k2 < k && (#[trigger] owners@[k2]) == j2 {
                        let kw = choose|k2: int| 0 <= k2 < k && (#[trigger] owners@[k2]) == j2;
                        assert(0 <= kw < k + 1 && owners@[kw] == j2);
                        assert(seeded_mass(owners@, powers@, m as int, j2, k as int) == (m as int)
                            * (powers@[j2] as int));
                        assert(seeded_mass(owners@, powers@, m as int, j2, k as int + 1) == (
                        m as int) * (powers@[j2] as int));
                    } else {
                        assert forall|k2: int|
                            0 <= k2 < k + 1 implies (#[trigger] owners@[k2]) != j2 by {}
                        assert(seeded_mass(owners@, powers@, m as int, j2, k as int) == 0);
                        assert(seeded_mass(owners@, powers@, m as int, j2, k as int + 1) == 0);
                    }
                }
            }
        }
        k = k + 1;
    }

    // move mass from heavy slots to light ones until all bins are exact
    proof {
        assert((m as int) * owner_wsum(owners@, powers@, m as int) == (total as int) * (m as int))
            by (nonlinear_arith)
            requires
                owner_wsum(owners@, powers@, m as int) == total as int,
        ;
        assert((total as int) * unfin_count(fin@, m as int) == (total as int) * (m as int));
        assert forall|j2: int| 0 <= j2 < n implies slot_mass_sum(
            entries@,
            fin@,
            owners@,
            rem@,
            total as int,
            j2,
            m as int,
        ) == (m as int) * (powers@[j2] as int) by {
            assert(slot_mass_sum(entries@, fin@, owners@, rem@, total as int, j2, m as int)
                == seeded_mass(owners@, powers@, m as int, j2, m as int));
            if !(exists|k2: int| 0 <= k2 < m && (#[trigger] owners@[k2]) == j2) {
                if powers@[j2] > 0 {
                    let kk = choose|kk: int|
                        0 <= kk < owners@.len() && (#[trigger] owners@[kk]) == j2;
                    assert(0 <= kk < m && owners@[kk] == j2);
                }
                assert(powers@[j2] == 0);
                assert((m as int) * (powers@[j2] as int) == 0) by (nonlinear_arith)
                    requires powers@[j2] as int == 0,
                ;
            }
        }
    }
    loop
        invariant_except_break
            n == powers@.len() <= 0x100000,
            m == owners@.len() <= n,
            1 <= total <= 0x400000000000000000000,
            forall|k2: int|
                0 <= k2 < owners@.len() ==> (#[trigger] owners@[k2]) < n && powers@[owners@[k2]
                    as int] > 0,
            entries@.len() == m,
            rem@.len() == m,
            fin@.len() == m,
            forall|k2: int| 0 <= k2 < m ==> (#[trigger] rem@[k2]) <= 0x400000000000000000000,
            forall|k2: int|
                0 <= k2 < m && fin@[k2] ==> {
                    &&& (#[trigger] entries@[k2]).tri_a < n
                    &&& entries@[k2].tri_b < n
                    &&& entries@[k2].mass_a <= total
                    &&& powers@[entries@[k2].tri_a as int] > 0
                    &&& powers@[entries@[k2].tri_b as int] > 0
                },
            rem_sum(rem@, fin@, m as int) == (total as int) * unfin_count(fin@, m as int),
            unfin_count(fin@, m as int) >= 0,
            forall|j2: int|
                0 <= j2 < n ==> slot_mass_sum(
                    entries@,
                    fin@,
                    owners@,
                    rem@,
                    total as int,
                    j2,
                    m as int,
                ) == (m as int) * (powers@[j2] as int),
        ensures
            n == powers@.len(),
            m == owners@.len(),
            entries@.len() == m,
            rem@.len() == m,
            fin@.len() == m,
            1 <= total,
            forall|k2: int|
                0 <= k2 < owners@.len() ==> (#[trigger] owners@[k2]) < n && powers@[owners@[k2]
                    as int] > 0,
            forall|k2: int|
                0 <= k2 < m && fin@[k2] ==> {
                    &&& (#[trigger] entries@[k2]).tri_a < n
                    &&& entries@[k2].tri_b < n
                    &&& entries@[k2].mass_a <= total
                    &&& powers@[entries@[k2].tri_a as int] > 0
                    &&& powers@[entries@[k2].tri_b as int] > 0
                },
            rem_sum(rem@, fin@, m as int) == (total as int) * unfin_count(fin@, m as int),
            forall|k2: int| 0 <= k2 < m && !fin@[k2] ==> (#[trigger] rem@[k2]) >= total,
            forall|j2: int|
                0 <= j2 < n ==> slot_mass_sum(
                    entries@,
                    fin@,
                    owners@,
                    rem@,
                    total as int,
                    j2,
                    m as int,
                ) == (m as int) * (powers@[j2] as int),
        decreases unfin_count(fin@, m as int),
    {
        // find a slot below the average
        let mut s: usize = m;
        let mut k2: usize = 0;
        while k2 < m
            invariant
                k2 <= m,
                s <= m,
                rem@.len() == m,
                fin@.len() == m,
                s == m ==> forall|k3: int| 0 <= k3 < k2 ==> (fin@[k3] || rem@[k3] >= total),
                s < m ==> !fin@[s as int] && rem@[s as int] < total,
            decreases m - k2,
        {
            if s == m && !fin[k2] && rem[k2] < total {
                s = k2;
            }
            k2 = k2 + 1;
        }
        if s == m {
            break;
        }
        // find a slot above it; one exists because the remaining mass
        // averages exactly `total` per unfinished slot
        let mut l: usize = m;
        let mut k3: usize = 0;
        while k3 < m
            invariant
                k3 <= m,
                l <= m,
                rem@.len() == m,
                fin@.len() == m,
                l == m ==> forall|k4: int| 0 <= k4 < k3 ==> (fin@[k4] || rem@[k4] < total),
                l < m ==> !fin@[l as int] && rem@[l as int] >= total,
            decreases m - k3,
        {
            if l == m && !fin[k3] && rem[k3] >= total {
                l = k3;
            }
            k3 = k3 + 1;
        }
        if l == m {
            proof {
                lemma_rem_sum_strict(rem@, fin@, total as int, m as int);
                lemma_rem_sum_lower(rem@, fin@, 0, s as int, m as int);
                assert((total as int) * unfin_count(fin@, m as int) >= 1 * unfin_count(
                    fin@,
                    m as int,
                )) by (nonlinear_arith)
                    requires
                        (total as int) >= 1,
                        unfin_count(fin@, m as int) >= 1,
                ;
                assert(false);
            }
            break;
        }
        let ghost e1 = entries@;
        let ghost f1 = fin@;
        let ghost r1 = rem@;
        let give: u128 = total - rem[s];
        entries.set(s, LightPick { tri_a: owners[s], tri_b: owners[l], mass_a: rem[s] });
        fin.set(s, true);
        let ghost e2 = entries@;
        let ghost f2 = fin@;
        rem.set(l, rem[l] - give);
        proof {
            assert forall|j2: int| 0 <= j2 < n implies slot_mass_sum(
                entries@,
                fin@,
                owners@,
                rem@,
                total as int,
                j2,
                m as int,
            ) == (m as int) * (powers@[j2] as int) by {
                lemma_slot_sum_update(
                    e1, f1, r1, e2, f2, r1, owners@, total as int, j2, s as int, m as int,
                );
                lemma_slot_sum_update(
                    e2, f2, r1, e2, f2, rem@, owners@, total as int, j2, l as int, m as int,
                );
            }
            lemma_rem_sum_update(r1, f1, r1, f2, s as int, m as int);
            lemma_rem_sum_update(r1, f2, rem@, f2, l as int, m as int);
            assert((total as int) * (unfin_count(f2, m as int)) == (total as int) * unfin_count(
                f1,
                m as int,
            ) - total) by (nonlinear_arith)
                requires
                    unfin_count(f2, m as int) == unfin_count(f1, m as int) - 1,
            ;
            lemma_rem_sum_upper_zero(rem@, fin@, 0, m as int);
        }
    }

    // every remaining slot holds exactly the average: close it on itself
    let mut k4: usize = 0;
    while k4 < m
        invariant
            n == powers@.len(),
            m == owners@.len(),
            k4 <= m,
            entries@.len() == m,
            rem@.len() == m,
            fin@.len() == m,
            1 <= total,
            forall|k2: int|
                0 <= k2 < owners@.len() ==> (#[trigger] owners@[k2]) < n && powers@[owners@[k2]
                    as int] > 0,
            forall|k2: int|
                0 <= k2 < m && fin@[k2] ==> {
                    &&& (#[trigger] entries@[k2]).tri_a < n
                    &&& entries@[k2].tri_b < n
                    &&& entries@[k2].mass_a <= total
                    &&& powers@[entries@[k2].tri_a as int] > 0
                    &&& powers@[entries@[k2].tri_b as int] > 0
                },
            forall|k2: int| 0 <= k2 < k4 ==> #[trigger] fin@[k2],
            rem_sum(rem@, fin@, m as int) == (total as int) * unfin_count(fin@, m as int),
            forall|k2: int| 0 <= k2 < m && !fin@[k2] ==> (#[trigger] rem@[k2]) >= total,
            forall|j2: int|
                0 <= j2 < n ==> slot_mass_sum(
                    entries@,
                    fin@,
                    owners@,
                    rem@,
                    total as int,
                    j2,
                    m as int,
                ) == (m as int) * (powers@[j2] as int),
        decreases m - k4,
    {
        if !fin[k4] {
            proof {
                lemma_rem_sum_lower(rem@, fin@, total as int, k4 as int, m as int);
                assert((total as int) * (unfin_count(fin@, m as int) - 1) == (total as int)
                    * unfin_count(fin@, m as int) - total) by (nonlinear_arith);
                assert(rem@[k4 as int] == total);
            }
            let ghost e1 = entries@;
            let ghost f1 = fin@;
            let ghost r1 = rem@;
            entries.set(k4, LightPick { tri_a: owners[k4], tri_b: owners[k4], mass_a: total });
            fin.set(k4, true);
            proof {
                assert forall|j2: int| 0 <= j2 < n implies slot_mass_sum(
                    entries@,
                    fin@,
                    owners@,
                    rem@,
                    total as int,
                    j2,
                    m as int,
                ) == (m as int) * (powers@[j2] as int) by {
                    lemma_slot_sum_update(
                        e1, f1, r1, entries@, fin@, rem@, owners@, total as int, j2, k4 as int,
                        m as int,
                    );
                }
                lemma_rem_sum_update(r1, f1, rem@, fin@, k4 as int, m as int);
                assert((total as int) * (unfin_count(fin@, m as int)) == (total as int)
                    * unfin_count(f1, m as int) - total) by (nonlinear_arith)
                    requires
                        unfin_count(fin@, m as int) == unfin_count(f1, m as int) - 1,
                ;
            }
        }
        k4 = k4 + 1;
    }
    proof {
        assert forall|j2: int| 0 <= j2 < n implies mass_sum(
            entries@,
            total as int,
            j2,
            m as int,
        ) == (m as int) * (powers@[j2] as int) by {
            lemma_slot_sum_all_fin(entries@, fin@, owners@, rem@, total as int, j2, m as int);
        }
        assert(owners@[0] < n && powers@[owners@[0] as int] > 0);
    }
    LightTable { entries, weights, total }
}


/// Power of an emissive triangle: the sum of its emissive channels times
/// (twice) its area, as an integer weight for the pick table.
pub fn triangle_power(emissive_sum_fx: i64, area2: u64) -> (r: u64)
    requires
        0 <= emissive_sum_fx <= 4194304,
        area2 <= 1099511627776,
    ensures
        r == emissive_sum_fx * area2,
        r <= 0x4000000000000000,
{
    proof {
        lemma_mul_bound(emissive_sum_fx as int, area2 as int, 4194304, 1099511627776);
    }
    (emissive_sum_fx as u64) * area2
}

/// The triangle the table picks for the fixed-point pair `(r1, r2)`:
/// `r1` selects the bin, `r2` splits it between its two outcomes.
pub open spec fn pick_spec(t: LightTable, r1: int, r2: int) -> int {
    let bin = r1 * t.entries@.len() / (FX_ONE as int);
    let e = t.entries@[bin];
    if r2 * (t.total as int) < (e.mass_a as int) * (FX_ONE as int) {
        e.tri_a as int
    } else {
        e.tri_b as int
    }
}

/// Draw a light triangle.  `None` exactly when the scene has no emissive
/// triangle; otherwise the drawn index is the table's exact choice for the
/// two consumed stream values, and its weight is positive.
pub fn pick_light(t: &LightTable, sampler: &mut Sampler) -> (r: Option<u32>)
    requires
        table_wf(*t),
    ensures
        *final(sampler) == state_after(*old(sampler), 2),
        r is None <==> t.entries@.len() == 0,
        r matches Some(j) ==> {
            &&& j as int == pick_spec(*t, draw_fx(*old(sampler)) as int, draw_fx(
                state_step(*old(sampler)),
            ) as int)
            &&& (j as int) < t.weights@.len()
            &&& t.weights@[j as int] > 0
        },
{
    let (r1, r2) = sampler.gen_r2();
    if t.entries.len() == 0 {
        return None;
    }
    let m = t.entries.len();
    proof {
        assert((r1 as int) * (m as int) < 65536 * (m as int)) by (nonlinear_arith)
            requires
                0 <= (r1 as int) < 65536,
                (m as int) >= 1,
        ;
        assert((r1 as int) * (m as int) >= 0) by (nonlinear_arith)
            requires
                0 <= (r1 as int),
                (m as int) >= 1,
        ;
        assert(((r1 as int) * (m as int)) / 65536 < m as int) by (nonlinear_arith)
            requires
                0 <= (r1 as int) * (m as int),
                (r1 as int) * (m as int) < 65536 * (m as int),
        ;
    }
    let bin = ((r1 as u128) * (m as u128) / 65536) as usize;
    let e = t.entries[bin];
    proof {
        lemma_mul_bound(r2 as int, t.total as int, 65536, 0x400000000000000000000);
        lemma_mul_bound(e.mass_a as int, 65536, 0x400000000000000000000, 65536);
    }
    if (r2 as u128) * t.total < e.mass_a * 65536u128 {
        Some(e.tri_a)
    } else {
        Some(e.tri_b)
    }
}

/// Square root in fixed point: the greatest `r` with `r*r <= s << 16`.
pub fn sqrt_fx(s: i64) -> (r: i64)
    requires
        0 <= s <= FX_ONE,
    ensures
        0 <= r <= FX_ONE,
        (r as int) * (r as int) <= (s as int) * (FX_ONE as int),
        (r as int + 1) * (r as int + 1) > (s as int) * (FX_ONE as int),
{
    proof {
        lemma_mul_bound(s as int, FX_ONE as int, 65536, 65536);
    }
    let q = isqrt((s as u128) * 65536u128);
    proof {
        assert((q as int) * (q as int) <= 65536 * 65536);
        assert(q as int <= 65536) by (nonlinear_arith)
            requires
                (q as int) * (q as int) <= 65536 * 65536,
                (q as int) >= 0,
        ;
    }
    q as i64
}

/// Uniform point on a triangle: with `(s, t)` the two consumed stream values
/// and `rs` the fixed-point root of `s`, the point is the barycentric blend
/// with exact weights `(1-rs, rs*(1-t), rs*t)` (which sum to one), each
/// coordinate rounded down.
pub fn pick_triangle_point(a: &Vec3i, b: &Vec3i, c: &Vec3i, sampler: &mut Sampler) -> (p: Vec3i)
    requires
        a.bounded(),
        b.bounded(),
        c.bounded(),
    ensures
        *final(sampler) == state_after(*old(sampler), 2),
        p.bounded(),
        exists|rs: int|
            {
                let s = draw_fx(*old(sampler)) as int;
                let t = draw_fx(state_step(*old(sampler))) as int;
                let c0 = (65536 - rs) * 65536;
                let c1 = rs * (65536 - t);
                let c2 = rs * t;
                &&& 0 <= rs <= 65536
                &&& #[trigger] (rs * rs) <= s * 65536
                &&& (rs + 1) * (rs + 1) > s * 65536
                &&& 4294967296 * (p.x as int) <= c0 * a.x + c1 * b.x + c2 * c.x < 4294967296 * (
                p.x as int) + 4294967296
                &&& 4294967296 * (p.y as int) <= c0 * a.y + c1 * b.y + c2 * c.y < 4294967296 * (
                p.y as int) + 4294967296
                &&& 4294967296 * (p.z as int) <= c0 * a.z + c1 * b.z + c2 * c.z < 4294967296 * (
                p.z as int) + 4294967296
            },
{
    let (s, t) = sampler.gen_r2();
    let rs = sqrt_fx(s);
    proof {
        lemma_mul_bound((65536 - rs) as int, 65536, 65536, 65536);
        lemma_mul_bound(rs as int, (65536 - t) as int, 65536, 65536);
        lemma_mul_bound(rs as int, t as int, 65536, 65536);
    }
    let c0: i128 = ((65536 - rs) as i128) * 65536;
    let c1: i128 = (rs as i128) * ((65536 - t) as i128);
    let c2: i128 = (rs as i128) * (t as i128);
    proof {
        assert(c0 + c1 + c2 == 4294967296) by (nonlinear_arith)
            requires
                c0 == ((65536 - rs) as int) * 65536,
                c1 == (rs as int) * ((65536 - t) as int),
                c2 == (rs as int) * (t as int),
        ;
        assert(c0 >= 0 && c1 >= 0 && c2 >= 0) by (nonlinear_arith)
            requires
                c0 == ((65536 - rs) as int) * 65536,
                c1 == (rs as int) * ((65536 - t) as int),
                c2 == (rs as int) * (t as int),
                0 <= rs <= 65536,
                0 <= t < 65536,
        ;
    }
    let px = blend_axis(c0, c1, c2, a.x, b.x, c.x);
    let py = blend_axis(c0, c1, c2, a.y, b.y, c.y);
    let pz = blend_axis(c0, c1, c2, a.z, b.z, c.z);
    Vec3i { x: px, y: py, z: pz }
}

/// One coordinate of the barycentric blend, rounded toward minus infinity.
fn blend_axis(c0: i128, c1: i128, c2: i128, xa: i64, xb: i64, xc: i64) -> (q: i64)
    requires
        c0 >= 0,
        c1 >= 0,
        c2 >= 0,
        c0 + c1 + c2 == 4294967296,
        -262144 <= xa <= 262144,
        -262144 <= xb <= 262144,
        -262144 <= xc <= 262144,
    ensures
        -262144 <= q <= 262144,
        4294967296 * (q as int) <= c0 * xa + c1 * xb + c2 * xc < 4294967296 * (q as int)
            + 4294967296,
{
    proof {
        lemma_mul_bound(c0 as int, (xa + 262144) as int, 4294967296, 524288);
        lemma_mul_bound(c1 as int, (xb + 262144) as int, 4294967296, 524288);
        lemma_mul_bound(c2 as int, (xc + 262144) as int, 4294967296, 524288);
        lemma_blend_shift(c0 as int, c1 as int, c2 as int, xa as int, xb as int, xc as int);
        assert(c0 * ((xa + 262144) as int) >= 0 && c1 * ((xb + 262144) as int) >= 0 && c2 * ((xc
            + 262144) as int) >= 0) by (nonlinear_arith)
            requires
                c0 >= 0 && c1 >= 0 && c2 >= 0,
                xa + 262144 >= 0 && xb + 262144 >= 0 && xc + 262144 >= 0,
        ;
        assert(c0 * ((xa + 262144) as int) <= c0 * 524288) by (nonlinear_arith)
            requires
                c0 >= 0,
                ((xa + 262144) as int) <= 524288,
        ;
        assert(c1 * ((xb + 262144) as int) <= c1 * 524288) by (nonlinear_arith)
            requires
                c1 >= 0,
                ((xb + 262144) as int) <= 524288,
        ;
        assert(c2 * ((xc + 262144) as int) <= c2 * 524288) by (nonlinear_arith)
            requires
                c2 >= 0,
                ((xc + 262144) as int) <= 524288,
        ;
        assert(c0 * 524288 + c1 * 524288 + c2 * 524288 == 4294967296 * 524288)
            by (nonlinear_arith)
            requires
                (c0 as int) + (c1 as int) + (c2 as int) == 4294967296,
        ;
    }
    let shifted: i128 = c0 * ((xa as i128) + 262144) + c1 * ((xb as i128) + 262144) + c2 * ((
    xc as i128) + 262144);
    let qs = shifted / 4294967296;
    proof {
        assert(4294967296 * (qs as int) <= (shifted as int) && (shifted as int) < 4294967296 * (
        qs as int) + 4294967296) by (nonlinear_arith)
            requires
                shifted >= 0,
                (qs as int) == (shifted as int) / 4294967296,
        ;
        assert(0 <= qs <= 524288) by (nonlinear_arith)
            requires
                4294967296 * (qs as int) <= (shifted as int),
                (shifted as int) <= 4294967296 * 524288,
                4294967296 * (qs as int) + 4294967296 > (shifted as int),
                shifted >= 0,
        ;
    }
    (qs as i64) - 262144
}

/// Shifting all three coordinates by the same amount shifts the blend by
/// that amount times the weight total.
proof fn lemma_blend_shift(c0: int, c1: int, c2: int, xa: int, xb: int, xc: int)
    by (nonlinear_arith)
    requires
        c0 + c1 + c2 == 4294967296,
    ensures
        c0 * (xa + 262144) + c1 * (xb + 262144) + c2 * (xc + 262144) == c0 * xa + c1 * xb + c2
            * xc + 4294967296 * 262144,
{
}

} // verus!
