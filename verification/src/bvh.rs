//! Bounding-volume hierarchy over a triangle scene.
//!
//! Nodes form a binary tree in an array; an interior node stores its left
//! child index and the right child sits at the next slot (contiguous-pair
//! rule).  A leaf covers a contiguous span of the triangle array.  The tree
//! is consumed pre-built; `validate` checks every structural guarantee the
//! traversal relies on, so an arbitrary tree can be installed safely.

use vstd::prelude::*;
use crate::vec3::{Vec3i, V3};
use crate::aabb::{Aabb, aabb_enter, rat_point_in_box};
use crate::tri::{
    Ray, tri_hits, hit_t_num, hit_t_den, hit_backface, intersect_triangle, lemma_hit_point_in_box,
    lemma_hit_den_pos,
};
use crate::ratio::{
    Rat, rat_le_s, rat_lt_s, rat_le, rat_lt, lemma_rat_lt_le_trans, lemma_rat_lt_trans,
};

verus! {

/// Depth bound of every accepted tree; the traversal stack never exceeds it.
pub const MAX_DEPTH: usize = 32;

/// Triangle record: three vertex indices and a material index.
#[derive(Clone, Copy, PartialEq, Eq, Structural, Debug)]
pub struct Triangle {
    pub i0: u32,
    pub i1: u32,
    pub i2: u32,
    pub m: u32,
}

/// A tree node: the tag is the triangle count, as in a packed layout where
/// zero triangles marks an interior node.
#[derive(Clone, Copy, PartialEq, Eq, Structural, Debug)]
pub enum BvhNode {
    Leaf { bounds: Aabb, first: usize, count: usize },
    Interior { bounds: Aabb, left: usize },
}

impl BvhNode {
    pub open spec fn bounds(self) -> Aabb {
        match self {
            BvhNode::Leaf { bounds, .. } => bounds,
            BvhNode::Interior { bounds, .. } => bounds,
        }
    }
}

/// All vertices are within scene bounds and all triangle indices are valid.
pub open spec fn scene_wf(verts: Seq<Vec3i>, tris: Seq<Triangle>) -> bool {
    &&& forall|i: int| 0 <= i < verts.len() ==> (#[trigger] verts[i]).bounded()
    &&& forall|i: int|
        0 <= i < tris.len() ==> {
            &&& (#[trigger] tris[i]).i0 < verts.len()
            &&& tris[i].i1 < verts.len()
            &&& tris[i].i2 < verts.len()
        }
}

/// Runtime check of `scene_wf`, so a caller holding arbitrary input can
/// establish every traversal precondition before tracing.
pub fn check_scene(verts: &Vec<Vec3i>, tris: &Vec<Triangle>) -> (ok: bool)
    ensures
        ok == scene_wf(verts@, tris@),
{
    let mut i: usize = 0;
    while i < verts.len()
        invariant
            i <= verts@.len(),
            forall|k: int| 0 <= k < i ==> (#[trigger] verts@[k]).bounded(),
        decreases verts@.len() - i,
    {
        let v = verts[i];
        if v.x < -262144 || v.x > 262144 || v.y < -262144 || v.y > 262144 || v.z < -262144
            || v.z > 262144 {
            proof {
                assert(!verts@[i as int].bounded());
            }
            return false;
        }
        i = i + 1;
    }
    let n = verts.len();
    let mut j: usize = 0;
    while j < tris.len()
        invariant
            j <= tris@.len(),
            n == verts@.len(),
            forall|k: int| 0 <= k < i ==> (#[trigger] verts@[k]).bounded(),
            i == verts@.len(),
            forall|k: int|
                0 <= k < j ==> {
                    &&& (#[trigger] tris@[k]).i0 < n
                    &&& tris@[k].i1 < n
                    &&& tris@[k].i2 < n
                },
        decreases tris@.len() - j,
    {
        let t = tris[j];
        if t.i0 as usize >= n || t.i1 as usize >= n || t.i2 as usize >= n {
            return false;
        }
        j = j + 1;
    }
    true
}

/// One box lies within another, componentwise.
pub open spec fn box_in_box(inner: Aabb, outer: Aabb) -> bool {
    &&& outer.lo.x <= inner.lo.x && inner.hi.x <= outer.hi.x
    &&& outer.lo.y <= inner.lo.y && inner.hi.y <= outer.hi.y
    &&& outer.lo.z <= inner.lo.z && inner.hi.z <= outer.hi.z
}

/// The box holds all three vertices of triangle `j`.
pub open spec fn tri_in_box(verts: Seq<Vec3i>, tris: Seq<Triangle>, j: int, bx: Aabb) -> bool {
    &&& bx.contains(verts[tris[j].i0 as int]@)
    &&& bx.contains(verts[tris[j].i1 as int]@)
    &&& bx.contains(verts[tris[j].i2 as int]@)
}

/// Structural soundness of the subtree rooted at `i`, within a depth budget:
/// indices are valid, children sit above their parent and are contiguous,
/// leaf spans stay inside the triangle array, every leaf box holds its
/// triangles' vertices, and every interior box holds its children's boxes.
pub open spec fn node_wf(
    nodes: Seq<BvhNode>,
    verts: Seq<Vec3i>,
    tris: Seq<Triangle>,
    i: int,
    depth: nat,
) -> bool
    decreases depth,
{
    &&& 0 <= i < nodes.len()
    &&& depth > 0
    &&& nodes[i].bounds().wf()
    &&& match nodes[i] {
        BvhNode::Leaf { bounds, first, count } => {
            &&& first + count <= tris.len()
            &&& forall|j: int| first <= j < first + count ==> tri_in_box(verts, tris, j, bounds)
        },
        BvhNode::Interior { bounds, left } => {
            &&& i < left
            &&& left + 1 < nodes.len()
            &&& node_wf(nodes, verts, tris, left as int, (depth - 1) as nat)
            &&& node_wf(nodes, verts, tris, left + 1, (depth - 1) as nat)
            &&& box_in_box(nodes[left as int].bounds(), bounds)
            &&& box_in_box(nodes[left + 1].bounds(), bounds)
        },
    }
}

/// Triangle `j` lies in some leaf span of the subtree rooted at `i`.
pub open spec fn node_covers(nodes: Seq<BvhNode>, i: int, j: int, depth: nat) -> bool
    decreases depth,
{
    &&& 0 <= i < nodes.len()
    &&& depth > 0
    &&& match nodes[i] {
        BvhNode::Leaf { first, count, .. } => first <= j < first + count,
        BvhNode::Interior { left, .. } => {
            ||| node_covers(nodes, left as int, j, (depth - 1) as nat)
            ||| node_covers(nodes, left + 1, j, (depth - 1) as nat)
        },
    }
}

/// A valid hierarchy: a sound root subtree that covers every triangle.
pub open spec fn bvh_wf(nodes: Seq<BvhNode>, verts: Seq<Vec3i>, tris: Seq<Triangle>) -> bool {
    &&& nodes.len() > 0
    &&& node_wf(nodes, verts, tris, 0, MAX_DEPTH as nat)
    &&& forall|j: int| 0 <= j < tris.len() ==> #[trigger] node_covers(nodes, 0, j, MAX_DEPTH as nat)
}

/// Every triangle covered by a sound subtree lies in the subtree's box (and
/// is a valid index).
pub proof fn lemma_covered_in_bounds(
    nodes: Seq<BvhNode>,
    verts: Seq<Vec3i>,
    tris: Seq<Triangle>,
    i: int,
    j: int,
    depth: nat,
)
    requires
        node_wf(nodes, verts, tris, i, depth),
        node_covers(nodes, i, j, depth),
    ensures
        0 <= j < tris.len(),
        tri_in_box(verts, tris, j, nodes[i].bounds()),
    decreases depth,
{
    match nodes[i] {
        BvhNode::Leaf { bounds, first, count } => {
        },
        BvhNode::Interior { bounds, left } => {
            if node_covers(nodes, left as int, j, (depth - 1) as nat) {
                lemma_covered_in_bounds(nodes, verts, tris, left as int, j, (depth - 1) as nat);
            } else {
                lemma_covered_in_bounds(nodes, verts, tris, left + 1, j, (depth - 1) as nat);
            }
        },
    }
}

/// The hierarchy owning the node array.
pub struct Bvh {
    pub nodes: Vec<BvhNode>,
}

/// First vertex of triangle `j`, as a mathematical vector.
pub open spec fn tv0(verts: Seq<Vec3i>, tris: Seq<Triangle>, j: int) -> V3 {
    verts[tris[j].i0 as int]@
}

pub open spec fn tv1(verts: Seq<Vec3i>, tris: Seq<Triangle>, j: int) -> V3 {
    verts[tris[j].i1 as int]@
}

pub open spec fn tv2(verts: Seq<Vec3i>, tris: Seq<Triangle>, j: int) -> V3 {
    verts[tris[j].i2 as int]@
}

/// The ray hits triangle `j` (at any forward parameter).
pub open spec fn tri_hit_j(verts: Seq<Vec3i>, tris: Seq<Triangle>, ray: Ray, j: int) -> bool {
    tri_hits(
        ray.origin@,
        ray.dir@,
        tv0(verts, tris, j),
        tv1(verts, tris, j),
        tv2(verts, tris, j),
    )
}

/// Exact hit distance numerator of triangle `j`.
pub open spec fn tri_tn(verts: Seq<Vec3i>, tris: Seq<Triangle>, ray: Ray, j: int) -> int {
    hit_t_num(ray.origin@, ray.dir@, tv0(verts, tris, j), tv1(verts, tris, j), tv2(verts, tris, j))
}

/// Exact hit distance denominator of triangle `j`.
pub open spec fn tri_td(verts: Seq<Vec3i>, tris: Seq<Triangle>, ray: Ray, j: int) -> int {
    hit_t_den(ray.origin@, ray.dir@, tv0(verts, tris, j), tv1(verts, tris, j), tv2(verts, tris, j))
}

/// Back-face flag of triangle `j` for this ray.
pub open spec fn tri_bf(verts: Seq<Vec3i>, tris: Seq<Triangle>, ray: Ray, j: int) -> bool {
    hit_backface(
        ray.origin@,
        ray.dir@,
        tv0(verts, tris, j),
        tv1(verts, tris, j),
        tv2(verts, tris, j),
    )
}

/// A reported scene hit: triangle index, exact distance, back-face flag.
#[derive(Clone, Copy, PartialEq, Eq, Structural, Debug)]
pub struct SceneHit {
    pub tri: usize,
    pub t: Rat,
    pub backface: bool,
}

/// The report describes a real hit of the scene beyond `t_min`.
pub open spec fn hit_matches(
    verts: Seq<Vec3i>,
    tris: Seq<Triangle>,
    ray: Ray,
    t_min: Rat,
    h: SceneHit,
) -> bool {
    &&& 0 <= h.tri < tris.len()
    &&& tri_hit_j(verts, tris, ray, h.tri as int)
    &&& h.t.num == tri_tn(verts, tris, ray, h.tri as int)
    &&& h.t.den == tri_td(verts, tris, ray, h.tri as int)
    &&& h.backface == tri_bf(verts, tris, ray, h.tri as int)
    &&& h.t.wf()
    &&& rat_lt_s(t_min.num as int, t_min.den as int, h.t.num as int, h.t.den as int)
}

/// No triangle is hit at a distance in the open range `(t_min, bound)`
/// (unbounded above when `bound` is `None`).
pub open spec fn no_hit_in_range(
    verts: Seq<Vec3i>,
    tris: Seq<Triangle>,
    ray: Ray,
    t_min: Rat,
    bound: Option<Rat>,
) -> bool {
    forall|j: int|
        0 <= j < tris.len() && #[trigger] tri_hit_j(verts, tris, ray, j) ==> !(rat_lt_s(
            t_min.num as int,
            t_min.den as int,
            tri_tn(verts, tris, ray, j),
            tri_td(verts, tris, ray, j),
        ) && (bound matches Some(b) ==> rat_lt_s(
            tri_tn(verts, tris, ray, j),
            tri_td(verts, tris, ray, j),
            b.num as int,
            b.den as int,
        )))
}

/// No triangle is hit at a distance in the half-open range `(t_min, max_t]`.
pub open spec fn no_hit_upto(
    verts: Seq<Vec3i>,
    tris: Seq<Triangle>,
    ray: Ray,
    t_min: Rat,
    max_t: Rat,
) -> bool {
    forall|j: int|
        0 <= j < tris.len() && #[trigger] tri_hit_j(verts, tris, ray, j) ==> !(rat_lt_s(
            t_min.num as int,
            t_min.den as int,
            tri_tn(verts, tris, ray, j),
            tri_td(verts, tris, ray, j),
        ) && rat_le_s(
            tri_tn(verts, tris, ray, j),
            tri_td(verts, tris, ray, j),
            max_t.num as int,
            max_t.den as int,
        ))
}

/// The specification both intersectors meet: a reported hit is real, lies
/// beyond `t_min`, and nothing is hit strictly closer; a miss means nothing
/// is hit beyond `t_min` at all.
pub open spec fn nearest_result(
    verts: Seq<Vec3i>,
    tris: Seq<Triangle>,
    ray: Ray,
    t_min: Rat,
    r: Option<SceneHit>,
) -> bool {
    match r {
        Some(h) => hit_matches(verts, tris, ray, t_min, h) && no_hit_in_range(
            verts,
            tris,
            ray,
            t_min,
            Some(h.t),
        ),
        None => no_hit_in_range(verts, tris, ray, t_min, None),
    }
}

/// Reference nearest-hit query: a linear scan over every triangle.
pub fn intersect_linear(
    verts: &Vec<Vec3i>,
    tris: &Vec<Triangle>,
    ray: &Ray,
    t_min: &Rat,
) -> (r: Option<SceneHit>)
    requires
        scene_wf(verts@, tris@),
        ray.wf(),
        t_min.wf(),
    ensures
        nearest_result(verts@, tris@, *ray, *t_min, r),
{
    scan_span(verts, tris, ray, t_min, 0, tris.len(), None)
}

/// Scan the triangles of one contiguous span, improving a running best hit.
/// On return, no triangle of the span is hit strictly between `t_min` and the
/// result, and the result never gets farther than the best it started from.
fn scan_span(
    verts: &Vec<Vec3i>,
    tris: &Vec<Triangle>,
    ray: &Ray,
    t_min: &Rat,
    first: usize,
    end: usize,
    best0: Option<SceneHit>,
) -> (r: Option<SceneHit>)
    requires
        scene_wf(verts@, tris@),
        ray.wf(),
        t_min.wf(),
        first <= end <= tris@.len(),
        best0 matches Some(h) ==> hit_matches(verts@, tris@, *ray, *t_min, h),
    ensures
        r matches Some(h) ==> hit_matches(verts@, tris@, *ray, *t_min, h),
        best0 matches Some(h0) ==> r matches Some(h) && rat_le_s(
            h.t.num as int,
            h.t.den as int,
            h0.t.num as int,
            h0.t.den as int,
        ),
        best0 is None && r is Some ==> first <= r->Some_0.tri < end,
        forall|k: int|
            first <= k < end && #[trigger] tri_hit_j(verts@, tris@, *ray, k) ==> !(rat_lt_s(
                t_min.num as int,
                t_min.den as int,
                tri_tn(verts@, tris@, *ray, k),
                tri_td(verts@, tris@, *ray, k),
            ) && (r matches Some(h) ==> rat_lt_s(
                tri_tn(verts@, tris@, *ray, k),
                tri_td(verts@, tris@, *ray, k),
                h.t.num as int,
                h.t.den as int,
            ))),
{
    let mut best: Option<SceneHit> = best0;
    let mut j: usize = first;
    while j < end
        invariant
            scene_wf(verts@, tris@),
            ray.wf(),
            t_min.wf(),
            first <= j <= end <= tris@.len(),
            best0 matches Some(h) ==> hit_matches(verts@, tris@, *ray, *t_min, h),
            match best {
                Some(h) => hit_matches(verts@, tris@, *ray, *t_min, h),
                None => true,
            },
            best0 matches Some(h0) ==> best matches Some(h) && rat_le_s(
                h.t.num as int,
                h.t.den as int,
                h0.t.num as int,
                h0.t.den as int,
            ),
            best0 is None && best is Some ==> first <= best->Some_0.tri < end,
            forall|k: int|
                first <= k < j && #[trigger] tri_hit_j(verts@, tris@, *ray, k) ==> !(rat_lt_s(
                    t_min.num as int,
                    t_min.den as int,
                    tri_tn(verts@, tris@, *ray, k),
                    tri_td(verts@, tris@, *ray, k),
                ) && (best matches Some(h) ==> rat_lt_s(
                    tri_tn(verts@, tris@, *ray, k),
                    tri_td(verts@, tris@, *ray, k),
                    h.t.num as int,
                    h.t.den as int,
                ))),
        decreases end - j,
    {
        let tr = tris[j];
        let ghost old_best = best;
        let cand = intersect_triangle(
            ray,
            &verts[tr.i0 as usize],
            &verts[tr.i1 as usize],
            &verts[tr.i2 as usize],
        );
        if let Some(th) = cand {
            let ct = Rat::new(th.t_num, th.t_den);
            let better = match &best {
                Some(h) => rat_lt(&ct, &h.t),
                None => true,
            };
            if rat_lt(t_min, &ct) && better {
                best = Some(SceneHit { tri: j, t: ct, backface: th.backface });
            }
        }
        proof {
            if best != old_best && best0 is Some {
                let h0 = best0->Some_0;
                let hn = best->Some_0;
                let ho = old_best->Some_0;
                crate::ratio::lemma_rat_le_trans(
                    hn.t.num as int,
                    hn.t.den as int,
                    ho.t.num as int,
                    ho.t.den as int,
                    h0.t.num as int,
                    h0.t.den as int,
                );
            }
            assert forall|k: int|
                first <= k < j + 1 && #[trigger] tri_hit_j(verts@, tris@, *ray, k) implies !(rat_lt_s(
                t_min.num as int,
                t_min.den as int,
                tri_tn(verts@, tris@, *ray, k),
                tri_td(verts@, tris@, *ray, k),
            ) && (best matches Some(h) ==> rat_lt_s(
                tri_tn(verts@, tris@, *ray, k),
                tri_td(verts@, tris@, *ray, k),
                h.t.num as int,
                h.t.den as int,
            ))) by {
                let tn = tri_tn(verts@, tris@, *ray, k);
                let td = tri_td(verts@, tris@, *ray, k);
                lemma_hit_den_pos(
                    ray.origin@,
                    ray.dir@,
                    tv0(verts@, tris@, k),
                    tv1(verts@, tris@, k),
                    tv2(verts@, tris@, k),
                );
                if k < j {
                    if best != old_best {
                        // the new best is closer than the old one, so a
                        // triangle excluded before stays excluded
                        if rat_lt_s(t_min.num as int, t_min.den as int, tn, td)
                            && (best matches Some(h) ==> rat_lt_s(
                            tn,
                            td,
                            h.t.num as int,
                            h.t.den as int,
                        )) {
                            let h = best->Some_0;
                            if old_best is Some {
                                let h0 = old_best->Some_0;
                                lemma_rat_lt_trans(
                                    tn,
                                    td,
                                    h.t.num as int,
                                    h.t.den as int,
                                    h0.t.num as int,
                                    h0.t.den as int,
                                );
                            }
                        }
                    }
                }
            }
        }
        j = j + 1;
    }
    best
}

/// Nearest-hit equivalence: any two results that meet the nearest-hit
/// specification — in particular, the hierarchy traversal and the linear
/// scan — agree on whether the ray hits, and report the same exact distance.
pub proof fn lemma_nearest_agree(
    verts: Seq<Vec3i>,
    tris: Seq<Triangle>,
    ray: Ray,
    t_min: Rat,
    r1: Option<SceneHit>,
    r2: Option<SceneHit>,
)
    requires
        nearest_result(verts, tris, ray, t_min, r1),
        nearest_result(verts, tris, ray, t_min, r2),
    ensures
        r1 is Some <==> r2 is Some,
        r1 matches Some(h1) ==> (r2 matches Some(h2) ==> h1.t.num * h2.t.den == h2.t.num
            * h1.t.den),
{
    if r1 is Some && r2 is None {
        let h1 = r1->Some_0;
        assert(tri_hit_j(verts, tris, ray, h1.tri as int));
    }
    if r2 is Some && r1 is None {
        let h2 = r2->Some_0;
        assert(tri_hit_j(verts, tris, ray, h2.tri as int));
    }
    if r1 is Some && r2 is Some {
        let h1 = r1->Some_0;
        let h2 = r2->Some_0;
        assert(tri_hit_j(verts, tris, ray, h1.tri as int));
        assert(tri_hit_j(verts, tris, ray, h2.tri as int));
    }
}

/// A triangle covered by a subtree whose box the slab test rejected cannot
/// be hit in the query range: its hit point would lie inside the rejected
/// box.
proof fn lemma_child_pruned(
    nodes: Seq<BvhNode>,
    verts: Seq<Vec3i>,
    tris: Seq<Triangle>,
    ray: Ray,
    t_min: Rat,
    bopt: Option<Rat>,
    c: int,
    bud: nat,
    j: int,
)
    requires
        node_wf(nodes, verts, tris, c, bud),
        node_covers(nodes, c, j, bud),
        tri_hit_j(verts, tris, ray, j),
        forall|n: int, dn: int|
            !(dn > 0 && #[trigger] rat_point_in_box(n, dn, ray.origin@, ray.dir@, nodes[c].bounds())
                && rat_lt_s(t_min.num as int, t_min.den as int, n, dn) && (bopt matches Some(bb)
                ==> rat_lt_s(n, dn, bb.num as int, bb.den as int))),
    ensures
        !(rat_lt_s(
            t_min.num as int,
            t_min.den as int,
            tri_tn(verts, tris, ray, j),
            tri_td(verts, tris, ray, j),
        ) && (bopt matches Some(bb) ==> rat_lt_s(
            tri_tn(verts, tris, ray, j),
            tri_td(verts, tris, ray, j),
            bb.num as int,
            bb.den as int,
        ))),
{
    lemma_covered_in_bounds(nodes, verts, tris, c, j, bud);
    let p0 = tv0(verts, tris, j);
    let p1 = tv1(verts, tris, j);
    let p2 = tv2(verts, tris, j);
    lemma_hit_den_pos(ray.origin@, ray.dir@, p0, p1, p2);
    lemma_hit_point_in_box(
        ray.origin@,
        ray.dir@,
        p0,
        p1,
        p2,
        nodes[c].bounds().lo@,
        nodes[c].bounds().hi@,
    );
    assert(rat_point_in_box(
        tri_tn(verts, tris, ray, j),
        tri_td(verts, tris, ray, j),
        ray.origin@,
        ray.dir@,
        nodes[c].bounds(),
    ));
}

fn point_in_box_exec(bx: &Aabb, p: &Vec3i) -> (r: bool)
    ensures
        r == bx.contains(p@),
{
    bx.lo.x <= p.x && p.x <= bx.hi.x && bx.lo.y <= p.y && p.y <= bx.hi.y && bx.lo.z <= p.z
        && p.z <= bx.hi.z
}

fn box_in_box_exec(inner: &Aabb, outer: &Aabb) -> (r: bool)
    ensures
        r == box_in_box(*inner, *outer),
{
    outer.lo.x <= inner.lo.x && inner.hi.x <= outer.hi.x && outer.lo.y <= inner.lo.y
        && inner.hi.y <= outer.hi.y && outer.lo.z <= inner.lo.z && inner.hi.z <= outer.hi.z
}

fn box_bounded_exec(bx: &Aabb) -> (r: bool)
    ensures
        r == bx.wf(),
{
    -262144 <= bx.lo.x && bx.lo.x <= 262144 && -262144 <= bx.lo.y && bx.lo.y <= 262144
        && -262144 <= bx.lo.z && bx.lo.z <= 262144 && -262144 <= bx.hi.x && bx.hi.x <= 262144
        && -262144 <= bx.hi.y && bx.hi.y <= 262144 && -262144 <= bx.hi.z && bx.hi.z <= 262144
}

/// Recursive structural check; marks the triangles of every visited leaf.
fn check_node(
    nodes: &Vec<BvhNode>,
    verts: &Vec<Vec3i>,
    tris: &Vec<Triangle>,
    i: usize,
    depth: usize,
    seen: &mut Vec<bool>,
) -> (ok: bool)
    requires
        scene_wf(verts@, tris@),
        old(seen)@.len() == tris@.len(),
    ensures
        final(seen)@.len() == tris@.len(),
        ok == node_wf(nodes@, verts@, tris@, i as int, depth as nat),
        forall|j: int| 0 <= j < tris@.len() && old(seen)@[j] ==> final(seen)@[j],
        ok ==> forall|j: int|
            0 <= j < tris@.len() ==> final(seen)@[j] == (old(seen)@[j] || node_covers(
                nodes@,
                i as int,
                j,
                depth as nat,
            )),
    decreases depth,
{
    if depth == 0 || i >= nodes.len() {
        return false;
    }
    let node = nodes[i];
    match node {
        BvhNode::Leaf { bounds, first, count } => {
            if !box_bounded_exec(&bounds) {
                return false;
            }
            if first > tris.len() || count > tris.len() - first {
                return false;
            }
            let end = first + count;
            let mut j: usize = first;
            while j < end
                invariant
                    scene_wf(verts@, tris@),
                    0 <= i < nodes@.len(),
                    nodes@[i as int] == (BvhNode::Leaf { bounds, first, count }),
                    end == first + count,
                    first <= j <= end,
                    end <= tris@.len(),
                    seen@.len() == tris@.len(),
                    forall|k: int|
                        first <= k < j ==> tri_in_box(verts@, tris@, k, bounds),
                    forall|k: int|
                        0 <= k < tris@.len() ==> seen@[k] == (old(seen)@[k] || first <= k < j),
                decreases first + count - j,
            {
                let t = tris[j];
                let ok0 = point_in_box_exec(&bounds, &verts[t.i0 as usize]);
                let ok1 = point_in_box_exec(&bounds, &verts[t.i1 as usize]);
                let ok2 = point_in_box_exec(&bounds, &verts[t.i2 as usize]);
                if !(ok0 && ok1 && ok2) {
                    proof {
                        assert(!tri_in_box(verts@, tris@, j as int, bounds));
                    }
                    return false;
                }
                seen.set(j, true);
                j = j + 1;
            }
            true
        },
        BvhNode::Interior { bounds, left } => {
            if !box_bounded_exec(&bounds) {
                return false;
            }
            if left <= i || left >= nodes.len() - 1 {
                return false;
            }
            let okl = check_node(nodes, verts, tris, left, depth - 1, seen);
            if !okl {
                return false;
            }
            let okr = check_node(nodes, verts, tris, left + 1, depth - 1, seen);
            if !okr {
                return false;
            }
            let bl = nodes[left];
            let br = nodes[left + 1];
            if !box_in_box_exec(&bl.bounds_ref(), &bounds) {
                return false;
            }
            if !box_in_box_exec(&br.bounds_ref(), &bounds) {
                return false;
            }
            true
        },
    }
}

impl BvhNode {
    /// The node's box, for callers that hold the node by reference.
    pub fn bounds_ref(&self) -> (r: Aabb)
        ensures
            r == self.bounds(),
    {
        match self {
            BvhNode::Leaf { bounds, .. } => *bounds,
            BvhNode::Interior { bounds, .. } => *bounds,
        }
    }
}

/// Powers of three, the weight of one stack entry in the traversal's
/// termination measure.
pub open spec fn pow3(b: nat) -> int
    decreases b,
{
    if b == 0 {
        1
    } else {
        3 * pow3((b - 1) as nat)
    }
}

proof fn lemma_pow3_pos(b: nat)
    ensures
        pow3(b) >= 1,
    decreases b,
{
    if b > 0 {
        lemma_pow3_pos((b - 1) as nat);
    }
}

/// The traversal stack never overflows its fixed capacity: every pending
/// entry carries a positive remaining depth budget that, added to the
/// entry's position, stays within the depth cap — the discipline both
/// traversals maintain — so at most `MAX_DEPTH` entries can be pending.
pub proof fn lemma_traversal_stack_bound(budgets: Seq<nat>)
    requires
        forall|k: int|
            0 <= k < budgets.len() ==> 1 <= #[trigger] budgets[k] && budgets[k] + k <= MAX_DEPTH,
    ensures
        budgets.len() <= MAX_DEPTH,
{
    if budgets.len() > MAX_DEPTH {
        assert(1 <= budgets[MAX_DEPTH as int] && budgets[MAX_DEPTH as int] + (MAX_DEPTH as int)
            <= MAX_DEPTH);
    }
}

/// Termination measure of a traversal stack: the sum of `3^budget` over its
/// entries.
pub open spec fn pot(s: Seq<nat>) -> int
    decreases s.len(),
{
    if s.len() == 0 {
        0
    } else {
        pot(s.drop_last()) + pow3(s.last())
    }
}

proof fn lemma_pot_pos(s: Seq<nat>)
    ensures
        pot(s) >= 0,
    decreases s.len(),
{
    if s.len() > 0 {
        lemma_pot_pos(s.drop_last());
        lemma_pow3_pos(s.last());
    }
}

proof fn lemma_pot_push(s: Seq<nat>, x: nat)
    ensures
        pot(s.push(x)) == pot(s) + pow3(x),
{
    assert(s.push(x).drop_last() =~= s);
    assert(s.push(x).last() == x);
}

impl Bvh {
    /// Check every guarantee the traversal relies on: valid indices,
    /// contiguous children above their parent, bounded depth, leaf spans
    /// inside the triangle array, boxes enclosing their subtrees, and full
    /// coverage of the triangle array by the leaves.
    pub fn validate(&self, verts: &Vec<Vec3i>, tris: &Vec<Triangle>) -> (ok: bool)
        requires
            scene_wf(verts@, tris@),
        ensures
            ok == bvh_wf(self.nodes@, verts@, tris@),
    {
        if self.nodes.len() == 0 {
            return false;
        }
        let mut seen: Vec<bool> = Vec::new();
        let mut k: usize = 0;
        while k < tris.len()
            invariant
                seen@.len() == k,
                k <= tris@.len(),
                forall|j: int| 0 <= j < k ==> !seen@[j],
            decreases tris@.len() - k,
        {
            seen.push(false);
            k = k + 1;
        }
        let ok = check_node(&self.nodes, verts, tris, 0, MAX_DEPTH, &mut seen);
        if !ok {
            return false;
        }
        let mut j: usize = 0;
        while j < tris.len()
            invariant
                seen@.len() == tris@.len(),
                j <= tris@.len(),
                forall|k2: int|
                    0 <= k2 < tris@.len() ==> seen@[k2] == node_covers(
                        self.nodes@,
                        0,
                        k2,
                        MAX_DEPTH as nat,
                    ),
                forall|k2: int|
                    0 <= k2 < j ==> #[trigger] node_covers(self.nodes@, 0, k2, MAX_DEPTH as nat),
            decreases tris@.len() - j,
        {
            if !seen[j] {
                proof {
                    assert(!node_covers(self.nodes@, 0, j as int, MAX_DEPTH as nat));
                }
                return false;
            }
            j = j + 1;
        }
        true
    }

    /// Nearest-hit query by ordered front-to-back descent.  The explicit
    /// stack provably never holds more than `MAX_DEPTH` entries, closer
    /// children are visited first, and a subtree is skipped only when the
    /// slab test shows it cannot contain a closer hit.  The result meets the
    /// same nearest-hit specification as the linear scan.
    pub fn intersect_nearest(
        &self,
        verts: &Vec<Vec3i>,
        tris: &Vec<Triangle>,
        ray: &Ray,
        t_min: &Rat,
    ) -> (r: Option<SceneHit>)
        requires
            scene_wf(verts@, tris@),
            bvh_wf(self.nodes@, verts@, tris@),
            ray.wf(),
            t_min.wf(),
        ensures
            nearest_result(verts@, tris@, *ray, *t_min, r),
    {
        let mut stack: Vec<usize> = Vec::new();
        stack.push(0);
        let ghost mut budgets: Seq<nat> = seq![MAX_DEPTH as nat];
        let mut best: Option<SceneHit> = None;
        proof {
            assert forall|j: int|
                0 <= j < tris@.len() && #[trigger] tri_hit_j(verts@, tris@, *ray, j)
                implies node_covers(
                self.nodes@,
                stack@[0] as int,
                j,
                budgets[0],
            ) by {
                assert(stack@[0] == 0);
                assert(budgets[0] == MAX_DEPTH as nat);
                assert(node_covers(self.nodes@, 0, j, MAX_DEPTH as nat));
            }
        }
        while stack.len() != 0
            invariant
                scene_wf(verts@, tris@),
                ray.wf(),
                t_min.wf(),
                budgets.len() == stack@.len(),
                forall|k: int|
                    0 <= k < stack@.len() ==> {
                        &&& 1 <= #[trigger] budgets[k]
                        &&& budgets[k] + k <= MAX_DEPTH
                        &&& node_wf(self.nodes@, verts@, tris@, stack@[k] as int, budgets[k])
                    },
                stack@.len() <= MAX_DEPTH,
                match best {
                    Some(h) => hit_matches(verts@, tris@, *ray, *t_min, h),
                    None => true,
                },
                forall|j: int|
                    (0 <= j < tris@.len() && #[trigger] tri_hit_j(verts@, tris@, *ray, j)
                        && rat_lt_s(
                        t_min.num as int,
                        t_min.den as int,
                        tri_tn(verts@, tris@, *ray, j),
                        tri_td(verts@, tris@, *ray, j),
                    ) && (best matches Some(h) ==> rat_lt_s(
                        tri_tn(verts@, tris@, *ray, j),
                        tri_td(verts@, tris@, *ray, j),
                        h.t.num as int,
                        h.t.den as int,
                    ))) ==> exists|k: int|
                        0 <= k < stack@.len() && #[trigger] node_covers(
                            self.nodes@,
                            stack@[k] as int,
                            j,
                            budgets[k],
                        ),
            decreases pot(budgets),
        {
            let ghost stack0 = stack@;
            let ghost budgets0 = budgets;
            let ghost len0 = stack@.len() as int;
            let node_index = stack.pop().unwrap();
            let ghost b = budgets.last();
            proof {
                budgets = budgets.drop_last();
                assert(budgets0[len0 - 1] == b);
                assert(1 <= budgets0[len0 - 1] && budgets0[len0 - 1] + (len0 - 1) <= MAX_DEPTH);
                assert(node_wf(self.nodes@, verts@, tris@, node_index as int, b));
                lemma_pot_pos(budgets);
                lemma_pow3_pos(b);
                assert(pot(budgets0) == pot(budgets) + pow3(b));
            }
            let node = self.nodes[node_index];
            match node {
                BvhNode::Leaf { bounds, first, count } => {
                    let ghost best_in = best;
                    let tlen = tris.len();
                    proof {
                        assert(first + count <= tlen);
                    }
                    best = scan_span(verts, tris, ray, t_min, first, first + count, best);
                    proof {
                        if best != best_in && best_in is Some {
                        }
                        assert forall|j: int|
                            (0 <= j < tris@.len() && #[trigger] tri_hit_j(verts@, tris@, *ray, j)
                                && rat_lt_s(
                                t_min.num as int,
                                t_min.den as int,
                                tri_tn(verts@, tris@, *ray, j),
                                tri_td(verts@, tris@, *ray, j),
                            ) && (best matches Some(h) ==> rat_lt_s(
                                tri_tn(verts@, tris@, *ray, j),
                                tri_td(verts@, tris@, *ray, j),
                                h.t.num as int,
                                h.t.den as int,
                            ))) implies exists|k: int|
                                0 <= k < stack@.len() && #[trigger] node_covers(
                                    self.nodes@,
                                    stack@[k] as int,
                                    j,
                                    budgets[k],
                                ) by {
                            let tn = tri_tn(verts@, tris@, *ray, j);
                            let td = tri_td(verts@, tris@, *ray, j);
                            lemma_hit_den_pos(
                                ray.origin@,
                                ray.dir@,
                                tv0(verts@, tris@, j),
                                tv1(verts@, tris@, j),
                                tv2(verts@, tris@, j),
                            );
                            // the hypothesis also held against the best at
                            // loop entry, which the new best cannot exceed
                            if best_in is Some {
                                let h0 = best_in->Some_0;
                                let hn = best->Some_0;
                                lemma_rat_lt_le_trans(
                                    tn,
                                    td,
                                    hn.t.num as int,
                                    hn.t.den as int,
                                    h0.t.num as int,
                                    h0.t.den as int,
                                );
                            }
                            let k = choose|k: int|
                                0 <= k < len0 && #[trigger] node_covers(
                                    self.nodes@,
                                    stack0[k] as int,
                                    j,
                                    budgets0[k],
                                );
                            if k < len0 - 1 {
                                assert(stack@[k] == stack0[k]);
                                assert(node_covers(self.nodes@, stack@[k] as int, j, budgets[k]));
                            } else {
                                // the witness was this leaf: the span scan
                                // has excluded every hit closer than best
                                assert(first <= j < first + count);
                                assert(false);
                            }
                        }
                    }
                },
                BvhNode::Interior { bounds, left } => {
                    let nlen = self.nodes.len();
                    proof {
                        assert(left + 1 < nlen);
                        assert(node_wf(self.nodes@, verts@, tris@, left as int, (b - 1) as nat));
                        assert(node_wf(self.nodes@, verts@, tris@, left + 1, (b - 1) as nat));
                        assert(b >= 2);
                    }
                    let nl = self.nodes[left];
                    let nr = self.nodes[left + 1];
                    let lb = nl.bounds_ref();
                    let rb = nr.bounds_ref();
                    let bopt = match &best {
                        Some(h) => Some(h.t),
                        None => None,
                    };
                    let el = aabb_enter(&lb, ray, t_min, bopt);
                    let er = aabb_enter(&rb, ray, t_min, bopt);
                    let ghost mut lpos: int = -1;
                    let ghost mut rpos: int = -1;
                    match (el, er) {
                        (None, None) => {},
                        (Some(_), None) => {
                            assert(stack.len() < MAX_DEPTH);
                            stack.push(left);
                            proof {
                                lemma_pot_push(budgets, (b - 1) as nat);
                                budgets = budgets.push((b - 1) as nat);
                                lemma_pow3_pos((b - 1) as nat);
                                lpos = len0 - 1;
                                assert(stack@[lpos] == left && budgets[lpos] == (b - 1) as nat);
                            }
                        },
                        (None, Some(_)) => {
                            assert(stack.len() < MAX_DEPTH);
                            stack.push(left + 1);
                            proof {
                                lemma_pot_push(budgets, (b - 1) as nat);
                                budgets = budgets.push((b - 1) as nat);
                                lemma_pow3_pos((b - 1) as nat);
                                rpos = len0 - 1;
                                assert(stack@[rpos] == left + 1 && budgets[rpos] == (b - 1) as nat);
                            }
                        },
                        (Some(ea), Some(eb)) => {
                            let right_first = rat_lt(&eb, &ea);
                            if right_first {
                                assert(stack.len() < MAX_DEPTH);
                                stack.push(left);
                                proof {
                                    lemma_pot_push(budgets, (b - 1) as nat);
                                    budgets = budgets.push((b - 1) as nat);
                                }
                                assert(stack.len() < MAX_DEPTH);
                                stack.push(left + 1);
                                proof {
                                    lemma_pot_push(budgets, (b - 1) as nat);
                                    budgets = budgets.push((b - 1) as nat);
                                    lemma_pow3_pos((b - 1) as nat);
                                    lpos = len0 - 1;
                                    rpos = len0;
                                    assert(stack@[lpos] == left && budgets[lpos] == (b - 1) as nat);
                                    assert(stack@[rpos] == left + 1 && budgets[rpos] == (b - 1)
                                        as nat);
                                }
                            } else {
                                assert(stack.len() < MAX_DEPTH);
                                stack.push(left + 1);
                                proof {
                                    lemma_pot_push(budgets, (b - 1) as nat);
                                    budgets = budgets.push((b - 1) as nat);
                                }
                                assert(stack.len() < MAX_DEPTH);
                                stack.push(left);
                                proof {
                                    lemma_pot_push(budgets, (b - 1) as nat);
                                    budgets = budgets.push((b - 1) as nat);
                                    lemma_pow3_pos((b - 1) as nat);
                                    rpos = len0 - 1;
                                    lpos = len0;
                                    assert(stack@[lpos] == left && budgets[lpos] == (b - 1) as nat);
                                    assert(stack@[rpos] == left + 1 && budgets[rpos] == (b - 1)
                                        as nat);
                                }
                            }
                        },
                    }
                    proof {
                        assert(pow3(b) == 3 * pow3((b - 1) as nat));
                        lemma_pow3_pos((b - 1) as nat);
                        assert(pot(budgets) < pot(budgets0));
                        lemma_traversal_stack_bound(budgets);
                        assert forall|j: int|
                            (0 <= j < tris@.len() && #[trigger] tri_hit_j(verts@, tris@, *ray, j)
                                && rat_lt_s(
                                t_min.num as int,
                                t_min.den as int,
                                tri_tn(verts@, tris@, *ray, j),
                                tri_td(verts@, tris@, *ray, j),
                            ) && (best matches Some(h) ==> rat_lt_s(
                                tri_tn(verts@, tris@, *ray, j),
                                tri_td(verts@, tris@, *ray, j),
                                h.t.num as int,
                                h.t.den as int,
                            ))) implies exists|k: int|
                                0 <= k < stack@.len() && #[trigger] node_covers(
                                    self.nodes@,
                                    stack@[k] as int,
                                    j,
                                    budgets[k],
                                ) by {
                            let k = choose|k: int|
                                0 <= k < len0 && #[trigger] node_covers(
                                    self.nodes@,
                                    stack0[k] as int,
                                    j,
                                    budgets0[k],
                                );
                            if k < len0 - 1 {
                                assert(stack@[k] == stack0[k]);
                                assert(node_covers(self.nodes@, stack@[k] as int, j, budgets[k]));
                            } else {
                                // the witness was this interior node: the
                                // covering child is either on the stack now
                                // or its box was rejected by the slab test
                                assert(node_covers(self.nodes@, node_index as int, j, b));
                                if node_covers(self.nodes@, left as int, j, (b - 1) as nat) {
                                    if el is None {
                                        lemma_child_pruned(
                                            self.nodes@,
                                            verts@,
                                            tris@,
                                            *ray,
                                            *t_min,
                                            bopt,
                                            left as int,
                                            (b - 1) as nat,
                                            j,
                                        );
                                    } else {
                                        assert(node_covers(
                                            self.nodes@,
                                            stack@[lpos] as int,
                                            j,
                                            budgets[lpos],
                                        ));
                                    }
                                } else {
                                    assert(node_covers(
                                        self.nodes@,
                                        left + 1,
                                        j,
                                        (b - 1) as nat,
                                    ));
                                    if er is None {
                                        lemma_child_pruned(
                                            self.nodes@,
                                            verts@,
                                            tris@,
                                            *ray,
                                            *t_min,
                                            bopt,
                                            left + 1,
                                            (b - 1) as nat,
                                            j,
                                        );
                                    } else {
                                        assert(node_covers(
                                            self.nodes@,
                                            stack@[rpos] as int,
                                            j,
                                            budgets[rpos],
                                        ));
                                    }
                                }
                            }
                        }
                    }
                },
            }
        }
        best
    }

    /// Any-hit (shadow) query: returns some hit with a distance in
    /// `(t_min, max_t]` if one exists, stopping at the first one found; a
    /// returned hit never exceeds the bound, and a miss means no triangle is
    /// hit in the range.
    pub fn intersect_any(
        &self,
        verts: &Vec<Vec3i>,
        tris: &Vec<Triangle>,
        ray: &Ray,
        t_min: &Rat,
        max_t: &Rat,
    ) -> (r: Option<SceneHit>)
        requires
            scene_wf(verts@, tris@),
            bvh_wf(self.nodes@, verts@, tris@),
            ray.wf(),
            t_min.wf(),
            max_t.wf(),
        ensures
            r matches Some(h) ==> hit_matches(verts@, tris@, *ray, *t_min, h) && rat_le_s(
                h.t.num as int,
                h.t.den as int,
                max_t.num as int,
                max_t.den as int,
            ),
            r is None ==> no_hit_upto(verts@, tris@, *ray, *t_min, *max_t),
    {
        let mut stack: Vec<usize> = Vec::new();
        stack.push(0);
        let ghost mut budgets: Seq<nat> = seq![MAX_DEPTH as nat];
        proof {
            assert forall|j: int|
                0 <= j < tris@.len() && #[trigger] tri_hit_j(verts@, tris@, *ray, j)
                implies node_covers(
                self.nodes@,
                stack@[0] as int,
                j,
                budgets[0],
            ) by {
                assert(stack@[0] == 0);
                assert(budgets[0] == MAX_DEPTH as nat);
                assert(node_covers(self.nodes@, 0, j, MAX_DEPTH as nat));
            }
        }
        while stack.len() != 0
            invariant
                scene_wf(verts@, tris@),
                ray.wf(),
                t_min.wf(),
                max_t.wf(),
                budgets.len() == stack@.len(),
                forall|k: int|
                    0 <= k < stack@.len() ==> {
                        &&& 1 <= #[trigger] budgets[k]
                        &&& budgets[k] + k <= MAX_DEPTH
                        &&& node_wf(self.nodes@, verts@, tris@, stack@[k] as int, budgets[k])
                    },
                stack@.len() <= MAX_DEPTH,
                forall|j: int|
                    (0 <= j < tris@.len() && #[trigger] tri_hit_j(verts@, tris@, *ray, j)
                        && rat_lt_s(
                        t_min.num as int,
                        t_min.den as int,
                        tri_tn(verts@, tris@, *ray, j),
                        tri_td(verts@, tris@, *ray, j),
                    ) && rat_le_s(
                        tri_tn(verts@, tris@, *ray, j),
                        tri_td(verts@, tris@, *ray, j),
                        max_t.num as int,
                        max_t.den as int,
                    )) ==> exists|k: int|
                        0 <= k < stack@.len() && #[trigger] node_covers(
                            self.nodes@,
                            stack@[k] as int,
                            j,
                            budgets[k],
                        ),
            decreases pot(budgets),
        {
            let ghost stack0 = stack@;
            let ghost budgets0 = budgets;
            let ghost len0 = stack@.len() as int;
            let node_index = stack.pop().unwrap();
            let ghost b = budgets.last();
            proof {
                budgets = budgets.drop_last();
                assert(budgets0[len0 - 1] == b);
                assert(1 <= budgets0[len0 - 1] && budgets0[len0 - 1] + (len0 - 1) <= MAX_DEPTH);
                assert(node_wf(self.nodes@, verts@, tris@, node_index as int, b));
                lemma_pot_pos(budgets);
                lemma_pow3_pos(b);
                assert(pot(budgets0) == pot(budgets) + pow3(b));
            }
            let node = self.nodes[node_index];
            match node {
                BvhNode::Leaf { bounds, first, count } => {
                    let tlen = tris.len();
                    proof {
                        assert(first + count <= tlen);
                    }
                    let end = first + count;
                    let mut jj: usize = first;
                    while jj < end
                        invariant
                            scene_wf(verts@, tris@),
                            ray.wf(),
                            t_min.wf(),
                            max_t.wf(),
                            first <= jj <= end <= tris@.len(),
                            forall|k: int|
                                first <= k < jj && #[trigger] tri_hit_j(verts@, tris@, *ray, k)
                                    ==> !(rat_lt_s(
                                    t_min.num as int,
                                    t_min.den as int,
                                    tri_tn(verts@, tris@, *ray, k),
                                    tri_td(verts@, tris@, *ray, k),
                                ) && rat_le_s(
                                    tri_tn(verts@, tris@, *ray, k),
                                    tri_td(verts@, tris@, *ray, k),
                                    max_t.num as int,
                                    max_t.den as int,
                                )),
                        decreases end - jj,
                    {
                        let tr = tris[jj];
                        let cand = intersect_triangle(
                            ray,
                            &verts[tr.i0 as usize],
                            &verts[tr.i1 as usize],
                            &verts[tr.i2 as usize],
                        );
                        if let Some(th) = cand {
                            let ct = Rat::new(th.t_num, th.t_den);
                            if rat_lt(t_min, &ct) && rat_le(&ct, max_t) {
                                return Some(SceneHit { tri: jj, t: ct, backface: th.backface });
                            }
                        }
                        jj = jj + 1;
                    }
                    proof {
                        assert forall|j: int|
                            (0 <= j < tris@.len() && #[trigger] tri_hit_j(verts@, tris@, *ray, j)
                                && rat_lt_s(
                                t_min.num as int,
                                t_min.den as int,
                                tri_tn(verts@, tris@, *ray, j),
                                tri_td(verts@, tris@, *ray, j),
                            ) && rat_le_s(
                                tri_tn(verts@, tris@, *ray, j),
                                tri_td(verts@, tris@, *ray, j),
                                max_t.num as int,
                                max_t.den as int,
                            )) implies exists|k: int|
                                0 <= k < stack@.len() && #[trigger] node_covers(
                                    self.nodes@,
                                    stack@[k] as int,
                                    j,
                                    budgets[k],
                                ) by {
                            let k = choose|k: int|
                                0 <= k < len0 && #[trigger] node_covers(
                                    self.nodes@,
                                    stack0[k] as int,
                                    j,
                                    budgets0[k],
                                );
                            if k < len0 - 1 {
                                assert(stack@[k] == stack0[k]);
                                assert(node_covers(self.nodes@, stack@[k] as int, j, budgets[k]));
                            } else {
                                assert(first <= j < end);
                                assert(false);
                            }
                        }
                    }
                },
                BvhNode::Interior { bounds, left } => {
                    let nlen = self.nodes.len();
                    proof {
                        assert(left + 1 < nlen);
                        assert(node_wf(self.nodes@, verts@, tris@, left as int, (b - 1) as nat));
                        assert(node_wf(self.nodes@, verts@, tris@, left + 1, (b - 1) as nat));
                        assert(b >= 2);
                    }
                    let nl = self.nodes[left];
                    let nr = self.nodes[left + 1];
                    let lb = nl.bounds_ref();
                    let rb = nr.bounds_ref();
                    let el = aabb_enter(&lb, ray, t_min, None);
                    let er = aabb_enter(&rb, ray, t_min, None);
                    let ghost mut lpos: int = -1;
                    let ghost mut rpos: int = -1;
                    match (el, er) {
                        (None, None) => {},
                        (Some(_), None) => {
                            assert(stack.len() < MAX_DEPTH);
                            stack.push(left);
                            proof {
                                lemma_pot_push(budgets, (b - 1) as nat);
                                budgets = budgets.push((b - 1) as nat);
                                lemma_pow3_pos((b - 1) as nat);
                                lpos = len0 - 1;
                                assert(stack@[lpos] == left && budgets[lpos] == (b - 1) as nat);
                            }
                        },
                        (None, Some(_)) => {
                            assert(stack.len() < MAX_DEPTH);
                            stack.push(left + 1);
                            proof {
                                lemma_pot_push(budgets, (b - 1) as nat);
                                budgets = budgets.push((b - 1) as nat);
                                lemma_pow3_pos((b - 1) as nat);
                                rpos = len0 - 1;
                                assert(stack@[rpos] == left + 1 && budgets[rpos] == (b - 1) as nat);
                            }
                        },
                        (Some(ea), Some(eb)) => {
                            let right_first = rat_lt(&eb, &ea);
                            if right_first {
                                assert(stack.len() < MAX_DEPTH);
                                stack.push(left);
                                proof {
                                    lemma_pot_push(budgets, (b - 1) as nat);
                                    budgets = budgets.push((b - 1) as nat);
                                }
                                assert(stack.len() < MAX_DEPTH);
                                stack.push(left + 1);
                                proof {
                                    lemma_pot_push(budgets, (b - 1) as nat);
                                    budgets = budgets.push((b - 1) as nat);
                                    lemma_pow3_pos((b - 1) as nat);
                                    lpos = len0 - 1;
                                    rpos = len0;
                                    assert(stack@[lpos] == left && budgets[lpos] == (b - 1) as nat);
                                    assert(stack@[rpos] == left + 1 && budgets[rpos] == (b - 1)
                                        as nat);
                                }
                            } else {
                                assert(stack.len() < MAX_DEPTH);
                                stack.push(left + 1);
                                proof {
                                    lemma_pot_push(budgets, (b - 1) as nat);
                                    budgets = budgets.push((b - 1) as nat);
                                }
                                assert(stack.len() < MAX_DEPTH);
                                stack.push(left);
                                proof {
                                    lemma_pot_push(budgets, (b - 1) as nat);
                                    budgets = budgets.push((b - 1) as nat);
                                    lemma_pow3_pos((b - 1) as nat);
                                    rpos = len0 - 1;
                                    lpos = len0;
                                    assert(stack@[lpos] == left && budgets[lpos] == (b - 1) as nat);
                                    assert(stack@[rpos] == left + 1 && budgets[rpos] == (b - 1)
                                        as nat);
                                }
                            }
                        },
                    }
                    proof {
                        assert(pow3(b) == 3 * pow3((b - 1) as nat));
                        lemma_pow3_pos((b - 1) as nat);
                        assert(pot(budgets) < pot(budgets0));
                        lemma_traversal_stack_bound(budgets);
                        assert forall|j: int|
                            (0 <= j < tris@.len() && #[trigger] tri_hit_j(verts@, tris@, *ray, j)
                                && rat_lt_s(
                                t_min.num as int,
                                t_min.den as int,
                                tri_tn(verts@, tris@, *ray, j),
                                tri_td(verts@, tris@, *ray, j),
                            ) && rat_le_s(
                                tri_tn(verts@, tris@, *ray, j),
                                tri_td(verts@, tris@, *ray, j),
                                max_t.num as int,
                                max_t.den as int,
                            )) implies exists|k: int|
                                0 <= k < stack@.len() && #[trigger] node_covers(
                                    self.nodes@,
                                    stack@[k] as int,
                                    j,
                                    budgets[k],
                                ) by {
                            let k = choose|k: int|
                                0 <= k < len0 && #[trigger] node_covers(
                                    self.nodes@,
                                    stack0[k] as int,
                                    j,
                                    budgets0[k],
                                );
                            if k < len0 - 1 {
                                assert(stack@[k] == stack0[k]);
                                assert(node_covers(self.nodes@, stack@[k] as int, j, budgets[k]));
                            } else {
                                assert(node_covers(self.nodes@, node_index as int, j, b));
                                if node_covers(self.nodes@, left as int, j, (b - 1) as nat) {
                                    if el is None {
                                        lemma_child_pruned(
                                            self.nodes@,
                                            verts@,
                                            tris@,
                                            *ray,
                                            *t_min,
                                            None,
                                            left as int,
                                            (b - 1) as nat,
                                            j,
                                        );
                                    } else {
                                        assert(node_covers(
                                            self.nodes@,
                                            stack@[lpos] as int,
                                            j,
                                            budgets[lpos],
                                        ));
                                    }
                                } else {
                                    assert(node_covers(self.nodes@, left + 1, j, (b - 1) as nat));
                                    if er is None {
                                        lemma_child_pruned(
                                            self.nodes@,
                                            verts@,
                                            tris@,
                                            *ray,
                                            *t_min,
                                            None,
                                            left + 1,
                                            (b - 1) as nat,
                                            j,
                                        );
                                    } else {
                                        assert(node_covers(
                                            self.nodes@,
                                            stack@[rpos] as int,
                                            j,
                                            budgets[rpos],
                                        ));
                                    }
                                }
                            }
                        }
                    }
                },
            }
        }
        None
    }
}

} // verus!
