use raycore::bvh::{Bvh, BvhNode, SceneHit, Triangle, intersect_linear};
use raycore::aabb::{Aabb, aabb_enter};
use raycore::ratio::Rat;
use raycore::tri::{Ray, intersect_triangle};
use raycore::integrate::wrap_uv;
use raycore::FX_ONE;
use raycore::vec3::Vec3i;

fn v(x: i64, y: i64, z: i64) -> Vec3i {
    Vec3i::new(x, y, z)
}

fn t_equals(h: &SceneHit, num: i64, den: i64) -> bool {
    // exact rational equality by cross-multiplication
    (h.t.num as i128) * (den as i128) == (num as i128) * (h.t.den as i128)
}

#[test]
fn triangle_hit_straight_on() {
    // plane z = -2048, ray along -z from the origin: t = 2 exactly
    let ray = Ray { origin: v(0, 0, 0), dir: v(0, 0, -1024) };
    let a = v(-1024, -1024, -2048);
    let b = v(1024, -1024, -2048);
    let c = v(0, 1024, -2048);
    let h = intersect_triangle(&ray, &a, &b, &c).expect("hit");
    assert!(!h.backface);
    assert_eq!((h.t_num as i128) * 1, 2 * (h.t_den as i128));
}

#[test]
fn triangle_hit_reversed_winding_is_backface() {
    let ray = Ray { origin: v(0, 0, 0), dir: v(0, 0, -1024) };
    let a = v(-1024, -1024, -2048);
    let b = v(1024, -1024, -2048);
    let c = v(0, 1024, -2048);
    let h = intersect_triangle(&ray, &a, &c, &b).expect("hit");
    assert!(h.backface);
}

#[test]
fn triangle_miss_to_the_side() {
    let ray = Ray { origin: v(8192, 8192, 0), dir: v(0, 0, -1024) };
    let a = v(-1024, -1024, -2048);
    let b = v(1024, -1024, -2048);
    let c = v(0, 1024, -2048);
    assert!(intersect_triangle(&ray, &a, &b, &c).is_none());
}

#[test]
fn triangle_behind_origin_misses() {
    let ray = Ray { origin: v(0, 0, -4096), dir: v(0, 0, -1024) };
    let a = v(-1024, -1024, -2048);
    let b = v(1024, -1024, -2048);
    let c = v(0, 1024, -2048);
    // the hit parameter would be negative: rejected
    assert!(intersect_triangle(&ray, &a, &b, &c).is_none());
}

#[test]
fn degenerate_triangle_misses() {
    let ray = Ray { origin: v(0, 0, 0), dir: v(0, 0, -1024) };
    let a = v(-1024, 0, -2048);
    let b = v(1024, 0, -2048);
    let c = v(0, 0, -2048);
    assert!(intersect_triangle(&ray, &a, &b, &c).is_none());
}

fn two_triangle_scene() -> (Vec<Vec3i>, Vec<Triangle>, Bvh) {
    // triangle 0 at z = -2048 (t = 2), triangle 1 at z = -4096 (t = 4)
    let verts = vec![
        v(-1024, -1024, -2048),
        v(1024, -1024, -2048),
        v(0, 1024, -2048),
        v(-1024, -1024, -4096),
        v(1024, -1024, -4096),
        v(0, 1024, -4096),
    ];
    let tris = vec![
        Triangle { i0: 0, i1: 1, i2: 2, m: 0 },
        Triangle { i0: 3, i1: 4, i2: 5, m: 1 },
    ];
    let near_box = Aabb { lo: v(-1024, -1024, -2048), hi: v(1024, 1024, -2048) };
    let far_box = Aabb { lo: v(-1024, -1024, -4096), hi: v(1024, 1024, -4096) };
    let root_box = Aabb { lo: v(-1024, -1024, -4096), hi: v(1024, 1024, -2048) };
    let nodes = vec![
        BvhNode::Interior { bounds: root_box, left: 1 },
        BvhNode::Leaf { bounds: near_box, first: 0, count: 1 },
        BvhNode::Leaf { bounds: far_box, first: 1, count: 1 },
    ];
    (verts, tris, Bvh { nodes })
}

#[test]
fn validate_accepts_sound_tree() {
    let (verts, tris, bvh) = two_triangle_scene();
    assert!(bvh.validate(&verts, &tris));
}

#[test]
fn validate_rejects_child_below_parent() {
    let (verts, tris, mut bvh) = two_triangle_scene();
    let bounds = Aabb { lo: v(-1024, -1024, -4096), hi: v(1024, 1024, -2048) };
    bvh.nodes[0] = BvhNode::Interior { bounds, left: 0 };
    assert!(!bvh.validate(&verts, &tris));
}

#[test]
fn validate_rejects_box_not_holding_vertices() {
    let (verts, tris, mut bvh) = two_triangle_scene();
    let tiny = Aabb { lo: v(0, 0, -2048), hi: v(0, 0, -2048) };
    bvh.nodes[1] = BvhNode::Leaf { bounds: tiny, first: 0, count: 1 };
    assert!(!bvh.validate(&verts, &tris));
}

#[test]
fn validate_rejects_uncovered_triangle() {
    let (verts, tris, mut bvh) = two_triangle_scene();
    let far_box = Aabb { lo: v(-1024, -1024, -4096), hi: v(1024, 1024, -4096) };
    // both leaves point at triangle 1; triangle 0 is never covered
    bvh.nodes[1] = BvhNode::Leaf { bounds: far_box, first: 1, count: 1 };
    assert!(!bvh.validate(&verts, &tris));
}

#[test]
fn nearest_equals_linear_scan() {
    let (verts, tris, bvh) = two_triangle_scene();
    assert!(bvh.validate(&verts, &tris));
    let t_min = Rat::new(1, 1024);
    let dirs = [
        v(0, 0, -1024),
        v(100, 50, -1024),
        v(-70, 33, -997),
        v(0, 0, 1024),
        v(512, 512, -512),
    ];
    for d in dirs.iter() {
        let ray = Ray { origin: v(0, 0, 0), dir: *d };
        let from_tree = bvh.intersect_nearest(&verts, &tris, &ray, &t_min);
        let from_scan = intersect_linear(&verts, &tris, &ray, &t_min);
        match (from_tree, from_scan) {
            (None, None) => {},
            (Some(a), Some(b)) => {
                assert_eq!(a.tri, b.tri);
                assert!(
                    (a.t.num as i128) * (b.t.den as i128) == (b.t.num as i128) * (a.t.den as i128)
                );
                assert_eq!(a.backface, b.backface);
            },
            _ => panic!("tree and scan disagree"),
        }
    }
}

#[test]
fn nearest_picks_closer_triangle() {
    let (verts, tris, bvh) = two_triangle_scene();
    let t_min = Rat::new(1, 1024);
    let ray = Ray { origin: v(0, 0, 0), dir: v(0, 0, -1024) };
    let h = bvh.intersect_nearest(&verts, &tris, &ray, &t_min).expect("hit");
    assert_eq!(h.tri, 0);
    assert!(t_equals(&h, 2, 1));
}

#[test]
fn any_hit_respects_upper_bound() {
    let (verts, tris, bvh) = two_triangle_scene();
    let t_min = Rat::new(1, 1024);
    let ray = Ray { origin: v(0, 0, 0), dir: v(0, 0, -1024) };
    // bound below the first hit: nothing may be reported
    let below = Rat::new(3, 2);
    assert!(bvh.intersect_any(&verts, &tris, &ray, &t_min, &below).is_none());
    // bound between the hits: only the near triangle qualifies
    let between = Rat::new(3, 1);
    let h = bvh.intersect_any(&verts, &tris, &ray, &t_min, &between).expect("hit");
    assert_eq!(h.tri, 0);
    // the reported distance never exceeds the bound
    assert!((h.t.num as i128) * 1 <= 3 * (h.t.den as i128));
}

#[test]
fn shadow_ray_finds_occluder() {
    // a surface at the origin, a light at z = -4096, an occluder at z = -2048
    let (verts, tris, bvh) = two_triangle_scene();
    let t_min = Rat::new(1, 1024);
    let toward_light = Ray { origin: v(0, 0, 0), dir: v(0, 0, -1024) };
    let just_short_of_light = Rat::new(4095, 1024);
    let hit = bvh.intersect_any(&verts, &tris, &toward_light, &t_min, &just_short_of_light);
    assert!(hit.is_some());
    assert_eq!(hit.unwrap().tri, 0);
}

#[test]
fn empty_scene_misses_everything() {
    let verts: Vec<Vec3i> = Vec::new();
    let tris: Vec<Triangle> = Vec::new();
    let zero = Aabb { lo: v(0, 0, 0), hi: v(0, 0, 0) };
    let bvh = Bvh { nodes: vec![BvhNode::Leaf { bounds: zero, first: 0, count: 0 }] };
    assert!(bvh.validate(&verts, &tris));
    let t_min = Rat::new(1, 1024);
    let ray = Ray { origin: v(0, 0, 0), dir: v(0, 0, -1024) };
    assert!(bvh.intersect_nearest(&verts, &tris, &ray, &t_min).is_none());
    assert!(intersect_linear(&verts, &tris, &ray, &t_min).is_none());
}

#[test]
fn t_min_guard_suppresses_self_intersection() {
    let (verts, tris, bvh) = two_triangle_scene();
    // a guard larger than the first hit distance hides that triangle
    let big_guard = Rat::new(3, 1);
    let ray = Ray { origin: v(0, 0, 0), dir: v(0, 0, -1024) };
    let h = bvh.intersect_nearest(&verts, &tris, &ray, &big_guard).expect("hit");
    assert_eq!(h.tri, 1);
}

#[test]
fn barycentrics_are_exact_at_known_points() {
    // aim at vertex b of the plane triangle: u = 1, v = 0 exactly
    let ray = Ray { origin: v(1024, -1024, 0), dir: v(0, 0, -1024) };
    let a = v(-1024, -1024, -2048);
    let b = v(1024, -1024, -2048);
    let c = v(0, 1024, -2048);
    let h = intersect_triangle(&ray, &a, &b, &c).expect("hit");
    assert_eq!(h.u_num, h.t_den);
    assert_eq!(h.v_num, 0);
    // aim at the midpoint of edge bc: u = v = 1/2
    let mid = Ray { origin: v(512, 0, 0), dir: v(0, 0, -1024) };
    let h2 = intersect_triangle(&mid, &a, &b, &c).expect("hit");
    assert_eq!(2 * h2.u_num, h2.t_den);
    assert_eq!(2 * h2.v_num, h2.t_den);
}

#[test]
fn uv_wrap_keeps_unit_interval() {
    assert_eq!(wrap_uv(0), 0);
    assert_eq!(wrap_uv(FX_ONE), FX_ONE);
    assert_eq!(wrap_uv(FX_ONE + 1), 1);
    assert_eq!(wrap_uv(3 * FX_ONE + 7), 7);
    assert_eq!(wrap_uv(-1), FX_ONE - 1);
    assert_eq!(wrap_uv(-FX_ONE), 0);
}

#[test]
fn slab_entry_distance_is_a_lower_bound() {
    // box spanning z in [-4096, -2048] straight ahead: entry at t = 2
    let bx = Aabb { lo: v(-1024, -1024, -4096), hi: v(1024, 1024, -2048) };
    let ray = Ray { origin: v(0, 0, 0), dir: v(0, 0, -1024) };
    let t_min = Rat::new(1, 1024);
    let e = aabb_enter(&bx, &ray, &t_min, None).expect("box is ahead");
    assert_eq!((e.num as i128) * 1, 2 * (e.den as i128));
    // a box strictly behind the range is rejected
    let behind = Aabb { lo: v(-1024, -1024, 2048), hi: v(1024, 1024, 4096) };
    assert!(aabb_enter(&behind, &ray, &t_min, None).is_none());
    // a box beyond the current best hit is rejected
    let best = Some(Rat::new(3, 2));
    assert!(aabb_enter(&bx, &ray, &t_min, best).is_none());
}
