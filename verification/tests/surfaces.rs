use raycore::material::Fx4;
use raycore::surface::{
    VertexData, bitangent, interpolate_attr, material_channel, remap_normal, sample_atlas,
    tbn_apply,
};
use raycore::vec3::Vec3i;
use raycore::bvh::check_scene;
use raycore::bvh::Triangle;
use raycore::FX_ONE;

#[test]
fn interpolation_at_corners_and_midpoints() {
    // at vertex a (u = v = 0) the blend is a; at b (u = 1) it is b
    assert_eq!(interpolate_attr(100, 200, 300, 0, 0, 7), 100);
    assert_eq!(interpolate_attr(100, 200, 300, 7, 0, 7), 200);
    assert_eq!(interpolate_attr(100, 200, 300, 0, 7, 7), 300);
    // midpoint of the bc edge
    assert_eq!(interpolate_attr(0, 100, 200, 1, 1, 2), 150);
    // rounding is toward minus infinity
    assert_eq!(interpolate_attr(0, 1, 0, 1, 0, 2), 0);
    assert_eq!(interpolate_attr(-1, 0, 0, 1, 0, 2), -1);
}

fn flat(v: i64) -> Fx4 {
    Fx4 { x: v, y: v, z: v, w: v }
}

#[test]
fn atlas_fetch_interpolates_between_texels() {
    // a 2x1 atlas: black and white; u = 0.5 lands exactly between the
    // texel centers scaled by width, giving the left texel with zero blend
    let texels = vec![flat(0), flat(FX_ONE)];
    let at = |u: i64, v: i64| sample_atlas(&texels, 2, 1, u, v);
    // u = 0: texel 0 exactly
    assert_eq!(at(0, 0).x, 0);
    // u = 0.5: scaled coordinate 1.0, texel 1 with zero fraction
    assert_eq!(at(FX_ONE / 2, 0).x, FX_ONE);
    // u = 0.25: scaled coordinate 0.5, an even mix
    assert_eq!(at(FX_ONE / 4, 0).x, FX_ONE / 2);
    // u = 1: scaled coordinate 2 wraps to texel 0
    assert_eq!(at(FX_ONE, 0).x, 0);
}

#[test]
fn material_channel_selects_constant_or_texture() {
    let texels = vec![flat(1000), flat(3000)];
    let constant = Fx4 { x: 7, y: 8, z: 9, w: 10 };
    let r = material_channel(constant, false, &texels, 2, 1, 0, 0);
    assert_eq!(r, constant);
    // full-atlas rectangle at u = 0 fetches the first texel
    let rect = Fx4 { x: 0, y: 0, z: FX_ONE, w: FX_ONE };
    let t = material_channel(rect, true, &texels, 2, 1, 0, 0);
    assert_eq!(t.x, 1000);
}

#[test]
fn normal_remap_covers_signed_range() {
    assert_eq!(remap_normal(0), -FX_ONE);
    assert_eq!(remap_normal(FX_ONE / 2), 0);
    assert_eq!(remap_normal(FX_ONE), FX_ONE);
}

#[test]
fn tangent_frame_transform_on_the_identity_frame() {
    let t = Vec3i::new(FX_ONE, 0, 0);
    let n = Vec3i::new(0, FX_ONE, 0);
    let b = bitangent(&t, &n);
    // x cross y = z at unit scale
    assert_eq!((b.x, b.y, b.z), (0, 0, FX_ONE));
    let s = Vec3i::new(1000, 2000, 3000);
    let w = tbn_apply(&t, &b, &n, &s);
    // the identity frame permutes the sample into (x, z, y)
    assert_eq!((w.x, w.y, w.z), (1000, 3000, 2000));
}

#[test]
fn vertex_record_round_trips() {
    let v = VertexData {
        pos: Vec3i::new(1, 2, 3),
        normal: Vec3i::new(0, FX_ONE, 0),
        tangent: Vec3i::new(FX_ONE, 0, 0),
        u0: 100,
        v0: 200,
        u1: 300,
        v1: 400,
    };
    assert_eq!(v.pos.y, 2);
    assert_eq!((v.u0, v.v0, v.u1, v.v1), (100, 200, 300, 400));
}

#[test]
fn scene_checker_accepts_and_rejects() {
    let verts = vec![Vec3i::new(0, 0, 0), Vec3i::new(100, 0, 0), Vec3i::new(0, 100, 0)];
    let tris = vec![Triangle { i0: 0, i1: 1, i2: 2, m: 0 }];
    assert!(check_scene(&verts, &tris));
    let bad_tris = vec![Triangle { i0: 0, i1: 1, i2: 9, m: 0 }];
    assert!(!check_scene(&verts, &bad_tris));
    let bad_verts = vec![Vec3i::new(0, 0, 0), Vec3i::new(300000, 0, 0), Vec3i::new(0, 1, 0)];
    assert!(!check_scene(&bad_verts, &tris));
}
