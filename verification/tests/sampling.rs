use raycore::sampler::Sampler;
use raycore::integrate::{Spec3, spec3_add_saturating, spec3_mul};
use raycore::lights::{
    LightTable, build_light_pick_table, compute_emissive_mask, isqrt, pick_light,
    pick_triangle_point, sqrt_fx, triangle_area_sq, triangle_power,
};
use raycore::material::{Fx4, MaterialData};
use raycore::bvh::Triangle;
use raycore::vec3::Vec3i;
use raycore::FX_ONE;

#[test]
fn stream_is_deterministic() {
    // identical seeds replay the identical stream, draw for draw
    let mut a = Sampler::new(12345, 67890);
    let mut b = Sampler::new(12345, 67890);
    for _ in 0..1000 {
        assert_eq!(a.gen_r1(), b.gen_r1());
    }
    assert_eq!(a.next_state(), b.next_state());
}

#[test]
fn draws_stay_in_unit_range() {
    let mut s = Sampler::new(99, 1234567);
    for _ in 0..1000 {
        let (r1, r2, r3) = s.gen_r3();
        assert!(0 <= r1 && r1 < FX_ONE);
        assert!(0 <= r2 && r2 < FX_ONE);
        assert!(0 <= r3 && r3 < FX_ONE);
    }
}

#[test]
fn isqrt_exact_values() {
    assert_eq!(isqrt(0), 0);
    assert_eq!(isqrt(1), 1);
    assert_eq!(isqrt(3), 1);
    assert_eq!(isqrt(4), 2);
    assert_eq!(isqrt(65535 * 65535), 65535);
    assert_eq!(isqrt(65535 * 65535 + 1), 65535);
    assert_eq!(isqrt(u64::MAX as u128), 4294967295);
}

#[test]
fn sqrt_fx_brackets_square() {
    for s in [0i64, 1, 100, 32768, 65535, 65536] {
        let r = sqrt_fx(s);
        assert!((r as i128) * (r as i128) <= (s as i128) * 65536);
        assert!(((r + 1) as i128) * ((r + 1) as i128) > (s as i128) * 65536);
    }
    assert_eq!(sqrt_fx(FX_ONE), FX_ONE);
    // sqrt(0.25) = 0.5 exactly
    assert_eq!(sqrt_fx(FX_ONE / 4), FX_ONE / 2);
}

#[test]
fn area_of_right_triangle() {
    // legs 2048 and 2048: twice the area is 2048*2048
    let a = Vec3i::new(0, 0, 0);
    let b = Vec3i::new(2048, 0, 0);
    let c = Vec3i::new(0, 2048, 0);
    let sq = triangle_area_sq(&a, &b, &c);
    assert_eq!(sq, (2048u128 * 2048) * (2048 * 2048));
    assert_eq!(isqrt(sq), 2048 * 2048);
}

#[test]
fn power_scales_with_emission_and_area() {
    assert_eq!(triangle_power(0, 500), 0);
    assert_eq!(triangle_power(3 * FX_ONE, 100), 3 * 65536 * 100);
}

#[test]
fn emissive_mask_follows_materials() {
    let mut dark = MaterialData::new();
    dark.albedo = Fx4 { x: FX_ONE, y: FX_ONE, z: FX_ONE, w: 0 };
    let mut glow = MaterialData::new();
    glow.emissive = Fx4 { x: FX_ONE, y: 0, z: 0, w: 0 };
    let mats = vec![dark, glow];
    let tris = vec![
        Triangle { i0: 0, i1: 1, i2: 2, m: 0 },
        Triangle { i0: 0, i1: 1, i2: 2, m: 1 },
        Triangle { i0: 0, i1: 1, i2: 2, m: 0 },
    ];
    let mask = compute_emissive_mask(&tris, &mats);
    assert_eq!(mask, vec![false, true, false]);
}

fn table_mass(t: &LightTable, j: u32) -> u128 {
    let mut sum: u128 = 0;
    for e in t.entries.iter() {
        if e.tri_a == j {
            sum += e.mass_a;
        }
        if e.tri_b == j {
            sum += t.total - e.mass_a;
        }
    }
    sum
}

#[test]
fn alias_table_conserves_mass_exactly() {
    // arbitrary positive powers: each triangle's mass across all bins is
    // exactly its weight times the bin count
    let powers = vec![0u64, 5, 0, 1, 2];
    let t = build_light_pick_table(&powers);
    assert_eq!(t.total, 8);
    assert_eq!(t.entries.len(), 3);
    for e in t.entries.iter() {
        assert!(e.mass_a <= t.total);
    }
    for j in 0..powers.len() {
        assert_eq!(table_mass(&t, j as u32), (powers[j] as u128) * 3);
    }
}

#[test]
fn alias_table_single_light() {
    let powers = vec![0u64, 0, 7];
    let t = build_light_pick_table(&powers);
    assert_eq!(t.entries.len(), 1);
    assert_eq!(table_mass(&t, 2), 7);
}

#[test]
fn alias_table_empty_when_no_light() {
    let powers = vec![0u64, 0, 0];
    let t = build_light_pick_table(&powers);
    assert_eq!(t.entries.len(), 0);
    let mut s = Sampler::new(7, 13);
    assert!(pick_light(&t, &mut s).is_none());
}

#[test]
fn alias_draw_frequencies_match_weights() {
    let powers = vec![0u64, 5, 0, 1, 2];
    let t = build_light_pick_table(&powers);
    let mut s = Sampler::new(424242, 171717);
    let mut counts = [0u64; 5];
    let n = 200000;
    for _ in 0..n {
        let j = pick_light(&t, &mut s).expect("lights exist") as usize;
        counts[j] += 1;
    }
    assert_eq!(counts[0], 0);
    assert_eq!(counts[2], 0);
    // expected fractions 5/8, 1/8, 2/8 within two percent absolute
    let f1 = counts[1] as f64 / n as f64;
    let f3 = counts[3] as f64 / n as f64;
    let f4 = counts[4] as f64 / n as f64;
    assert!((f1 - 0.625).abs() < 0.02, "f1 = {}", f1);
    assert!((f3 - 0.125).abs() < 0.02, "f3 = {}", f3);
    assert!((f4 - 0.25).abs() < 0.02, "f4 = {}", f4);
}

#[test]
fn triangle_points_land_inside_and_spread_uniformly() {
    // right triangle with legs 200000: points stay inside, the mean draws
    // toward the centroid, and the similar corner cell holds a quarter
    let a = Vec3i::new(0, 0, 0);
    let b = Vec3i::new(200000, 0, 0);
    let c = Vec3i::new(0, 200000, 0);
    let mut s = Sampler::new(31337, 271828);
    let n = 50000i64;
    let mut sum_x: i64 = 0;
    let mut sum_y: i64 = 0;
    let mut corner: i64 = 0;
    for _ in 0..n {
        let p = pick_triangle_point(&a, &b, &c, &mut s);
        assert!(p.x >= -1 && p.y >= -1 && p.z == 0);
        assert!(p.x + p.y <= 200001);
        sum_x += p.x;
        sum_y += p.y;
        if p.x >= 100000 {
            corner += 1;
        }
    }
    let mean_x = sum_x / n;
    let mean_y = sum_y / n;
    // centroid is at (66667, 66667); allow two percent of the leg
    assert!((mean_x - 66667).abs() < 4000, "mean_x = {}", mean_x);
    assert!((mean_y - 66667).abs() < 4000, "mean_y = {}", mean_y);
    let frac = corner as f64 / n as f64;
    assert!((frac - 0.25).abs() < 0.02, "corner fraction = {}", frac);
}

#[test]
fn two_identical_seeded_runs_accumulate_identically() {
    // a miniature deterministic render: identical seeds, identical sums
    let powers = vec![3u64, 1, 4];
    let t = build_light_pick_table(&powers);
    let run = |seed: (u32, u32)| -> (Spec3, (u32, u32)) {
        let mut s = Sampler::new(seed.0, seed.1);
        let mut acc = Spec3::zero();
        let a = Vec3i::new(-8000, 0, 0);
        let b = Vec3i::new(8000, 0, 0);
        let c = Vec3i::new(0, 9000, 0);
        for _ in 0..500 {
            let j = pick_light(&t, &mut s).unwrap();
            let p = pick_triangle_point(&a, &b, &c, &mut s);
            let w = Spec3 {
                r: (j as i64 + 1) * 1000,
                g: (p.x.abs() % 65536),
                b: (p.y.abs() % 65536),
            };
            let sq = spec3_mul(&w, &w);
            acc = spec3_add_saturating(&acc, &sq);
        }
        (acc, s.next_state())
    };
    let (a1, s1) = run((2024, 7));
    let (a2, s2) = run((2024, 7));
    assert_eq!(a1, a2);
    assert_eq!(s1, s2);
}
