use raycore::bsdf::{
    CLAMP_HI, CLAMP_LO, Lobe, PI_FX, clamp_specular_weight, glass_evaluate, glass_pdf,
    glass_reflects, lambertian_eval, lambertian_pdf, select_lobe,
};
use raycore::integrate::{
    EmissiveHit, SPEC_MAX, Spec3, emissive_hit_action, mean_channel, pixel_of_ray,
    quantize_channel, roulette_terminates, spec3_add_saturating, spec3_mul, spec3_rescale,
};
use raycore::material::{clamp_metallic, clamp_roughness, scale_emission, EMISSION_GAIN, FX_EPS};
use raycore::frame::{Cos, Fov, TracingConfig, Transform, HALF_PI_FX};
use raycore::vec3::Vec3i;
use raycore::FX_ONE;

#[test]
fn emissive_rule_backface_terminates_silently() {
    // a camera ray striking the back of an emissive triangle adds nothing
    assert_eq!(
        emissive_hit_action(0, true, Lobe::DiffuseReflection),
        EmissiveHit::TerminateSilent
    );
    assert_eq!(emissive_hit_action(5, true, Lobe::SpecularReflection), EmissiveHit::TerminateSilent);
}

#[test]
fn emissive_rule_first_bounce_adds_emission() {
    assert_eq!(emissive_hit_action(0, false, Lobe::DiffuseReflection), EmissiveHit::AddEmission);
    assert_eq!(emissive_hit_action(3, false, Lobe::SpecularReflection), EmissiveHit::AddEmission);
    assert_eq!(
        emissive_hit_action(3, false, Lobe::SpecularTransmission),
        EmissiveHit::AddEmission
    );
}

#[test]
fn emissive_rule_after_diffuse_uses_weighted_term() {
    assert_eq!(emissive_hit_action(1, false, Lobe::DiffuseReflection), EmissiveHit::AddWeighted);
}

#[test]
fn roulette_only_after_start_bounce() {
    assert!(!roulette_terminates(8, 8, 1000, 60000));
    assert!(roulette_terminates(9, 8, 1000, 60000));
    assert!(!roulette_terminates(9, 8, 60000, 1000));
    // a draw equal to the survival probability continues
    assert!(!roulette_terminates(9, 8, 30000, 30000));
}

#[test]
fn rescale_divides_by_survival_probability() {
    let t = Spec3 { r: FX_ONE / 2, g: FX_ONE / 4, b: 0 };
    // survival 0.5: channels double
    let r = spec3_rescale(&t, FX_ONE / 2);
    assert_eq!(r.r, FX_ONE);
    assert_eq!(r.g, FX_ONE / 2);
    assert_eq!(r.b, 0);
    // tiny survival saturates at the cap instead of overflowing
    let big = Spec3 { r: SPEC_MAX, g: SPEC_MAX, b: SPEC_MAX };
    let r2 = spec3_rescale(&big, 1);
    assert_eq!(r2.r, SPEC_MAX);
}

#[test]
fn spectrum_product_and_sum() {
    let a = Spec3 { r: FX_ONE, g: FX_ONE / 2, b: 2 * FX_ONE };
    let b = Spec3 { r: FX_ONE / 2, g: FX_ONE / 2, b: FX_ONE };
    let p = spec3_mul(&a, &b);
    assert_eq!(p.r, FX_ONE / 2);
    assert_eq!(p.g, FX_ONE / 4);
    assert_eq!(p.b, 2 * FX_ONE);
    let s = spec3_add_saturating(&p, &p);
    assert_eq!(s.r, FX_ONE);
    let top = Spec3 { r: SPEC_MAX, g: 0, b: 0 };
    assert_eq!(spec3_add_saturating(&top, &top).r, SPEC_MAX);
}

#[test]
fn roulette_survival_is_largest_channel() {
    let t = Spec3 { r: 10, g: 30, b: 20 };
    assert_eq!(t.max_channel(), 30);
}

#[test]
fn tone_map_endpoints_and_midpoint() {
    assert_eq!(quantize_channel(0), 0);
    assert_eq!(quantize_channel(FX_ONE), 255);
    // values above one clamp to full brightness
    assert_eq!(quantize_channel(10 * FX_ONE), 255);
    // 0.5 rounds to 128 (127.5 rounds up)
    assert_eq!(quantize_channel(FX_ONE / 2), 128);
    assert_eq!(mean_channel(10 * FX_ONE, 4), (10 * FX_ONE) / 4);
}

#[test]
fn ray_index_maps_to_pixel() {
    let (pixel, x, y) = pixel_of_ray(0, 4, 3);
    assert_eq!((pixel, x, y), (0, 0, 0));
    let (pixel, x, y) = pixel_of_ray(5, 4, 3);
    assert_eq!((pixel, x, y), (5, 1, 1));
    // the thirteenth ray wraps to the first pixel: one more sample for it
    let (pixel, x, y) = pixel_of_ray(12, 4, 3);
    assert_eq!((pixel, x, y), (0, 0, 0));
}

#[test]
fn lambertian_ratio_is_exactly_albedo() {
    // evaluate / pdf == albedo for every direction: cross-multiplied
    // rational identity, checked on concrete cosines
    for cos in [1i64, 100, 32768, 65535, 65536] {
        for albedo in [0i64, 13, 32768, 65536] {
            let (en, ed) = lambertian_eval(albedo, cos);
            let pdf = lambertian_pdf(cos);
            // en/ed == (albedo/FX_ONE) * (pdf.num/pdf.den)
            assert_eq!(
                (en as i128) * (pdf.den as i128) * (FX_ONE as i128),
                (albedo as i128) * (pdf.num as i128) * (ed as i128)
            );
        }
    }
    assert_eq!(PI_FX, 205887);
}

#[test]
fn lobe_weight_clamps_to_firefly_band() {
    assert_eq!(clamp_specular_weight(0), 0);
    assert_eq!(clamp_specular_weight(FX_ONE), FX_ONE);
    assert_eq!(clamp_specular_weight(1), CLAMP_LO);
    assert_eq!(clamp_specular_weight(FX_ONE - 1), CLAMP_HI);
    assert_eq!(clamp_specular_weight(30000), 30000);
}

#[test]
fn lobe_selection_compares_against_clamped_weight() {
    assert_eq!(select_lobe(30000, 29999), Lobe::SpecularReflection);
    assert_eq!(select_lobe(30000, 30000), Lobe::DiffuseReflection);
    // a zero weight never scatters specularly
    assert_eq!(select_lobe(0, 0), Lobe::DiffuseReflection);
    // a full weight always does
    assert_eq!(select_lobe(FX_ONE, FX_ONE - 1), Lobe::SpecularReflection);
}

#[test]
fn material_clamps_follow_the_floors() {
    assert_eq!(clamp_roughness(0), FX_EPS);
    assert_eq!(clamp_roughness(FX_ONE + 5), FX_ONE);
    assert_eq!(clamp_roughness(1234), 1234);
    assert_eq!(clamp_metallic(-5), 0);
    assert_eq!(clamp_metallic(FX_ONE), FX_ONE - FX_EPS);
    assert_eq!(clamp_metallic(500), 500);
    assert_eq!(scale_emission(100), EMISSION_GAIN * 100);
}

#[test]
fn field_of_view_conversions() {
    assert_eq!(Fov::rad(1000).radians(), 1000);
    assert_eq!(Fov::deg(90).radians(), HALF_PI_FX);
    assert_eq!(Fov::deg(45).radians(), 45 * HALF_PI_FX / 90);
    assert_eq!(Fov::deg(0).radians(), 0);
}

#[test]
fn transform_is_affine_with_truncation() {
    let t = Transform { scale: FX_ONE / 2, offset: -100 };
    assert_eq!(t.apply(2 * FX_ONE), FX_ONE - 100);
    // products round toward zero for either sign
    let n = Transform { scale: -3, offset: 0 };
    assert_eq!(n.apply(1000), 0);
    let p = Transform { scale: 3, offset: 0 };
    assert_eq!(p.apply(1000), 0);
}

#[test]
fn frame_tangents_are_orthogonal() {
    for n in [
        Vec3i::new(0, 65536, 0),
        Vec3i::new(65536, 0, 0),
        Vec3i::new(0, 0, -65536),
        Vec3i::new(37837, 37837, 37837),
        Vec3i::new(-60000, 20000, 15000),
    ] {
        let f = Cos::normal(n);
        assert_eq!(f.normal, n);
        let dot_un = (f.u.x as i128) * (n.x as i128) + (f.u.y as i128) * (n.y as i128)
            + (f.u.z as i128) * (n.z as i128);
        let dot_vn = (f.v.x as i128) * (n.x as i128) + (f.v.y as i128) * (n.y as i128)
            + (f.v.z as i128) * (n.z as i128);
        let dot_vu = (f.v.x as i128) * (f.u.x as i128) + (f.v.y as i128) * (f.u.y as i128)
            + (f.v.z as i128) * (f.u.z as i128);
        assert_eq!(dot_un, 0);
        assert_eq!(dot_vn, 0);
        assert_eq!(dot_vu, 0);
        assert!(!(f.u.x == 0 && f.u.y == 0 && f.u.z == 0));
    }
}

#[test]
fn soft_config_preset() {
    let c = TracingConfig::soft();
    assert_eq!((c.width, c.height), (1280, 720));
    assert_eq!((c.cam_pos.x, c.cam_pos.y, c.cam_pos.z), (0, 1024, -5120));
    assert_eq!((c.min_bounces, c.max_bounces), (3, 4));
}

#[test]
fn glass_is_a_one_point_sampler() {
    assert_eq!(glass_pdf(), FX_ONE);
    let tint = (FX_ONE / 2, FX_ONE / 3, FX_ONE / 4);
    assert_eq!(
        glass_evaluate(tint.0, tint.1, tint.2, Lobe::SpecularReflection),
        (FX_ONE, FX_ONE, FX_ONE)
    );
    assert_eq!(glass_evaluate(tint.0, tint.1, tint.2, Lobe::SpecularTransmission), tint);
    assert!(glass_reflects(30000, 30000));
    assert!(!glass_reflects(30000, 30001));
}
