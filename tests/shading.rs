use rays::fixed::{Fixed, UNIT};
use rays::shading::{
    ao_applies, apply_ao, edge_blend, get_ray_count_for_intensity, per_ray_intensity,
    plan_bounce, shade_hit, split_intensity, EdgeBlend,
};

fn fx(raw: i64) -> Fixed {
    Fixed { raw }
}

#[test]
fn split_adds_up_to_intensity() {
    let s = split_intensity(fx(UNIT), fx(UNIT * 3 / 4), fx(UNIT / 2)).unwrap();
    assert_eq!(s.refraction.raw, UNIT / 4);
    assert_eq!(s.reflection.raw, UNIT * 3 / 8);
    assert_eq!(s.color.raw, UNIT * 3 / 8);
    assert_eq!(s.color.raw + s.reflection.raw + s.refraction.raw, UNIT);
}

#[test]
fn split_adds_up_with_rounding() {
    let i = fx(12345);
    let s = split_intensity(i, fx(7_000_001), fx(3_333_333)).unwrap();
    assert_eq!(s.color.raw + s.reflection.raw + s.refraction.raw, 12345);
}

#[test]
fn split_out_of_range_material_still_adds_up() {
    let s = split_intensity(fx(UNIT), fx(UNIT * 2), fx(-UNIT)).unwrap();
    assert_eq!(s.refraction.raw, -UNIT);
    assert_eq!(s.reflection.raw, -2 * UNIT);
    assert_eq!(s.color.raw, 4 * UNIT);
    assert_eq!(s.color.raw + s.reflection.raw + s.refraction.raw, UNIT);
}

#[test]
fn split_overflow_is_none() {
    assert!(split_intensity(fx(i64::MAX), fx(i64::MAX), fx(0)).is_none());
}

#[test]
fn opaque_matte_material_keeps_everything_as_color() {
    let s = split_intensity(fx(UNIT), fx(UNIT), fx(0)).unwrap();
    assert_eq!(s.color.raw, UNIT);
    assert_eq!(s.reflection.raw, 0);
    assert_eq!(s.refraction.raw, 0);
}

#[test]
fn edge_blend_ends_and_middle() {
    assert_eq!(edge_blend(fx(UNIT / 4), fx(UNIT), fx(0)), Some(fx(UNIT / 4)));
    assert_eq!(edge_blend(fx(UNIT / 4), fx(UNIT), fx(UNIT)), Some(fx(UNIT)));
    assert_eq!(edge_blend(fx(0), fx(UNIT), fx(UNIT / 2)), Some(fx(UNIT / 2)));
    assert_eq!(edge_blend(fx(i64::MIN), fx(i64::MAX), fx(0)), None);
}

#[test]
fn ray_count_full_and_zero_intensity() {
    for n in 1..20u32 {
        assert_eq!(get_ray_count_for_intensity(fx(UNIT), n), n);
        assert_eq!(get_ray_count_for_intensity(fx(0), n), 1);
    }
}

#[test]
fn ray_count_rounds_to_nearest() {
    // 1 + 0.5 * 4 = 3
    assert_eq!(get_ray_count_for_intensity(fx(UNIT / 2), 5), 3);
    // 1 + 0.3 * 6 = 2.8 -> 3
    assert_eq!(get_ray_count_for_intensity(fx(UNIT * 3 / 10), 7), 3);
    // 1 + 0.1 * 6 = 1.6 -> 2
    assert_eq!(get_ray_count_for_intensity(fx(UNIT / 10), 7), 2);
}

#[test]
fn ray_count_saturates() {
    assert_eq!(get_ray_count_for_intensity(fx(-10 * UNIT), 5), 0);
    assert_eq!(get_ray_count_for_intensity(fx(i64::MAX), u32::MAX), u32::MAX);
}

#[test]
fn per_ray_intensity_divides_evenly() {
    assert_eq!(per_ray_intensity(fx(UNIT), 4).raw, UNIT / 4);
    assert_eq!(per_ray_intensity(fx(10), 3).raw, 3);
    assert_eq!(per_ray_intensity(fx(-10), 3).raw, -3);
}

#[test]
fn ao_zero_strength_never_changes_intensity() {
    let i = fx(UNIT / 3);
    for d in [None, Some(fx(0)), Some(fx(UNIT / 2)), Some(fx(5 * UNIT)), Some(fx(-UNIT))] {
        assert_eq!(apply_ao(i, fx(0), d), i);
    }
}

#[test]
fn ao_darkens_near_occluders() {
    let i = fx(UNIT);
    // touching occluder at full strength: 1 - 1 * (1 - 0)^2 = 0
    assert_eq!(apply_ao(i, fx(UNIT), Some(fx(0))).raw, 0);
    // half strength, half distance: 1 - 0.5 * 0.25 = 0.875
    assert_eq!(apply_ao(i, fx(UNIT / 2), Some(fx(UNIT / 2))).raw, UNIT * 7 / 8);
    // beyond the falloff distance: no darkening
    assert_eq!(apply_ao(i, fx(UNIT), Some(fx(3 * UNIT))), i);
    // no occluder: no darkening
    assert_eq!(apply_ao(i, fx(UNIT), None), i);
}

#[test]
fn ao_applies_only_below_limit_with_strength() {
    assert!(ao_applies(0, 1, fx(1)));
    assert!(!ao_applies(1, 1, fx(1)));
    assert!(!ao_applies(0, 1, fx(0)));
}

#[test]
fn bounce_plan_stops_at_limit() {
    let s = split_intensity(fx(UNIT), fx(UNIT / 2), fx(UNIT / 2)).unwrap();
    assert_eq!(plan_bounce(&s, 0, 0, fx(0)), None);
    assert_eq!(plan_bounce(&s, 3, 3, fx(0)), None);
    let p = plan_bounce(&s, 0, u32::MAX, fx(UNIT / 10)).unwrap();
    assert_eq!(p.next_bounces, 1);
    assert!(p.reflect);
    assert!(p.refract);
    let p = plan_bounce(&s, 1, 2, fx(UNIT / 2)).unwrap();
    assert!(!p.reflect);
    assert!(!p.refract);
}

#[test]
fn shade_hit_without_bounces_is_color_only() {
    let opacity = EdgeBlend { center: fx(UNIT), edges: fx(UNIT), influence: fx(UNIT / 3) };
    let reflection = EdgeBlend { center: fx(UNIT / 2), edges: fx(UNIT / 2), influence: fx(0) };
    let s = shade_hit(fx(UNIT), opacity, reflection, 0, 0, fx(0)).unwrap();
    assert_eq!(s.plan, None);
    assert_eq!(s.split.color.raw, UNIT / 2);
    assert_eq!(s.split.reflection.raw, UNIT / 2);
}

#[test]
fn shade_hit_mirror_reflects_everything() {
    let opacity = EdgeBlend { center: fx(UNIT), edges: fx(UNIT), influence: fx(0) };
    let reflection = EdgeBlend { center: fx(UNIT), edges: fx(0), influence: fx(0) };
    let s = shade_hit(fx(UNIT), opacity, reflection, 0, 1, fx(UNIT / 100)).unwrap();
    assert_eq!(s.split.color.raw, 0);
    assert_eq!(s.split.reflection.raw, UNIT);
    let p = s.plan.unwrap();
    assert!(p.reflect);
    assert!(!p.refract);
}
