use rays::fixed::{Fixed, HALF_UNIT, UNIT};
use rays::image::Rgb8;
use rays::target::RenderTarget;

#[test]
fn fixed_constants() {
    assert_eq!(Fixed::one().raw, UNIT);
    assert_eq!(Fixed::zero().raw, 0);
    assert_eq!(HALF_UNIT * 2, UNIT);
}

#[test]
fn fixed_mul_truncates_toward_zero() {
    let half = Fixed { raw: HALF_UNIT };
    assert_eq!(half.checked_mul(half), Some(Fixed { raw: UNIT / 4 }));
    assert_eq!(Fixed { raw: 3 }.checked_mul(half), Some(Fixed { raw: 1 }));
    assert_eq!(Fixed { raw: -3 }.checked_mul(half), Some(Fixed { raw: -1 }));
    assert_eq!(Fixed { raw: 12345 }.checked_mul(Fixed::one()), Some(Fixed { raw: 12345 }));
    assert_eq!(Fixed { raw: i64::MAX }.checked_mul(Fixed { raw: 2 * UNIT }), None);
}

#[test]
fn fixed_add_sub_overflow() {
    assert_eq!(Fixed { raw: 5 }.checked_add(Fixed { raw: -7 }), Some(Fixed { raw: -2 }));
    assert_eq!(Fixed { raw: i64::MAX }.checked_add(Fixed { raw: 1 }), None);
    assert_eq!(Fixed { raw: 5 }.checked_sub(Fixed { raw: 7 }), Some(Fixed { raw: -2 }));
    assert_eq!(Fixed { raw: i64::MIN }.checked_sub(Fixed { raw: 1 }), None);
}

#[test]
fn new_target_is_black() {
    let t = RenderTarget::new(4, 3);
    assert_eq!(t.data.len(), 12);
    assert!(t.data.iter().all(|p| *p == Rgb8 { r: 0, g: 0, b: 0 }));
}
