use dex::fixed::{Ratio, ACCURACY};

#[test]
fn from_natural_scales_by_the_accuracy() {
    assert_eq!(Ratio::from_natural(3).into_inner(), 3 * ACCURACY);
    assert_eq!(Ratio::from_natural(0).into_inner(), 0);
}

#[test]
fn from_natural_saturates() {
    assert_eq!(Ratio::from_natural(u128::MAX).into_inner(), u128::MAX);
    assert_eq!(Ratio::from_natural(340_282_366_920_938_463_464).into_inner(), u128::MAX);
    assert_eq!(
        Ratio::from_natural(340_282_366_920_938_463_463).into_inner(),
        340_282_366_920_938_463_463 * ACCURACY
    );
}

#[test]
fn from_rational_truncates() {
    assert_eq!(Ratio::from_rational(1, 2).unwrap().into_inner(), 500_000_000_000_000_000);
    assert_eq!(Ratio::from_rational(1, 3).unwrap().into_inner(), 333_333_333_333_333_333);
    assert_eq!(Ratio::from_rational(2, 3).unwrap().into_inner(), 666_666_666_666_666_666);
    assert_eq!(Ratio::from_rational(1, 100).unwrap().into_inner(), 10_000_000_000_000_000);
    assert_eq!(Ratio::from_rational(0, 7).unwrap().into_inner(), 0);
}

#[test]
fn from_rational_fails_on_a_zero_denominator() {
    assert_eq!(Ratio::from_rational(1, 0), None);
    assert_eq!(Ratio::from_rational(0, 0), None);
}

#[test]
fn from_rational_saturates() {
    assert_eq!(Ratio::from_rational(u128::MAX, 1).unwrap().into_inner(), u128::MAX);
    assert_eq!(Ratio::from_rational(u128::MAX, u128::MAX).unwrap().into_inner(), ACCURACY);
}

#[test]
fn checked_add_and_sub() {
    let one = Ratio::from_natural(1);
    let half = Ratio::from_rational(1, 2).unwrap();
    assert_eq!(one.checked_add(&half).unwrap().into_inner(), 1_500_000_000_000_000_000);
    assert_eq!(one.checked_sub(&half).unwrap().into_inner(), 500_000_000_000_000_000);
    assert_eq!(half.checked_sub(&one), None);
    assert_eq!(Ratio::from_inner(u128::MAX).checked_add(&Ratio::from_inner(1)), None);
    assert_eq!(
        Ratio::from_inner(u128::MAX - 1).checked_add(&Ratio::from_inner(1)),
        Some(Ratio::from_inner(u128::MAX))
    );
}

#[test]
fn checked_mul_truncates_and_detects_overflow() {
    let half = Ratio::from_rational(1, 2).unwrap();
    let third = Ratio::from_rational(1, 3).unwrap();
    assert_eq!(half.checked_mul(&half).unwrap().into_inner(), 250_000_000_000_000_000);
    assert_eq!(third.checked_mul(&half).unwrap().into_inner(), 166_666_666_666_666_666);
    assert_eq!(Ratio::from_inner(1).checked_mul(&Ratio::from_inner(1)).unwrap().into_inner(), 0);
    let huge = Ratio::from_inner(u128::MAX);
    assert_eq!(huge.checked_mul(&Ratio::from_natural(2)), None);
    assert_eq!(huge.checked_mul(&Ratio::from_natural(1)), Some(huge));
}

#[test]
fn checked_div_truncates_and_detects_failure() {
    let one = Ratio::from_natural(1);
    let three = Ratio::from_natural(3);
    assert_eq!(one.checked_div(&three).unwrap().into_inner(), 333_333_333_333_333_333);
    assert_eq!(three.checked_div(&one), Some(three));
    assert_eq!(one.checked_div(&Ratio::from_inner(0)), None);
    assert_eq!(Ratio::from_inner(u128::MAX).checked_div(&Ratio::from_rational(1, 2).unwrap()), None);
    let ninety_nine_percent = one.checked_sub(&Ratio::from_rational(1, 100).unwrap()).unwrap();
    assert_eq!(
        one.checked_div(&ninety_nine_percent).unwrap().into_inner(),
        1_010_101_010_101_010_101
    );
}

#[test]
fn checked_mul_int_truncates_and_detects_overflow() {
    let two_thirds = Ratio::from_rational(2, 3).unwrap();
    assert_eq!(two_thirds.checked_mul_int(150), Some(99));
    assert_eq!(Ratio::from_rational(1, 100).unwrap().checked_mul_int(91), Some(0));
    assert_eq!(Ratio::from_rational(1, 100).unwrap().checked_mul_int(5000), Some(50));
    assert_eq!(Ratio::from_natural(2).checked_mul_int(u128::MAX / 2), Some(u128::MAX - 1));
    assert_eq!(Ratio::from_natural(2).checked_mul_int(u128::MAX / 2 + 1), None);
    assert_eq!(Ratio::from_natural(1).checked_mul_int(u128::MAX), Some(u128::MAX));
}

#[test]
fn saturating_mul_int_saturates() {
    assert_eq!(Ratio::from_natural(2).saturating_mul_int(u128::MAX / 2 + 1), u128::MAX);
    assert_eq!(Ratio::from_natural(2).saturating_mul_int(21), 42);
    assert_eq!(Ratio::from_inner(u128::MAX).saturating_mul_int(u128::MAX), u128::MAX);
}

#[test]
fn le_compares_numerators() {
    let half = Ratio::from_rational(1, 2).unwrap();
    let third = Ratio::from_rational(1, 3).unwrap();
    assert!(third.le(&half));
    assert!(half.le(&half));
    assert!(!half.le(&third));
}
