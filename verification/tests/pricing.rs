use dex::fixed::Ratio;
use dex::pricing::{supply_amount, target_amount};

fn one_percent() -> Ratio {
    Ratio::from_rational(1, 100).unwrap()
}

#[test]
fn target_amount_of_even_pools() {
    assert_eq!(target_amount(one_percent(), 10000, 10000, 10000), 4950);
}

#[test]
fn target_amount_rounds_the_remaining_reserve_down() {
    // 1000 * (1000 / 1100) leaves 909 after two truncations, so 91 is
    // released, of which one hundredth, truncated, is nothing.
    assert_eq!(target_amount(one_percent(), 1000, 1000, 100), 91);
    assert_eq!(target_amount(one_percent(), 1000, 1000, 91), 84);
}

#[test]
fn target_amount_without_fee() {
    assert_eq!(target_amount(Ratio::from_inner(0), 10000, 10000, 10000), 5000);
}

#[test]
fn target_amount_is_zero_on_empty_pools() {
    assert_eq!(target_amount(one_percent(), 0, 0, 100), 0);
    assert_eq!(target_amount(one_percent(), 0, 1000, 100), 0);
    assert_eq!(target_amount(one_percent(), 1000, 0, 100), 0);
    assert_eq!(target_amount(one_percent(), 0, 0, 0), 0);
}

#[test]
fn target_amount_is_zero_without_supply() {
    assert_eq!(target_amount(one_percent(), 1000, 1000, 0), 0);
}

#[test]
fn target_amount_is_zero_where_the_supply_reserve_overflows() {
    assert_eq!(target_amount(one_percent(), u128::MAX, 1000, 1), 0);
    assert_eq!(target_amount(one_percent(), 1, 1000, u128::MAX), 0);
}

#[test]
fn target_amount_is_zero_where_nothing_would_remain() {
    // 1 / (1 + 10^19) truncates to a ratio whose product with 5 is zero.
    assert_eq!(target_amount(one_percent(), 1, 5, 10_000_000_000_000_000_000), 0);
}

#[test]
fn target_amount_is_zero_under_a_fee_above_one() {
    assert_eq!(target_amount(Ratio::from_natural(2), 10000, 10000, 10000), 0);
    assert_eq!(target_amount(Ratio::from_natural(1), 10000, 10000, 10000), 0);
}

#[test]
fn target_amount_on_the_largest_reserves() {
    assert_eq!(target_amount(Ratio::from_inner(0), u128::MAX / 2, u128::MAX, u128::MAX / 2), u128::MAX - (u128::MAX / 2));
}

#[test]
fn supply_amount_of_even_pools() {
    assert_eq!(supply_amount(one_percent(), 1000, 1000, 90), 98);
    assert_eq!(supply_amount(Ratio::from_inner(0), 10000, 10000, 5000), 10000);
}

#[test]
fn supply_amount_is_zero_where_the_reserve_cannot_release_the_amount() {
    assert_eq!(supply_amount(one_percent(), 1000, 1000, 1000), 0);
    assert_eq!(supply_amount(one_percent(), 1000, 1000, 991), 0);
    assert_eq!(supply_amount(Ratio::from_inner(0), 1000, 1000, 1000), 0);
    assert_eq!(supply_amount(one_percent(), 0, 0, 1), 0);
}

#[test]
fn supply_amount_is_zero_under_a_fee_of_one_or_more() {
    assert_eq!(supply_amount(Ratio::from_natural(1), 1000, 1000, 10), 0);
    assert_eq!(supply_amount(Ratio::from_natural(3), 1000, 1000, 10), 0);
}

#[test]
fn supply_amount_is_zero_where_the_result_overflows() {
    assert_eq!(supply_amount(Ratio::from_inner(0), u128::MAX, u128::MAX, u128::MAX - 1), 0);
}

#[test]
fn supply_amount_is_zero_for_no_target() {
    assert_eq!(supply_amount(one_percent(), 1000, 1000, 0), 0);
}
