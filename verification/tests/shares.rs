use dex::shares::{increment, withdrawal, Increment};

#[test]
fn first_deposit_mints_the_greater_amount() {
    assert_eq!(increment(0, 0, 0, 100, 100), Increment { other: 100, base: 100, share: 100 });
    assert_eq!(increment(0, 0, 0, 7, 300), Increment { other: 7, base: 300, share: 300 });
    assert_eq!(increment(0, 0, 0, 300, 7), Increment { other: 300, base: 7, share: 300 });
}

#[test]
fn proportional_deposit_is_taken_whole() {
    assert_eq!(increment(100, 100, 100, 50, 50), Increment { other: 50, base: 50, share: 50 });
}

#[test]
fn deposit_with_too_much_other_is_cut_down() {
    assert_eq!(increment(100, 100, 100, 200, 50), Increment { other: 50, base: 50, share: 50 });
}

#[test]
fn deposit_with_too_much_base_is_cut_down() {
    assert_eq!(increment(100, 100, 100, 50, 200), Increment { other: 50, base: 50, share: 50 });
}

#[test]
fn deposit_into_a_skewed_pool() {
    // price 1/10: 1000 other ask for 100 base; shares in proportion 100/1000.
    assert_eq!(
        increment(10000, 1000, 10000, 1000, 500),
        Increment { other: 1000, base: 100, share: 1000 }
    );
    assert_eq!(
        increment(10000, 1000, 10000, 5000, 100),
        Increment { other: 1000, base: 100, share: 1000 }
    );
}

#[test]
fn deposit_too_small_to_mint() {
    assert_eq!(increment(1000, 1000, 10, 1, 1).share, 0);
}

#[test]
fn withdrawal_truncates() {
    assert_eq!(withdrawal(100, 150, 150), 99);
    assert_eq!(withdrawal(8000, 10000, 10000), 8000);
    assert_eq!(withdrawal(8000, 10000, 1000), 800);
    assert_eq!(withdrawal(1, 3, 2), 0);
}

#[test]
fn withdrawal_of_every_share_takes_the_whole_reserve() {
    assert_eq!(withdrawal(50, 50, 51), 51);
    assert_eq!(withdrawal(u128::MAX, u128::MAX, u128::MAX), u128::MAX);
}
