use dex::fixed::Ratio;
use dex::pricing::{supply_amount, target_amount};
use dex::runtime::{ALICE, AUSD, BOB, BTC, CAROL, DOT};
use dex::shares::{increment, withdrawal};
use dex::{ExtBuilder, Module, Runtime};

fn one_percent() -> Ratio {
    Ratio::from_rational(1, 100).unwrap()
}

fn assert_conserved(runtime: &Runtime) {
    let pool_account = Module::account_id();
    let mut base_reserves: u128 = 0;
    for currency_id in [BTC, DOT] {
        let (other, base) = runtime.dex().liquidity_pool(currency_id);
        let held: u128 = [ALICE, BOB, CAROL]
            .iter()
            .map(|who| runtime.dex().shares(currency_id, *who))
            .sum();
        assert_eq!(runtime.dex().total_shares(currency_id), held);
        assert_eq!(runtime.tokens().free_balance(currency_id, pool_account), other);
        assert_eq!(other == 0, base == 0);
        assert_eq!(other == 0, held == 0);
        base_reserves += base;
    }
    assert_eq!(runtime.tokens().free_balance(AUSD, pool_account), base_reserves);
    assert_eq!(runtime.dex().liquidity_pool(AUSD), (0, 0));
    for currency_id in [AUSD, BTC, DOT] {
        assert_eq!(runtime.tokens().total_issuance(currency_id), 2_000_000_000_000_000_000);
    }
}

#[test]
fn shares_and_custody_are_conserved_over_a_sequence() {
    let mut runtime = ExtBuilder::default().build();
    assert_conserved(&runtime);
    runtime.add_liquidity(ALICE, BTC, 1_000_000, 3_000_000).unwrap();
    assert_conserved(&runtime);
    runtime.add_liquidity(BOB, DOT, 777, 12_345).unwrap();
    assert_conserved(&runtime);
    runtime.add_liquidity(BOB, BTC, 5_000, 5_000).unwrap();
    assert_conserved(&runtime);
    runtime.swap_currency(BOB, (BTC, 40_000), (AUSD, 1)).unwrap();
    assert_conserved(&runtime);
    runtime.swap_currency(ALICE, (AUSD, 999), (DOT, 0)).unwrap();
    assert_conserved(&runtime);
    runtime.swap_currency(ALICE, (DOT, 50), (BTC, 0)).unwrap();
    assert_conserved(&runtime);
    assert!(runtime.swap_currency(CAROL, (DOT, 50), (BTC, 0)).is_err());
    assert_conserved(&runtime);
    assert!(runtime.add_liquidity(BOB, AUSD, 5, 5).is_err());
    assert_conserved(&runtime);
    runtime.withdraw_liquidity(ALICE, BTC, 333_333).unwrap();
    assert_conserved(&runtime);
    let rest = runtime.dex().shares(BTC, ALICE);
    runtime.withdraw_liquidity(ALICE, BTC, rest).unwrap();
    assert_conserved(&runtime);
    let rest = runtime.dex().shares(BTC, BOB);
    runtime.withdraw_liquidity(BOB, BTC, rest).unwrap();
    assert_conserved(&runtime);
    assert_eq!(runtime.dex().liquidity_pool(BTC), (0, 0));
    let rest = runtime.dex().shares(DOT, BOB);
    runtime.withdraw_liquidity(BOB, DOT, rest).unwrap();
    assert_conserved(&runtime);
    assert_eq!(runtime.tokens().free_balance(AUSD, Module::account_id()), 0);
    assert_eq!(runtime.events().len(), 10);
}

#[test]
fn product_of_reserves_grows_where_the_price_is_not_rounded() {
    let out = target_amount(one_percent(), 10000, 10000, 10000);
    assert_eq!(out, 4950);
    assert!((10000 + 10000) * (10000 - out) > 10000 * 10000);
    let free = target_amount(Ratio::from_inner(0), 10000, 10000, 10000);
    assert_eq!((10000 + 10000) * (10000 - free), 10000 * 10000);
}

#[test]
fn product_of_reserves_loses_less_than_the_rounding_bound() {
    let (supply_pool, target_pool, supply): (u128, u128, u128) = (1000, 1000, 100);
    let out = target_amount(one_percent(), supply_pool, target_pool, supply);
    let before = supply_pool * target_pool;
    let after = (supply_pool + supply) * (target_pool - out);
    assert_eq!(after, 999_900);
    assert!(after < before);
    // The loss is below the grown supply reserve times 1 + target / 10^18.
    assert!(before - after < (supply_pool + supply) * 2);
}

#[test]
fn deposit_then_withdrawal_returns_no_more_than_was_taken() {
    let cases: [(u128, u128, u128, u128, u128); 6] = [
        (0, 0, 0, 100, 100),
        (100, 100, 100, 50, 50),
        (100, 100, 100, 200, 50),
        (1000, 7, 333, 500, 500),
        (3, 1_000_000_007, 10, 999, 999_999_999_999),
        (u128::MAX / 3, u128::MAX / 5, u128::MAX / 7, u128::MAX / 11, u128::MAX / 13),
    ];
    for (pool_other, pool_base, total_shares, max_other, max_base) in cases {
        let inc = increment(pool_other, pool_base, total_shares, max_other, max_base);
        assert!(inc.other > 0 && inc.base > 0 && inc.share > 0);
        let total = total_shares + inc.share;
        assert!(withdrawal(inc.share, total, pool_other + inc.other) <= inc.other);
        assert!(withdrawal(inc.share, total, pool_base + inc.base) <= inc.base);
    }
}

#[test]
fn quoted_supply_and_two_more_buys_the_target() {
    let cases: [(u128, u128, u128, u128); 5] = [
        (1000, 1000, 90, 10_000_000_000_000_000),
        (2, 978, 483, 3_000_000_000_000_000),
        (3, 999_999_999_999_999_625, 498_053_887_487_600_290, 3_000_000_000_000_000),
        (1_000_000, 1_000_000_000_000_000_000, 999_999, 0),
        (50_000, 40_000, 39_000, 500_000_000_000_000_000),
    ];
    for (supply_pool, target_pool, target, fee) in cases {
        let fee = Ratio::from_inner(fee);
        let quote = supply_amount(fee, supply_pool, target_pool, target);
        if quote == 0 {
            continue;
        }
        let paid = target_amount(fee, supply_pool, target_pool, quote + 2);
        assert!(paid == 0 || paid >= target);
    }
    let fee = Ratio::from_inner(3_000_000_000_000_000);
    assert_eq!(supply_amount(fee, 2, 978, 483), 1);
    assert_eq!(target_amount(fee, 2, 978, 1), 327);
    assert_eq!(target_amount(fee, 2, 978, 3), 586);
}

#[test]
fn arithmetic_never_panics_on_the_largest_inputs() {
    let extremes: [u128; 6] = [0, 1, 2, u128::MAX / 2, u128::MAX - 1, u128::MAX];
    let fees = [
        Ratio::from_inner(0),
        one_percent(),
        Ratio::from_inner(999_999_999_999_999_999),
        Ratio::from_natural(1),
        Ratio::from_inner(u128::MAX),
    ];
    for fee in fees {
        for a in extremes {
            for b in extremes {
                for c in extremes {
                    let out = target_amount(fee, a, b, c);
                    assert!(out <= b);
                    let _ = supply_amount(fee, a, b, c);
                    assert!(withdrawal(a.min(b.max(1)), b.max(1), c) <= c);
                    if c > 0 && (a > 0) == (b > 0) {
                        let _ = increment(a, b, if a > 0 { c } else { 0 }, c, a.max(1));
                    }
                }
            }
        }
    }
}

#[test]
fn exchange_never_panics_on_the_largest_inputs() {
    let mut module = Module::new(AUSD, one_percent()).unwrap();
    module.add_liquidity(ALICE, BTC, u128::MAX, u128::MAX, true, true).unwrap();
    module.add_liquidity(ALICE, DOT, 1, u128::MAX, true, true).unwrap();
    assert!(module.add_liquidity(BOB, BTC, u128::MAX, u128::MAX, true, true).is_err());
    assert!(module.swap_other_to_base(BOB, BTC, u128::MAX, 0, true).is_err());
    assert!(module.swap_base_to_other(BOB, BTC, u128::MAX, 0, true).is_err());
    assert!(module.swap_other_to_other(BOB, BTC, u128::MAX, DOT, 0, true).is_err());
    let _ = module.swap_other_to_other(BOB, DOT, 1, BTC, 0, true);
    let _ = module.get_supply_amount(BTC, DOT, u128::MAX);
    let _ = module.get_supply_amount(DOT, BTC, u128::MAX);
    let _ = module.get_supply_amount(AUSD, BTC, u128::MAX - 1);
    assert!(module.withdraw_liquidity(ALICE, BTC, u128::MAX).is_ok());
    assert_eq!(module.liquidity_pool(BTC), (0, 0));
    assert_eq!(module.total_shares(BTC), 0);
}
