use dex::runtime::{ALICE, AUSD, BOB, BTC, CAROL, DOT};
use dex::{DispatchError, Error, Event, ExtBuilder, Module, Runtime};

const ENDOWMENT: u128 = 1_000_000_000_000_000_000;

fn genesis() -> Runtime {
    ExtBuilder::default().build()
}

fn with_pools(pools: &[(u32, u128, u128)]) -> Runtime {
    let mut runtime = genesis();
    for (currency_id, other, base) in pools {
        runtime.add_liquidity(ALICE, *currency_id, *other, *base).unwrap();
    }
    runtime
}

#[test]
fn genesis_endows_the_accounts() {
    let runtime = genesis();
    for currency_id in [AUSD, BTC, DOT] {
        assert_eq!(runtime.tokens().free_balance(currency_id, ALICE), ENDOWMENT);
        assert_eq!(runtime.tokens().free_balance(currency_id, BOB), ENDOWMENT);
        assert_eq!(runtime.tokens().free_balance(currency_id, CAROL), 0);
        assert_eq!(runtime.tokens().free_balance(currency_id, Module::account_id()), 0);
        assert_eq!(runtime.tokens().total_issuance(currency_id), 2 * ENDOWMENT);
    }
    assert_eq!(runtime.tokens().free_balance(0, ALICE), 0);
    assert_eq!(runtime.dex().base_currency_id(), AUSD);
    assert_eq!(runtime.dex().exchange_fee().into_inner(), 10_000_000_000_000_000);
    assert_eq!(runtime.dex().liquidity_pool(BTC), (0, 0));
    assert!(runtime.events().is_empty());
}

#[test]
fn genesis_liquidity() {
    let mut runtime = genesis();
    assert_eq!(runtime.add_liquidity(ALICE, BTC, 100, 100), Ok(()));
    assert_eq!(runtime.dex().liquidity_pool(BTC), (100, 100));
    assert_eq!(runtime.dex().total_shares(BTC), 100);
    assert_eq!(runtime.dex().shares(BTC, ALICE), 100);
    assert_eq!(runtime.events(), &vec![Event::AddLiquidity(ALICE, BTC, 100, 100, 100)]);
    assert_eq!(runtime.tokens().free_balance(BTC, ALICE), ENDOWMENT - 100);
    assert_eq!(runtime.tokens().free_balance(AUSD, ALICE), ENDOWMENT - 100);
    assert_eq!(runtime.tokens().free_balance(BTC, Module::account_id()), 100);
    assert_eq!(runtime.tokens().free_balance(AUSD, Module::account_id()), 100);
}

#[test]
fn proportional_add() {
    let mut runtime = genesis();
    runtime.add_liquidity(ALICE, BTC, 100, 100).unwrap();
    assert_eq!(runtime.add_liquidity(BOB, BTC, 50, 50), Ok(()));
    assert_eq!(runtime.dex().liquidity_pool(BTC), (150, 150));
    assert_eq!(runtime.dex().shares(BTC, BOB), 50);
    assert_eq!(runtime.dex().total_shares(BTC), 150);
    assert_eq!(runtime.events()[1], Event::AddLiquidity(BOB, BTC, 50, 50, 50));
}

#[test]
fn skewed_add_with_too_much_other() {
    let mut runtime = genesis();
    runtime.add_liquidity(ALICE, BTC, 100, 100).unwrap();
    assert_eq!(runtime.add_liquidity(BOB, BTC, 200, 50), Ok(()));
    assert_eq!(runtime.events()[1], Event::AddLiquidity(BOB, BTC, 50, 50, 50));
    assert_eq!(runtime.dex().liquidity_pool(BTC), (150, 150));
    assert_eq!(runtime.tokens().free_balance(BTC, BOB), ENDOWMENT - 50);
    assert_eq!(runtime.tokens().free_balance(AUSD, BOB), ENDOWMENT - 50);
}

#[test]
fn simple_swap() {
    let mut runtime = with_pools(&[(BTC, 1000, 1000)]);
    assert_eq!(runtime.swap_currency(BOB, (BTC, 100), (AUSD, 0)), Ok(()));
    // 1000 * (1000 / 1100) leaves 909 in the base reserve after two
    // truncations; one hundredth of the 91 released truncates to nothing.
    assert_eq!(runtime.events()[1], Event::Swap(BOB, BTC, 100, AUSD, 91));
    assert_eq!(runtime.dex().liquidity_pool(BTC), (1100, 909));
    assert_eq!(runtime.tokens().free_balance(BTC, BOB), ENDOWMENT - 100);
    assert_eq!(runtime.tokens().free_balance(AUSD, BOB), ENDOWMENT + 91);
    assert_eq!(runtime.tokens().free_balance(BTC, Module::account_id()), 1100);
    assert_eq!(runtime.tokens().free_balance(AUSD, Module::account_id()), 909);
}

#[test]
fn swap_with_a_fee() {
    let mut runtime = with_pools(&[(BTC, 10000, 10000)]);
    assert_eq!(
        runtime.swap_currency(BOB, (BTC, 10000), (AUSD, 4951)),
        Err(DispatchError::Module(Error::InacceptablePrice))
    );
    assert_eq!(runtime.swap_currency(BOB, (BTC, 10000), (AUSD, 4950)), Ok(()));
    assert_eq!(runtime.events()[1], Event::Swap(BOB, BTC, 10000, AUSD, 4950));
    assert_eq!(runtime.dex().liquidity_pool(BTC), (20000, 5050));
}

#[test]
fn two_hop_swap() {
    let mut runtime = with_pools(&[(BTC, 1000, 1000), (DOT, 1000, 1000)]);
    assert_eq!(runtime.swap_currency(BOB, (BTC, 100), (DOT, 0)), Ok(()));
    assert_eq!(runtime.events()[2], Event::Swap(BOB, BTC, 100, DOT, 84));
    assert_eq!(runtime.dex().liquidity_pool(BTC), (1100, 909));
    assert_eq!(runtime.dex().liquidity_pool(DOT), (916, 1091));
    assert_eq!(runtime.tokens().free_balance(BTC, BOB), ENDOWMENT - 100);
    assert_eq!(runtime.tokens().free_balance(DOT, BOB), ENDOWMENT + 84);
    assert_eq!(runtime.tokens().free_balance(AUSD, BOB), ENDOWMENT);
    assert_eq!(runtime.tokens().free_balance(AUSD, Module::account_id()), 2000);
    assert_eq!(runtime.tokens().free_balance(BTC, Module::account_id()), 1100);
    assert_eq!(runtime.tokens().free_balance(DOT, Module::account_id()), 916);
}

#[test]
fn withdraw_all() {
    let mut runtime = genesis();
    runtime.add_liquidity(ALICE, BTC, 100, 100).unwrap();
    runtime.add_liquidity(BOB, BTC, 50, 50).unwrap();
    assert_eq!(runtime.withdraw_liquidity(ALICE, BTC, 100), Ok(()));
    // 100 / 150 truncates to 0.666..., whose product with 150 truncates to 99.
    assert_eq!(runtime.tokens().free_balance(BTC, ALICE), ENDOWMENT - 1);
    assert_eq!(runtime.tokens().free_balance(AUSD, ALICE), ENDOWMENT - 1);
    assert_eq!(runtime.dex().liquidity_pool(BTC), (51, 51));
    assert_eq!(runtime.events()[2], Event::WithdrawLiquidity(ALICE, BTC, 99, 99, 100));
    assert_eq!(runtime.withdraw_liquidity(BOB, BTC, 50), Ok(()));
    assert_eq!(runtime.tokens().free_balance(BTC, BOB), ENDOWMENT + 1);
    assert_eq!(runtime.tokens().free_balance(AUSD, BOB), ENDOWMENT + 1);
    assert_eq!(runtime.events()[3], Event::WithdrawLiquidity(BOB, BTC, 51, 51, 50));
    assert_eq!(runtime.dex().total_shares(BTC), 0);
    assert_eq!(runtime.dex().liquidity_pool(BTC), (0, 0));
    assert_eq!(runtime.dex().shares(BTC, ALICE), 0);
    assert_eq!(runtime.dex().shares(BTC, BOB), 0);
    assert_eq!(runtime.tokens().free_balance(BTC, Module::account_id()), 0);
    assert_eq!(runtime.tokens().free_balance(AUSD, Module::account_id()), 0);
}

#[test]
fn withdraw_all_in_even_parts() {
    let mut runtime = genesis();
    runtime.add_liquidity(ALICE, BTC, 100, 100).unwrap();
    runtime.add_liquidity(BOB, BTC, 100, 100).unwrap();
    assert_eq!(runtime.withdraw_liquidity(ALICE, BTC, 100), Ok(()));
    assert_eq!(runtime.tokens().free_balance(BTC, ALICE), ENDOWMENT);
    assert_eq!(runtime.tokens().free_balance(AUSD, ALICE), ENDOWMENT);
    assert_eq!(runtime.withdraw_liquidity(BOB, BTC, 100), Ok(()));
    assert_eq!(runtime.tokens().free_balance(BTC, BOB), ENDOWMENT);
    assert_eq!(runtime.dex().total_shares(BTC), 0);
    assert_eq!(runtime.dex().liquidity_pool(BTC), (0, 0));
}

#[test]
fn caller_without_funds_is_refused() {
    let mut runtime = with_pools(&[(BTC, 1000, 1000)]);
    assert_eq!(
        runtime.add_liquidity(CAROL, BTC, 10, 10),
        Err(DispatchError::Module(Error::TokenNotEnough))
    );
    assert_eq!(
        runtime.swap_currency(CAROL, (BTC, 10), (AUSD, 0)),
        Err(DispatchError::Module(Error::TokenNotEnough))
    );
    assert_eq!(
        runtime.add_liquidity(BOB, BTC, ENDOWMENT + 1, ENDOWMENT + 1),
        Err(DispatchError::Module(Error::TokenNotEnough))
    );
    assert_eq!(
        runtime.withdraw_liquidity(CAROL, BTC, 1),
        Err(DispatchError::Module(Error::ShareNotEnough))
    );
    assert_eq!(runtime.dex().liquidity_pool(BTC), (1000, 1000));
    assert_eq!(runtime.events().len(), 1);
    assert_eq!(runtime.tokens().free_balance(BTC, BOB), ENDOWMENT);
}

#[test]
fn refusals_of_the_exchange_reach_the_caller() {
    let mut runtime = with_pools(&[(BTC, 1000, 1000)]);
    assert_eq!(
        runtime.add_liquidity(BOB, AUSD, 10, 10),
        Err(DispatchError::Module(Error::BaseCurrencyIdNotAllowed))
    );
    assert_eq!(
        runtime.add_liquidity(BOB, BTC, 0, 10),
        Err(DispatchError::Module(Error::InvalidBalance))
    );
    assert_eq!(
        runtime.add_liquidity(BOB, BTC, 1, 0),
        Err(DispatchError::Module(Error::InvalidBalance))
    );
    assert_eq!(
        runtime.withdraw_liquidity(BOB, AUSD, 1),
        Err(DispatchError::Module(Error::BaseCurrencyIdNotAllowed))
    );
    assert_eq!(
        runtime.swap_currency(BOB, (BTC, 10), (BTC, 0)),
        Err(DispatchError::Module(Error::CanNotSwapItself))
    );
    assert_eq!(
        runtime.swap_currency(BOB, (BTC, 0), (AUSD, 0)),
        Err(DispatchError::Module(Error::TokenNotEnough))
    );
    assert_eq!(
        runtime.swap_currency(BOB, (BTC, 100), (AUSD, 92)),
        Err(DispatchError::Module(Error::InacceptablePrice))
    );
    assert_eq!(
        runtime.swap_currency(BOB, (DOT, 100), (AUSD, 0)),
        Err(DispatchError::Module(Error::InacceptablePrice))
    );
    assert_eq!(runtime.events().len(), 1);
}

#[test]
fn pool_account_cannot_sign() {
    let mut runtime = with_pools(&[(BTC, 1000, 1000)]);
    let pool = Module::account_id();
    assert_eq!(runtime.add_liquidity(pool, BTC, 10, 10), Err(DispatchError::BadOrigin));
    assert_eq!(runtime.withdraw_liquidity(pool, BTC, 10), Err(DispatchError::BadOrigin));
    assert_eq!(runtime.swap_currency(pool, (BTC, 10), (AUSD, 0)), Err(DispatchError::BadOrigin));
    assert_eq!(runtime.tokens().free_balance(BTC, pool), 1000);
    assert_eq!(runtime.dex().liquidity_pool(BTC), (1000, 1000));
}
