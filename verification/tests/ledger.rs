use dex::{Ledger, LedgerError, Transfer};

const ALICE: u64 = 1;
const BOB: u64 = 2;
const BTC: u32 = 2;
const DOT: u32 = 3;

#[test]
fn deposit_issues() {
    let mut ledger = Ledger::new();
    assert_eq!(ledger.free_balance(BTC, ALICE), 0);
    assert_eq!(ledger.deposit(BTC, ALICE, 100), Ok(()));
    assert_eq!(ledger.deposit(BTC, ALICE, 20), Ok(()));
    assert_eq!(ledger.deposit(BTC, BOB, 5), Ok(()));
    assert_eq!(ledger.free_balance(BTC, ALICE), 120);
    assert_eq!(ledger.free_balance(BTC, BOB), 5);
    assert_eq!(ledger.free_balance(DOT, ALICE), 0);
    assert_eq!(ledger.total_issuance(BTC), 125);
    assert_eq!(ledger.total_issuance(DOT), 0);
}

#[test]
fn deposit_refuses_an_issuance_beyond_128_bits() {
    let mut ledger = Ledger::new();
    assert_eq!(ledger.deposit(BTC, ALICE, u128::MAX - 1), Ok(()));
    assert_eq!(ledger.deposit(BTC, BOB, 2), Err(LedgerError::IssuanceOverflow));
    assert_eq!(ledger.deposit(BTC, BOB, 1), Ok(()));
    assert_eq!(ledger.deposit(DOT, BOB, u128::MAX), Ok(()));
    assert_eq!(ledger.total_issuance(BTC), u128::MAX);
    assert_eq!(ledger.free_balance(BTC, BOB), 1);
}

#[test]
fn ensure_can_withdraw_compares_with_the_free_balance() {
    let mut ledger = Ledger::new();
    ledger.deposit(BTC, ALICE, 100).unwrap();
    assert!(ledger.ensure_can_withdraw(BTC, ALICE, 100));
    assert!(ledger.ensure_can_withdraw(BTC, ALICE, 0));
    assert!(!ledger.ensure_can_withdraw(BTC, ALICE, 101));
    assert!(!ledger.ensure_can_withdraw(DOT, ALICE, 1));
    assert!(ledger.ensure_can_withdraw(DOT, BOB, 0));
}

#[test]
fn transfer_moves_funds() {
    let mut ledger = Ledger::new();
    ledger.deposit(BTC, ALICE, 100).unwrap();
    assert_eq!(ledger.transfer(BTC, ALICE, BOB, 30), Ok(()));
    assert_eq!(ledger.free_balance(BTC, ALICE), 70);
    assert_eq!(ledger.free_balance(BTC, BOB), 30);
    assert_eq!(ledger.total_issuance(BTC), 100);
    assert_eq!(ledger.transfer(BTC, BOB, ALICE, 30), Ok(()));
    assert_eq!(ledger.free_balance(BTC, ALICE), 100);
    assert_eq!(ledger.free_balance(BTC, BOB), 0);
}

#[test]
fn transfer_refuses_more_than_the_free_balance() {
    let mut ledger = Ledger::new();
    ledger.deposit(BTC, ALICE, 100).unwrap();
    assert_eq!(ledger.transfer(BTC, ALICE, BOB, 101), Err(LedgerError::BalanceTooLow));
    assert_eq!(ledger.transfer(DOT, ALICE, BOB, 1), Err(LedgerError::BalanceTooLow));
    assert_eq!(ledger.transfer(BTC, ALICE, ALICE, 101), Err(LedgerError::BalanceTooLow));
    assert_eq!(ledger.free_balance(BTC, ALICE), 100);
    assert_eq!(ledger.free_balance(BTC, BOB), 0);
}

#[test]
fn transfer_to_oneself_changes_nothing() {
    let mut ledger = Ledger::new();
    ledger.deposit(BTC, ALICE, 100).unwrap();
    assert_eq!(ledger.transfer(BTC, ALICE, ALICE, 60), Ok(()));
    assert_eq!(ledger.free_balance(BTC, ALICE), 100);
    assert_eq!(ledger.total_issuance(BTC), 100);
}

#[test]
fn settle_carries_out_transfers_in_order() {
    let mut ledger = Ledger::new();
    ledger.deposit(BTC, ALICE, 100).unwrap();
    let transfers = vec![
        Transfer { currency_id: BTC, from: ALICE, to: BOB, amount: 100 },
        Transfer { currency_id: BTC, from: BOB, to: ALICE, amount: 40 },
    ];
    ledger.settle(&transfers);
    assert_eq!(ledger.free_balance(BTC, ALICE), 40);
    assert_eq!(ledger.free_balance(BTC, BOB), 60);
}
