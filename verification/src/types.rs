//! The primitive types that the exchange shares with its host.

use vstd::prelude::*;

verus! {

/// Identifies a currency of the ledger.
pub type CurrencyId = u32;

/// Identifies an account of the ledger.
pub type AccountId = u64;

/// An amount of a currency.
pub type Balance = u128;

/// An amount of shares of a pool.
pub type Share = u128;

} // verus!
