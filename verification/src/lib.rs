//! A constant-product exchange that pairs every listed currency with one
//! base currency, together with the share accounting of its liquidity
//! providers and the fixed-point arithmetic that prices every trade.

pub mod fixed;
pub mod ledger;
pub mod module;
pub mod pricing;
pub mod runtime;
pub mod shares;
pub mod store;
pub mod theorems;
pub mod types;

pub use ledger::{Ledger, LedgerError, Transfer};
pub use module::{Error, Event, Module, Receipt};
pub use runtime::{DispatchError, ExtBuilder, Runtime};
