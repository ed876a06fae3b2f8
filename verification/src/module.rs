//! The exchange: its configuration, its pool store, and the handlers of its
//! operations.
//!
//! A handler decides. It validates a request against the store, prices it,
//! commits the new reserves and shares, and answers with a [`Receipt`]: the
//! transfers that the ledger has to carry out between the caller and the pool
//! account, and the event to record. What only the ledger can tell, whether
//! the caller can withdraw an amount, is handed to the handler as an answer
//! already obtained. A handler that fails leaves the store as it was.

mod liquidity;
mod swap;

use crate::fixed::{Ratio, ACCURACY};
use crate::ledger::Transfer;
use crate::store::{
    base_sum, distinct_holdings, distinct_pools, find_pool, get_holding, held_at, held_sum,
    lemma_pool_at_absent, lemma_pool_at_index, lemma_pool_push, lemma_pool_update, listed,
    pool_at, put_holding, Holding, PoolEntry,
};
use crate::types::{AccountId, Balance, CurrencyId, Share};
use sp_runtime::traits::AccountIdConversion;
use sp_runtime::ModuleId;
use vstd::prelude::*;

verus! {

/// Why an operation was refused.
#[derive(Clone, Copy, Debug, PartialEq, Eq, Structural)]
pub enum Error {
    /// The base currency was named where a listed currency is expected.
    BaseCurrencyIdNotAllowed,
    /// The amount is zero or the caller cannot withdraw it.
    TokenNotEnough,
    /// The caller holds fewer shares than asked for, or asked for none.
    ShareNotEnough,
    /// A deposit offers nothing of one of its two currencies.
    InvalidBalance,
    /// Supply and target are the same currency.
    CanNotSwapItself,
    /// Nothing can be paid out, or less than the caller accepts.
    InacceptablePrice,
    /// A deposit would add nothing to a reserve or to the shares, or more
    /// than they can hold.
    InvalidLiquidityIncrement,
}

/// What a committed operation reports.
#[derive(Clone, Copy, Debug, PartialEq, Eq, Structural)]
pub enum Event {
    /// Account, currency, amount of it taken, base amount taken, shares
    /// minted.
    AddLiquidity(AccountId, CurrencyId, Balance, Balance, Share),
    /// Account, currency, the base amount returned in both amount fields,
    /// shares burned.
    WithdrawLiquidity(AccountId, CurrencyId, Balance, Balance, Share),
    /// Account, supplied currency and amount, received currency and amount.
    Swap(AccountId, CurrencyId, Balance, CurrencyId, Balance),
}

/// The answer of a committed operation: the transfers to carry out, in
/// order, and the event to record.
#[derive(Debug, PartialEq, Eq)]
pub struct Receipt {
    pub transfers: Vec<Transfer>,
    pub event: Event,
}

/// The exchange as a mathematical value.
pub struct ModuleView {
    pub base_currency_id: CurrencyId,
    pub exchange_fee: nat,
    pub pools: Seq<PoolEntry>,
    pub holdings: Seq<Holding>,
}

/// A pool's reserves and issued shares are all zero or all positive.
pub open spec fn balanced(entry: PoolEntry) -> bool {
    ||| entry.other == 0 && entry.base == 0 && entry.total_shares == 0
    ||| entry.other > 0 && entry.base > 0 && entry.total_shares > 0
}

impl ModuleView {
    /// The fee is below one, the base currency has no pool, every pool is
    /// balanced, and the shares issued on a pool are the shares that its
    /// holders hold together.
    pub open spec fn wf(self) -> bool {
        &&& self.exchange_fee < ACCURACY
        &&& distinct_pools(self.pools)
        &&& distinct_holdings(self.holdings)
        &&& !listed(self.pools, self.base_currency_id)
        &&& forall|c: CurrencyId| balanced(#[trigger] pool_at(self.pools, c))
        &&& forall|c: CurrencyId|
            #![trigger pool_at(self.pools, c)]
            #![trigger held_sum(self.holdings, c)]
            pool_at(self.pools, c).total_shares == held_sum(self.holdings, c)
    }
}

/// A receipt as a mathematical value.
pub struct ReceiptView {
    pub transfers: Seq<Transfer>,
    pub event: Event,
}

impl View for Receipt {
    type V = ReceiptView;

    open spec fn view(&self) -> ReceiptView {
        ReceiptView { transfers: self.transfers@, event: self.event }
    }
}

/// `after` is `before` but for the pool of `entry.currency_id`, which reads
/// `entry`; the base reserves together moved by what that pool's moved.
pub open spec fn with_pool(before: ModuleView, after: ModuleView, entry: PoolEntry) -> bool {
    &&& after.base_currency_id == before.base_currency_id
    &&& after.exchange_fee == before.exchange_fee
    &&& forall|c: CurrencyId|
        #[trigger] pool_at(after.pools, c) == if c == entry.currency_id {
            entry
        } else {
            pool_at(before.pools, c)
        }
    &&& base_sum(after.pools) + pool_at(before.pools, entry.currency_id).base == base_sum(
        before.pools,
    ) + entry.base
}

/// `after` is `before` but for the pools of the two distinct currencies of
/// `first` and `second`, which read `first` and `second`; the base reserves
/// together moved by what those two pools' moved.
pub open spec fn with_pools(
    before: ModuleView,
    after: ModuleView,
    first: PoolEntry,
    second: PoolEntry,
) -> bool {
    &&& after.base_currency_id == before.base_currency_id
    &&& after.exchange_fee == before.exchange_fee
    &&& forall|c: CurrencyId|
        #[trigger] pool_at(after.pools, c) == if c == first.currency_id {
            first
        } else if c == second.currency_id {
            second
        } else {
            pool_at(before.pools, c)
        }
    &&& base_sum(after.pools) + pool_at(before.pools, first.currency_id).base + pool_at(
        before.pools,
        second.currency_id,
    ).base == base_sum(before.pools) + first.base + second.base
}

/// `after` holds what `before` holds but for the key of `entry`, which reads
/// `entry.amount`.
pub open spec fn with_holding(before: ModuleView, after: ModuleView, entry: Holding) -> bool {
    forall|c: CurrencyId, a: AccountId|
        #[trigger] held_at(after.holdings, c, a) == if c == entry.currency_id && a
            == entry.account {
            entry.amount
        } else {
            held_at(before.holdings, c, a)
        }
}

/// The exchange: the base currency, the fee rate, and the pool store.
pub struct Module {
    base_currency_id: CurrencyId,
    exchange_fee: Ratio,
    pools: Vec<PoolEntry>,
    holdings: Vec<Holding>,
}

impl View for Module {
    type V = ModuleView;

    closed spec fn view(&self) -> ModuleView {
        ModuleView {
            base_currency_id: self.base_currency_id,
            exchange_fee: self.exchange_fee@,
            pools: self.pools@,
            holdings: self.holdings@,
        }
    }
}

/// `AccountIdConversion::into_account` of sp_runtime, applied to the module
/// identifier `aca/dexm`. The outside function encodes the four bytes `modl`
/// followed by the identifier and decodes an account from the front of that
/// encoding; for a 64-bit account these are the eight bytes `modlaca/` read
/// as a little-endian integer.
#[verifier::external_body]
fn module_account() -> (id: AccountId)
    ensures
        id == 0x2f61_6361_6c64_6f6du64,
{
    ModuleId(*b"aca/dexm").into_account()
}

impl Module {
    /// The invariant of the exchange.
    pub open spec fn wf(&self) -> bool {
        self@.wf()
    }

    /// The account that holds the reserves of every pool.
    pub open spec fn spec_account_id() -> AccountId {
        0x2f61_6361_6c64_6f6du64
    }

    /// The reserves `(other, base)` of the pool of a currency.
    pub open spec fn spec_liquidity_pool(&self, currency_id: CurrencyId) -> (Balance, Balance) {
        (pool_at(self@.pools, currency_id).other, pool_at(self@.pools, currency_id).base)
    }

    /// The shares issued on the pool of a currency.
    pub open spec fn spec_total_shares(&self, currency_id: CurrencyId) -> Share {
        pool_at(self@.pools, currency_id).total_shares
    }

    /// The shares of the pool of a currency that an account holds.
    pub open spec fn spec_shares(&self, currency_id: CurrencyId, who: AccountId) -> Share {
        held_at(self@.holdings, currency_id, who)
    }

    /// The base reserves of all pools together.
    pub open spec fn base_reserves(&self) -> nat {
        base_sum(self@.pools)
    }

    /// An exchange without pools; `None` where the fee is one or more.
    pub fn new(base_currency_id: CurrencyId, exchange_fee: Ratio) -> (module: Option<Module>)
        ensures
            exchange_fee@ >= ACCURACY <==> module is None,
            module matches Some(m) ==> {
                &&& m.wf()
                &&& m@.base_currency_id == base_currency_id
                &&& m@.exchange_fee == exchange_fee@
                &&& m@.pools == Seq::<PoolEntry>::empty()
                &&& m@.holdings == Seq::<Holding>::empty()
            },
    {
        if exchange_fee.parts >= ACCURACY {
            None
        } else {
            let module = Module {
                base_currency_id,
                exchange_fee,
                pools: Vec::new(),
                holdings: Vec::new(),
            };
            Some(module)
        }
    }

    /// The account that holds the reserves of every pool.
    #[verifier::when_used_as_spec(spec_account_id)]
    pub fn account_id() -> (id: AccountId)
        ensures
            id == Self::spec_account_id(),
    {
        module_account()
    }

    /// The currency that every pool is paired with.
    pub fn base_currency_id(&self) -> (id: CurrencyId)
        ensures
            id == self@.base_currency_id,
    {
        self.base_currency_id
    }

    /// The fee rate withheld from what a trade pays out.
    pub fn exchange_fee(&self) -> (fee: Ratio)
        ensures
            fee@ == self@.exchange_fee,
    {
        self.exchange_fee
    }

    /// The reserves `(other, base)` of the pool of a currency.
    #[verifier::when_used_as_spec(spec_liquidity_pool)]
    pub fn liquidity_pool(&self, currency_id: CurrencyId) -> (pool: (Balance, Balance))
        requires
            self.wf(),
        ensures
            pool == self.spec_liquidity_pool(currency_id),
    {
        let entry = self.read_pool(currency_id);
        (entry.other, entry.base)
    }

    /// The shares issued on the pool of a currency.
    #[verifier::when_used_as_spec(spec_total_shares)]
    pub fn total_shares(&self, currency_id: CurrencyId) -> (total: Share)
        requires
            self.wf(),
        ensures
            total == self.spec_total_shares(currency_id),
    {
        self.read_pool(currency_id).total_shares
    }

    /// The shares of the pool of a currency that an account holds.
    #[verifier::when_used_as_spec(spec_shares)]
    pub fn shares(&self, currency_id: CurrencyId, who: AccountId) -> (held: Share)
        requires
            self.wf(),
        ensures
            held == self.spec_shares(currency_id, who),
    {
        self.read_shares(currency_id, who)
    }

    /// Reads the record of a currency.
    fn read_pool(&self, currency_id: CurrencyId) -> (entry: PoolEntry)
        requires
            distinct_pools(self@.pools),
        ensures
            entry == pool_at(self@.pools, currency_id),
    {
        match find_pool(&self.pools, currency_id) {
            Some(i) => {
                proof {
                    lemma_pool_at_index(self.pools@, i as int);
                }
                self.pools[i]
            },
            None => {
                proof {
                    lemma_pool_at_absent(self.pools@, currency_id);
                }
                PoolEntry { currency_id, other: 0, base: 0, total_shares: 0 }
            },
        }
    }

    /// Reads the shares that an account holds of a pool.
    fn read_shares(&self, currency_id: CurrencyId, who: AccountId) -> (held: Share)
        requires
            distinct_holdings(self@.holdings),
        ensures
            held == held_at(self@.holdings, currency_id, who),
    {
        get_holding(&self.holdings, currency_id, who)
    }

    /// Writes the record of a listed currency.
    fn write_pool(&mut self, entry: PoolEntry)
        requires
            distinct_pools(old(self)@.pools),
            entry.currency_id != old(self)@.base_currency_id,
            !listed(old(self)@.pools, old(self)@.base_currency_id),
        ensures
            final(self)@.base_currency_id == old(self)@.base_currency_id,
            final(self)@.exchange_fee == old(self)@.exchange_fee,
            final(self)@.holdings == old(self)@.holdings,
            distinct_pools(final(self)@.pools),
            !listed(final(self)@.pools, final(self)@.base_currency_id),
            forall|c: CurrencyId|
                #[trigger] pool_at(final(self)@.pools, c) == if c == entry.currency_id {
                    entry
                } else {
                    pool_at(old(self)@.pools, c)
                },
            base_sum(final(self)@.pools) + pool_at(old(self)@.pools, entry.currency_id).base
                == base_sum(old(self)@.pools) + entry.base,
    {
        let ghost before = self.pools@;
        match find_pool(&self.pools, entry.currency_id) {
            Some(i) => {
                proof {
                    lemma_pool_update(before, i as int, entry);
                    lemma_pool_at_index(before, i as int);
                }
                self.pools.set(i, entry);
                proof {
                    let after = self.pools@;
                    let base = self.base_currency_id;
                    assert(!listed(after, base)) by {
                        if listed(after, base) {
                            let k = choose|k: int|
                                0 <= k < after.len() && (#[trigger] after[k]).currency_id == base;
                            assert(before[k].currency_id == base);
                        }
                    }
                }
            },
            None => {
                proof {
                    lemma_pool_push(before, entry);
                    lemma_pool_at_absent(before, entry.currency_id);
                }
                self.pools.push(entry);
                proof {
                    let after = self.pools@;
                    let base = self.base_currency_id;
                    assert(!listed(after, base)) by {
                        if listed(after, base) {
                            let k = choose|k: int|
                                0 <= k < after.len() && (#[trigger] after[k]).currency_id == base;
                            if k < before.len() {
                                assert(before[k].currency_id == base);
                            }
                        }
                    }
                }
            },
        }
    }

    /// Writes the shares that an account holds of a pool.
    fn write_shares(&mut self, entry: Holding)
        requires
            distinct_holdings(old(self)@.holdings),
        ensures
            final(self)@.base_currency_id == old(self)@.base_currency_id,
            final(self)@.exchange_fee == old(self)@.exchange_fee,
            final(self)@.pools == old(self)@.pools,
            distinct_holdings(final(self)@.holdings),
            forall|c: CurrencyId, a: AccountId|
                #[trigger] held_at(final(self)@.holdings, c, a) == if c == entry.currency_id && a
                    == entry.account {
                    entry.amount
                } else {
                    held_at(old(self)@.holdings, c, a)
                },
            forall|c: CurrencyId|
                #[trigger] held_sum(final(self)@.holdings, c) + (if c == entry.currency_id {
                    held_at(old(self)@.holdings, entry.currency_id, entry.account) as nat
                } else {
                    0
                }) == held_sum(old(self)@.holdings, c) + (if c == entry.currency_id {
                    entry.amount as nat
                } else {
                    0
                }),
    {
        put_holding(&mut self.holdings, entry);
    }
}

} // verus!
