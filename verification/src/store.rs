//! Tables of records: one record of reserves and issued shares per listed
//! currency, and one record of a held amount per currency and account.
//!
//! A table is a sequence of records with distinct keys. A key without a
//! record reads as zero, so an absent record and a zero record are the same
//! to every reader.

use crate::types::{AccountId, Balance, CurrencyId, Share};
use vstd::prelude::*;

verus! {

/// The reserves of one listed currency against the base currency, and the
/// shares issued on them.
#[derive(Clone, Copy, Debug, PartialEq, Eq, Structural)]
pub struct PoolEntry {
    pub currency_id: CurrencyId,
    pub other: Balance,
    pub base: Balance,
    pub total_shares: Share,
}

/// What one account holds of one currency, or of the shares of its pool.
#[derive(Clone, Copy, Debug, PartialEq, Eq, Structural)]
pub struct Holding {
    pub currency_id: CurrencyId,
    pub account: AccountId,
    pub amount: u128,
}

/// The record of a currency that has none.
pub open spec fn empty_pool(currency_id: CurrencyId) -> PoolEntry {
    PoolEntry { currency_id, other: 0, base: 0, total_shares: 0 }
}

/// No two records are of the same currency.
pub open spec fn distinct_pools(pools: Seq<PoolEntry>) -> bool {
    forall|i: int, j: int|
        0 <= i < j < pools.len() ==> (#[trigger] pools[i]).currency_id != (
        #[trigger] pools[j]).currency_id
}

/// Whether a currency has a record.
pub open spec fn listed(pools: Seq<PoolEntry>, currency_id: CurrencyId) -> bool {
    exists|i: int| 0 <= i < pools.len() && (#[trigger] pools[i]).currency_id == currency_id
}

/// The record of a currency, or the empty record where it has none.
pub open spec fn pool_at(pools: Seq<PoolEntry>, currency_id: CurrencyId) -> PoolEntry
    decreases pools.len(),
{
    if pools.len() == 0 {
        empty_pool(currency_id)
    } else if pools.last().currency_id == currency_id {
        pools.last()
    } else {
        pool_at(pools.drop_last(), currency_id)
    }
}

/// The base reserves of all pools together.
pub open spec fn base_sum(pools: Seq<PoolEntry>) -> nat
    decreases pools.len(),
{
    if pools.len() == 0 {
        0
    } else {
        base_sum(pools.drop_last()) + pools.last().base as nat
    }
}

/// No two records are of the same currency and account.
pub open spec fn distinct_holdings(holdings: Seq<Holding>) -> bool {
    forall|i: int, j: int|
        0 <= i < j < holdings.len() ==> {
            ||| (#[trigger] holdings[i]).currency_id != (#[trigger] holdings[j]).currency_id
            ||| holdings[i].account != holdings[j].account
        }
}

/// What an account holds under a currency, zero where it has no record.
pub open spec fn held_at(holdings: Seq<Holding>, currency_id: CurrencyId, who: AccountId) -> u128
    decreases holdings.len(),
{
    if holdings.len() == 0 {
        0
    } else if holdings.last().currency_id == currency_id && holdings.last().account == who {
        holdings.last().amount
    } else {
        held_at(holdings.drop_last(), currency_id, who)
    }
}

/// What all accounts hold under a currency together.
pub open spec fn held_sum(holdings: Seq<Holding>, currency_id: CurrencyId) -> nat
    decreases holdings.len(),
{
    if holdings.len() == 0 {
        0
    } else if holdings.last().currency_id == currency_id {
        held_sum(holdings.drop_last(), currency_id) + holdings.last().amount as nat
    } else {
        held_sum(holdings.drop_last(), currency_id)
    }
}

/// A currency without a record reads as the empty record.
pub proof fn lemma_pool_at_absent(pools: Seq<PoolEntry>, currency_id: CurrencyId)
    requires
        !listed(pools, currency_id),
    ensures
        pool_at(pools, currency_id) == empty_pool(currency_id),
    decreases pools.len(),
{
    if pools.len() > 0 {
        assert(pools[pools.len() - 1].currency_id != currency_id);
        assert forall|i: int| 0 <= i < pools.drop_last().len() implies (
        #[trigger] pools.drop_last()[i]).currency_id != currency_id by {
            assert(pools[i].currency_id != currency_id);
        }
        lemma_pool_at_absent(pools.drop_last(), currency_id);
    }
}

/// With distinct keys, the record at an index is what is read for its
/// currency.
pub proof fn lemma_pool_at_index(pools: Seq<PoolEntry>, i: int)
    requires
        distinct_pools(pools),
        0 <= i < pools.len(),
    ensures
        pool_at(pools, pools[i].currency_id) == pools[i],
    decreases pools.len(),
{
    if i < pools.len() - 1 {
        assert(pools[i].currency_id != pools[pools.len() - 1].currency_id);
        assert(pools.drop_last()[i] == pools[i]);
        assert(distinct_pools(pools.drop_last())) by {
            assert forall|a: int, b: int| 0 <= a < b < pools.drop_last().len() implies (
            #[trigger] pools.drop_last()[a]).currency_id != (
            #[trigger] pools.drop_last()[b]).currency_id by {
                assert(pools[a].currency_id != pools[b].currency_id);
            }
        }
        lemma_pool_at_index(pools.drop_last(), i);
    }
}

/// Replacing a record by one of the same currency changes what is read for
/// that currency and nothing else, and moves the base total by the
/// difference of the two base reserves.
pub proof fn lemma_pool_update(pools: Seq<PoolEntry>, i: int, entry: PoolEntry)
    requires
        distinct_pools(pools),
        0 <= i < pools.len(),
        entry.currency_id == pools[i].currency_id,
    ensures
        distinct_pools(pools.update(i, entry)),
        forall|c: CurrencyId|
            #[trigger] pool_at(pools.update(i, entry), c) == if c == entry.currency_id {
                entry
            } else {
                pool_at(pools, c)
            },
        base_sum(pools.update(i, entry)) + pools[i].base == base_sum(pools) + entry.base,
{
    let updated = pools.update(i, entry);
    assert(distinct_pools(updated)) by {
        assert forall|a: int, b: int| 0 <= a < b < updated.len() implies (
        #[trigger] updated[a]).currency_id != (#[trigger] updated[b]).currency_id by {
            assert(pools[a].currency_id != pools[b].currency_id);
        }
    }
    assert forall|c: CurrencyId|
        #[trigger] pool_at(updated, c) == if c == entry.currency_id {
            entry
        } else {
            pool_at(pools, c)
        } by {
        if c == entry.currency_id {
            lemma_pool_at_index(updated, i);
        } else {
            lemma_pool_update_elsewhere(pools, i, entry, c);
        }
    }
    lemma_base_sum_update(pools, i, entry);
}

/// Replacing a record leaves what is read for every other currency.
proof fn lemma_pool_update_elsewhere(
    pools: Seq<PoolEntry>,
    i: int,
    entry: PoolEntry,
    c: CurrencyId,
)
    requires
        0 <= i < pools.len(),
        entry.currency_id == pools[i].currency_id,
        c != entry.currency_id,
    ensures
        pool_at(pools.update(i, entry), c) == pool_at(pools, c),
    decreases pools.len(),
{
    let updated = pools.update(i, entry);
    if i == pools.len() - 1 {
        assert(updated.drop_last() =~= pools.drop_last());
    } else {
        assert(updated.drop_last() =~= pools.drop_last().update(i, entry));
        assert(updated.last() == pools.last());
        lemma_pool_update_elsewhere(pools.drop_last(), i, entry, c);
    }
}

/// Replacing a record moves the base total by the difference of the two base
/// reserves.
proof fn lemma_base_sum_update(pools: Seq<PoolEntry>, i: int, entry: PoolEntry)
    requires
        0 <= i < pools.len(),
    ensures
        base_sum(pools.update(i, entry)) + pools[i].base == base_sum(pools) + entry.base,
    decreases pools.len(),
{
    let updated = pools.update(i, entry);
    if i == pools.len() - 1 {
        assert(updated.drop_last() =~= pools.drop_last());
    } else {
        assert(updated.drop_last() =~= pools.drop_last().update(i, entry));
        assert(updated.last() == pools.last());
        lemma_base_sum_update(pools.drop_last(), i, entry);
    }
}

/// Adding the record of a currency that had none changes what is read for
/// that currency and nothing else, and adds its base reserve to the total.
pub proof fn lemma_pool_push(pools: Seq<PoolEntry>, entry: PoolEntry)
    requires
        distinct_pools(pools),
        !listed(pools, entry.currency_id),
    ensures
        distinct_pools(pools.push(entry)),
        forall|c: CurrencyId|
            #[trigger] pool_at(pools.push(entry), c) == if c == entry.currency_id {
                entry
            } else {
                pool_at(pools, c)
            },
        base_sum(pools.push(entry)) == base_sum(pools) + entry.base,
{
    let pushed = pools.push(entry);
    assert(pushed.drop_last() =~= pools);
    assert(pushed.last() == entry);
    assert(distinct_pools(pushed)) by {
        assert forall|a: int, b: int| 0 <= a < b < pushed.len() implies (
        #[trigger] pushed[a]).currency_id != (#[trigger] pushed[b]).currency_id by {
            if b == pools.len() {
                assert(pools[a].currency_id != entry.currency_id);
            } else {
                assert(pools[a].currency_id != pools[b].currency_id);
            }
        }
    }
}

/// The base reserve of one pool is part of the base reserves of all pools.
pub proof fn lemma_base_at_most_sum(pools: Seq<PoolEntry>, currency_id: CurrencyId)
    ensures
        pool_at(pools, currency_id).base <= base_sum(pools),
    decreases pools.len(),
{
    if pools.len() > 0 {
        lemma_base_at_most_sum(pools.drop_last(), currency_id);
    }
}

/// Whether a currency and account have a record.
pub open spec fn holds(holdings: Seq<Holding>, currency_id: CurrencyId, who: AccountId) -> bool {
    exists|i: int|
        0 <= i < holdings.len() && (#[trigger] holdings[i]).currency_id == currency_id
            && holdings[i].account == who
}

/// An account without a record under a currency reads as holding nothing.
pub proof fn lemma_held_at_absent(holdings: Seq<Holding>, currency_id: CurrencyId, who: AccountId)
    requires
        !holds(holdings, currency_id, who),
    ensures
        held_at(holdings, currency_id, who) == 0,
    decreases holdings.len(),
{
    if holdings.len() > 0 {
        let last = holdings[holdings.len() - 1];
        assert(!(last.currency_id == currency_id && last.account == who));
        assert forall|i: int| 0 <= i < holdings.drop_last().len() implies !((
        #[trigger] holdings.drop_last()[i]).currency_id == currency_id
            && holdings.drop_last()[i].account == who) by {
            let h = holdings[i];
            assert(!(h.currency_id == currency_id && h.account == who));
        }
        lemma_held_at_absent(holdings.drop_last(), currency_id, who);
    }
}

/// With distinct keys, the record at an index is what is read for its key.
pub proof fn lemma_held_at_index(holdings: Seq<Holding>, i: int)
    requires
        distinct_holdings(holdings),
        0 <= i < holdings.len(),
    ensures
        held_at(holdings, holdings[i].currency_id, holdings[i].account) == holdings[i].amount,
    decreases holdings.len(),
{
    if i < holdings.len() - 1 {
        let last = holdings[holdings.len() - 1];
        assert(holdings[i].currency_id != last.currency_id || holdings[i].account != last.account);
        assert(holdings.drop_last()[i] == holdings[i]);
        assert(distinct_holdings(holdings.drop_last())) by {
            assert forall|a: int, b: int| 0 <= a < b < holdings.drop_last().len() implies {
                ||| (#[trigger] holdings.drop_last()[a]).currency_id != (
                #[trigger] holdings.drop_last()[b]).currency_id
                ||| holdings.drop_last()[a].account != holdings.drop_last()[b].account
            } by {
                assert(holdings[a].currency_id != holdings[b].currency_id || holdings[a].account
                    != holdings[b].account);
            }
        }
        lemma_held_at_index(holdings.drop_last(), i);
    }
}

/// What one account holds under a currency is part of what all accounts
/// hold under it.
pub proof fn lemma_held_at_most_sum(holdings: Seq<Holding>, currency_id: CurrencyId, who: AccountId)
    ensures
        held_at(holdings, currency_id, who) <= held_sum(holdings, currency_id),
    decreases holdings.len(),
{
    if holdings.len() > 0 {
        lemma_held_at_most_sum(holdings.drop_last(), currency_id, who);
    }
}

/// Replacing a record by one of the same key changes what is read for that
/// key and nothing else, and moves the currency's sum by the difference.
pub proof fn lemma_holding_update(holdings: Seq<Holding>, i: int, entry: Holding)
    requires
        distinct_holdings(holdings),
        0 <= i < holdings.len(),
        entry.currency_id == holdings[i].currency_id,
        entry.account == holdings[i].account,
    ensures
        distinct_holdings(holdings.update(i, entry)),
        forall|c: CurrencyId, a: AccountId|
            #[trigger] held_at(holdings.update(i, entry), c, a) == if c == entry.currency_id && a
                == entry.account {
                entry.amount
            } else {
                held_at(holdings, c, a)
            },
        forall|c: CurrencyId|
            #[trigger] held_sum(holdings.update(i, entry), c) + (if c == entry.currency_id {
                holdings[i].amount as nat
            } else {
                0
            }) == held_sum(holdings, c) + (if c == entry.currency_id {
                entry.amount as nat
            } else {
                0
            }),
{
    let updated = holdings.update(i, entry);
    assert(distinct_holdings(updated)) by {
        assert forall|a: int, b: int| 0 <= a < b < updated.len() implies {
            ||| (#[trigger] updated[a]).currency_id != (#[trigger] updated[b]).currency_id
            ||| updated[a].account != updated[b].account
        } by {
            assert(holdings[a].currency_id != holdings[b].currency_id || holdings[a].account
                != holdings[b].account);
        }
    }
    assert forall|c: CurrencyId, a: AccountId|
        #[trigger] held_at(updated, c, a) == if c == entry.currency_id && a == entry.account {
            entry.amount
        } else {
            held_at(holdings, c, a)
        } by {
        if c == entry.currency_id && a == entry.account {
            lemma_held_at_index(updated, i);
        } else {
            lemma_holding_update_elsewhere(holdings, i, entry, c, a);
        }
    }
    assert forall|c: CurrencyId|
        #[trigger] held_sum(updated, c) + (if c == entry.currency_id {
            holdings[i].amount as nat
        } else {
            0
        }) == held_sum(holdings, c) + (if c == entry.currency_id {
            entry.amount as nat
        } else {
            0
        }) by {
        lemma_held_sum_update(holdings, i, entry, c);
    }
}

/// Replacing a record leaves what is read for every other key.
proof fn lemma_holding_update_elsewhere(
    holdings: Seq<Holding>,
    i: int,
    entry: Holding,
    c: CurrencyId,
    a: AccountId,
)
    requires
        0 <= i < holdings.len(),
        entry.currency_id == holdings[i].currency_id,
        entry.account == holdings[i].account,
        !(c == entry.currency_id && a == entry.account),
    ensures
        held_at(holdings.update(i, entry), c, a) == held_at(holdings, c, a),
    decreases holdings.len(),
{
    let updated = holdings.update(i, entry);
    if i == holdings.len() - 1 {
        assert(updated.drop_last() =~= holdings.drop_last());
    } else {
        assert(updated.drop_last() =~= holdings.drop_last().update(i, entry));
        assert(updated.last() == holdings.last());
        lemma_holding_update_elsewhere(holdings.drop_last(), i, entry, c, a);
    }
}

/// Replacing a record by one of the same currency moves that currency's sum
/// by the difference, and no other sum.
proof fn lemma_held_sum_update(holdings: Seq<Holding>, i: int, entry: Holding, c: CurrencyId)
    requires
        0 <= i < holdings.len(),
        entry.currency_id == holdings[i].currency_id,
    ensures
        held_sum(holdings.update(i, entry), c) + (if c == entry.currency_id {
            holdings[i].amount as nat
        } else {
            0
        }) == held_sum(holdings, c) + (if c == entry.currency_id {
            entry.amount as nat
        } else {
            0
        }),
    decreases holdings.len(),
{
    let updated = holdings.update(i, entry);
    if i == holdings.len() - 1 {
        assert(updated.drop_last() =~= holdings.drop_last());
    } else {
        assert(updated.drop_last() =~= holdings.drop_last().update(i, entry));
        assert(updated.last() == holdings.last());
        lemma_held_sum_update(holdings.drop_last(), i, entry, c);
    }
}

/// Adding the record of a key that had none changes what is read for that
/// key and nothing else, and adds its amount to the currency's sum.
pub proof fn lemma_holding_push(holdings: Seq<Holding>, entry: Holding)
    requires
        distinct_holdings(holdings),
        !holds(holdings, entry.currency_id, entry.account),
    ensures
        distinct_holdings(holdings.push(entry)),
        forall|c: CurrencyId, a: AccountId|
            #[trigger] held_at(holdings.push(entry), c, a) == if c == entry.currency_id && a
                == entry.account {
                entry.amount
            } else {
                held_at(holdings, c, a)
            },
        forall|c: CurrencyId|
            #[trigger] held_sum(holdings.push(entry), c) == held_sum(holdings, c) + (if c
                == entry.currency_id {
                entry.amount as nat
            } else {
                0
            }),
{
    let pushed = holdings.push(entry);
    assert(pushed.drop_last() =~= holdings);
    assert(pushed.last() == entry);
    assert(distinct_holdings(pushed)) by {
        assert forall|a: int, b: int| 0 <= a < b < pushed.len() implies {
            ||| (#[trigger] pushed[a]).currency_id != (#[trigger] pushed[b]).currency_id
            ||| pushed[a].account != pushed[b].account
        } by {
            if b == holdings.len() {
                let h = holdings[a];
                assert(!(h.currency_id == entry.currency_id && h.account == entry.account));
            } else {
                assert(holdings[a].currency_id != holdings[b].currency_id || holdings[a].account
                    != holdings[b].account);
            }
        }
    }
}

/// Finds the record of a currency.
pub(crate) fn find_pool(pools: &Vec<PoolEntry>, currency_id: CurrencyId) -> (found: Option<usize>)
    ensures
        match found {
            Some(i) => i < pools.len() && pools[i as int].currency_id == currency_id,
            None => !listed(pools@, currency_id),
        },
{
    let mut i: usize = 0;
    while i < pools.len()
        invariant
            i <= pools.len(),
            forall|k: int| 0 <= k < i ==> (#[trigger] pools[k]).currency_id != currency_id,
        decreases pools.len() - i,
    {
        if pools[i].currency_id == currency_id {
            return Some(i);
        }
        i += 1;
    }
    None
}

/// Finds the record of a currency and account.
pub(crate) fn find_holding(holdings: &Vec<Holding>, currency_id: CurrencyId, who: AccountId) -> (found:
    Option<usize>)
    ensures
        match found {
            Some(i) => i < holdings.len() && holdings[i as int].currency_id == currency_id
                && holdings[i as int].account == who,
            None => !holds(holdings@, currency_id, who),
        },
{
    let mut i: usize = 0;
    while i < holdings.len()
        invariant
            i <= holdings.len(),
            forall|k: int|
                0 <= k < i ==> !((#[trigger] holdings[k]).currency_id == currency_id
                    && holdings[k].account == who),
        decreases holdings.len() - i,
    {
        if holdings[i].currency_id == currency_id && holdings[i].account == who {
            return Some(i);
        }
        i += 1;
    }
    None
}

/// What two different accounts hold under a currency is part of what all
/// accounts hold under it.
pub proof fn lemma_two_held_at_most_sum(
    holdings: Seq<Holding>,
    currency_id: CurrencyId,
    first: AccountId,
    second: AccountId,
)
    requires
        first != second,
    ensures
        held_at(holdings, currency_id, first) + held_at(holdings, currency_id, second) <= held_sum(
            holdings,
            currency_id,
        ),
    decreases holdings.len(),
{
    if holdings.len() > 0 {
        let last = holdings.last();
        if last.currency_id == currency_id && last.account == first {
            lemma_held_at_most_sum(holdings.drop_last(), currency_id, second);
        } else if last.currency_id == currency_id && last.account == second {
            lemma_held_at_most_sum(holdings.drop_last(), currency_id, first);
        } else {
            lemma_two_held_at_most_sum(holdings.drop_last(), currency_id, first, second);
        }
    }
}

/// What the first `n` records hold under a currency is part of what all
/// records hold under it.
pub proof fn lemma_held_sum_prefix(holdings: Seq<Holding>, n: int, currency_id: CurrencyId)
    requires
        0 <= n <= holdings.len(),
    ensures
        held_sum(holdings.take(n), currency_id) <= held_sum(holdings, currency_id),
    decreases holdings.len(),
{
    if n == holdings.len() {
        assert(holdings.take(n) =~= holdings);
    } else {
        assert(holdings.take(n) =~= holdings.drop_last().take(n));
        lemma_held_sum_prefix(holdings.drop_last(), n, currency_id);
    }
}

/// Writes a record into a table, in place of the record of its key where
/// there is one.
pub(crate) fn put_holding(table: &mut Vec<Holding>, entry: Holding)
    requires
        distinct_holdings(old(table)@),
    ensures
        distinct_holdings(final(table)@),
        forall|c: CurrencyId, a: AccountId|
            #[trigger] held_at(final(table)@, c, a) == if c == entry.currency_id && a
                == entry.account {
                entry.amount
            } else {
                held_at(old(table)@, c, a)
            },
        forall|c: CurrencyId|
            #[trigger] held_sum(final(table)@, c) + (if c == entry.currency_id {
                held_at(old(table)@, entry.currency_id, entry.account) as nat
            } else {
                0
            }) == held_sum(old(table)@, c) + (if c == entry.currency_id {
                entry.amount as nat
            } else {
                0
            }),
{
    let ghost before = table@;
    match find_holding(table, entry.currency_id, entry.account) {
        Some(i) => {
            proof {
                lemma_holding_update(before, i as int, entry);
                lemma_held_at_index(before, i as int);
            }
            table.set(i, entry);
        },
        None => {
            proof {
                lemma_holding_push(before, entry);
                lemma_held_at_absent(before, entry.currency_id, entry.account);
            }
            table.push(entry);
        },
    }
}

/// Reads what an account holds under a currency.
pub(crate) fn get_holding(table: &Vec<Holding>, currency_id: CurrencyId, who: AccountId) -> (held: u128)
    requires
        distinct_holdings(table@),
    ensures
        held == held_at(table@, currency_id, who),
{
    match find_holding(table, currency_id, who) {
        Some(i) => {
            proof {
                lemma_held_at_index(table@, i as int);
            }
            table[i].amount
        },
        None => {
            proof {
                lemma_held_at_absent(table@, currency_id, who);
            }
            0
        },
    }
}

} // verus!
