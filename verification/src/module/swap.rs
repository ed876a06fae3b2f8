//! Trades: the three routes, the dispatch between them, and the quote of
//! the supply that a trade needs.

use super::{balanced, with_pool, with_pools, Error, Event, Module, Receipt, ReceiptView};
use crate::ledger::Transfer;
use crate::pricing::{
    lemma_no_supply_no_target, lemma_swap_target_amount_bounded, supply_amount,
    swap_supply_amount, swap_target_amount, target_amount,
};
use crate::store::{held_sum, lemma_base_at_most_sum, pool_at, PoolEntry};
use crate::types::{AccountId, Balance, CurrencyId};
use vstd::prelude::*;

verus! {

impl Module {
    /// What `amount` of a listed currency buys of the base currency out of
    /// that currency's pool.
    pub open spec fn other_to_base_amount(&self, other_currency_id: CurrencyId, amount: Balance) -> nat {
        let pool = pool_at(self@.pools, other_currency_id);
        swap_target_amount(
            self@.exchange_fee,
            pool.other as nat,
            pool.base as nat,
            amount as nat,
        )
    }

    /// What `amount` of the base currency buys of a listed currency out of
    /// that currency's pool.
    pub open spec fn base_to_other_amount(&self, other_currency_id: CurrencyId, amount: Balance) -> nat {
        let pool = pool_at(self@.pools, other_currency_id);
        swap_target_amount(
            self@.exchange_fee,
            pool.base as nat,
            pool.other as nat,
            amount as nat,
        )
    }

    /// The receipt of a trade in which `who` supplies `supply` and receives
    /// `target`.
    pub open spec fn swap_receipt(
        who: AccountId,
        supply: (CurrencyId, Balance),
        target: (CurrencyId, Balance),
    ) -> ReceiptView {
        ReceiptView {
            transfers: seq![
                Transfer {
                    currency_id: supply.0,
                    from: who,
                    to: Self::spec_account_id(),
                    amount: supply.1,
                },
                Transfer {
                    currency_id: target.0,
                    from: Self::spec_account_id(),
                    to: who,
                    amount: target.1,
                },
            ],
            event: Event::Swap(who, supply.0, supply.1, target.0, target.1),
        }
    }

    /// The answer of `swap_other_to_base`. It is refused for the base
    /// currency, for a zero amount or one that `who` cannot withdraw, and
    /// where the trade pays out nothing or less than the accepted minimum.
    pub open spec fn swap_other_to_base_outcome(
        &self,
        who: AccountId,
        other_currency_id: CurrencyId,
        other_currency_amount: Balance,
        min_base_currency_amount: Balance,
        can_withdraw: bool,
    ) -> Result<ReceiptView, Error> {
        let out = self.other_to_base_amount(other_currency_id, other_currency_amount);
        if other_currency_id == self@.base_currency_id {
            Err(Error::BaseCurrencyIdNotAllowed)
        } else if other_currency_amount == 0 || !can_withdraw {
            Err(Error::TokenNotEnough)
        } else if out == 0 || out < min_base_currency_amount {
            Err(Error::InacceptablePrice)
        } else {
            Ok(
                Self::swap_receipt(
                    who,
                    (other_currency_id, other_currency_amount),
                    (self@.base_currency_id, out as u128),
                ),
            )
        }
    }

    /// What `swap_other_to_base` commits where it succeeds: the pool gains
    /// the supply and loses what is paid out.
    pub open spec fn swap_other_to_base_effect(
        &self,
        after: Module,
        other_currency_id: CurrencyId,
        other_currency_amount: Balance,
    ) -> bool {
        let pool = pool_at(self@.pools, other_currency_id);
        let out = self.other_to_base_amount(other_currency_id, other_currency_amount);
        &&& with_pool(
            self@,
            after@,
            PoolEntry {
                currency_id: other_currency_id,
                other: (pool.other + other_currency_amount) as u128,
                base: (pool.base - out) as u128,
                total_shares: pool.total_shares,
            },
        )
        &&& after@.holdings == self@.holdings
    }

    /// The answer of `swap_base_to_other`, refused as `swap_other_to_base`
    /// is.
    pub open spec fn swap_base_to_other_outcome(
        &self,
        who: AccountId,
        other_currency_id: CurrencyId,
        base_currency_amount: Balance,
        min_other_currency_amount: Balance,
        can_withdraw: bool,
    ) -> Result<ReceiptView, Error> {
        let out = self.base_to_other_amount(other_currency_id, base_currency_amount);
        if other_currency_id == self@.base_currency_id {
            Err(Error::BaseCurrencyIdNotAllowed)
        } else if base_currency_amount == 0 || !can_withdraw {
            Err(Error::TokenNotEnough)
        } else if out == 0 || out < min_other_currency_amount {
            Err(Error::InacceptablePrice)
        } else {
            Ok(
                Self::swap_receipt(
                    who,
                    (self@.base_currency_id, base_currency_amount),
                    (other_currency_id, out as u128),
                ),
            )
        }
    }

    /// What `swap_base_to_other` commits where it succeeds: the pool gains
    /// the supplied base amount and loses what is paid out.
    pub open spec fn swap_base_to_other_effect(
        &self,
        after: Module,
        other_currency_id: CurrencyId,
        base_currency_amount: Balance,
    ) -> bool {
        let pool = pool_at(self@.pools, other_currency_id);
        let out = self.base_to_other_amount(other_currency_id, base_currency_amount);
        &&& with_pool(
            self@,
            after@,
            PoolEntry {
                currency_id: other_currency_id,
                other: (pool.other - out) as u128,
                base: (pool.base + base_currency_amount) as u128,
                total_shares: pool.total_shares,
            },
        )
        &&& after@.holdings == self@.holdings
    }

    /// What a trade between two listed currencies pays out: the base amount
    /// that the supply buys out of its own pool buys the target out of the
    /// target's pool. Both prices are taken on the pools as they are before
    /// the trade.
    pub open spec fn other_to_other_amount(
        &self,
        supply_other_currency_id: CurrencyId,
        supply_other_currency_amount: Balance,
        target_other_currency_id: CurrencyId,
    ) -> nat {
        self.base_to_other_amount(
            target_other_currency_id,
            self.other_to_base_amount(
                supply_other_currency_id,
                supply_other_currency_amount,
            ) as u128,
        )
    }

    /// The answer of `swap_other_to_other`. It is refused where one of the
    /// two is the base currency, where they are the same currency, for a zero
    /// amount or one that `who` cannot withdraw, and where the trade pays out
    /// nothing or less than the accepted minimum.
    pub open spec fn swap_other_to_other_outcome(
        &self,
        who: AccountId,
        supply_other_currency_id: CurrencyId,
        supply_other_currency_amount: Balance,
        target_other_currency_id: CurrencyId,
        min_target_other_currency_amount: Balance,
        can_withdraw: bool,
    ) -> Result<ReceiptView, Error> {
        let out = self.other_to_other_amount(
            supply_other_currency_id,
            supply_other_currency_amount,
            target_other_currency_id,
        );
        if supply_other_currency_id == self@.base_currency_id || target_other_currency_id
            == self@.base_currency_id {
            Err(Error::BaseCurrencyIdNotAllowed)
        } else if supply_other_currency_id == target_other_currency_id {
            Err(Error::CanNotSwapItself)
        } else if supply_other_currency_amount == 0 || !can_withdraw {
            Err(Error::TokenNotEnough)
        } else if out == 0 || out < min_target_other_currency_amount {
            Err(Error::InacceptablePrice)
        } else {
            Ok(
                Self::swap_receipt(
                    who,
                    (supply_other_currency_id, supply_other_currency_amount),
                    (target_other_currency_id, out as u128),
                ),
            )
        }
    }

    /// What `swap_other_to_other` commits where it succeeds: the supply's
    /// pool gains the supply and loses the intermediate base amount, which
    /// the target's pool gains while it loses what is paid out.
    pub open spec fn swap_other_to_other_effect(
        &self,
        after: Module,
        supply_other_currency_id: CurrencyId,
        supply_other_currency_amount: Balance,
        target_other_currency_id: CurrencyId,
    ) -> bool {
        let supply_pool = pool_at(self@.pools, supply_other_currency_id);
        let target_pool = pool_at(self@.pools, target_other_currency_id);
        let intermediate = self.other_to_base_amount(
            supply_other_currency_id,
            supply_other_currency_amount,
        );
        let out = self.other_to_other_amount(
            supply_other_currency_id,
            supply_other_currency_amount,
            target_other_currency_id,
        );
        &&& with_pools(
            self@,
            after@,
            PoolEntry {
                currency_id: supply_other_currency_id,
                other: (supply_pool.other + supply_other_currency_amount) as u128,
                base: (supply_pool.base - intermediate) as u128,
                total_shares: supply_pool.total_shares,
            },
            PoolEntry {
                currency_id: target_other_currency_id,
                other: (target_pool.other - out) as u128,
                base: (target_pool.base + intermediate) as u128,
                total_shares: target_pool.total_shares,
            },
        )
        &&& after@.holdings == self@.holdings
    }

    /// What a trade of `supply_amount` pays out of reserves
    /// `(supply_pool, target_pool)` under the exchange's fee.
    pub fn calculate_swap_target_amount(
        &self,
        supply_pool: Balance,
        target_pool: Balance,
        supply_amount: Balance,
    ) -> (out: Balance)
        ensures
            out as nat == swap_target_amount(
                self@.exchange_fee,
                supply_pool as nat,
                target_pool as nat,
                supply_amount as nat,
            ),
    {
        target_amount(self.exchange_fee, supply_pool, target_pool, supply_amount)
    }

    /// What has to be supplied into reserves `(supply_pool, target_pool)` to
    /// be paid `target_amount` under the exchange's fee.
    pub fn calculate_swap_supply_amount(
        &self,
        supply_pool: Balance,
        target_pool: Balance,
        target_amount: Balance,
    ) -> (supply: Balance)
        ensures
            supply as nat == swap_supply_amount(
                self@.exchange_fee,
                supply_pool as nat,
                target_pool as nat,
                target_amount as nat,
            ),
    {
        supply_amount(self.exchange_fee, supply_pool, target_pool, target_amount)
    }

    /// Builds the receipt of a trade.
    fn swap_receipt_of(who: AccountId, supply: (CurrencyId, Balance), target: (CurrencyId, Balance)) -> (receipt:
        Receipt)
        ensures
            receipt@ == Self::swap_receipt(who, supply, target),
    {
        let mut transfers: Vec<Transfer> = Vec::new();
        transfers.push(
            Transfer { currency_id: supply.0, from: who, to: Self::account_id(), amount: supply.1 },
        );
        transfers.push(
            Transfer { currency_id: target.0, from: Self::account_id(), to: who, amount: target.1 },
        );
        let receipt = Receipt {
            transfers,
            event: Event::Swap(who, supply.0, supply.1, target.0, target.1),
        };
        assert(receipt@.transfers =~= Self::swap_receipt(who, supply, target).transfers);
        receipt
    }

    /// Trades `other_currency_amount` of a listed currency for the base
    /// currency. `can_withdraw` is the ledger's answer to whether `who` can
    /// withdraw that amount.
    pub fn swap_other_to_base(
        &mut self,
        who: AccountId,
        other_currency_id: CurrencyId,
        other_currency_amount: Balance,
        min_base_currency_amount: Balance,
        can_withdraw: bool,
    ) -> (r: Result<Receipt, Error>)
        requires
            old(self).wf(),
        ensures
            final(self).wf(),
            match r {
                Ok(receipt) => {
                    &&& old(self).swap_other_to_base_outcome(
                        who,
                        other_currency_id,
                        other_currency_amount,
                        min_base_currency_amount,
                        can_withdraw,
                    ) == Ok::<ReceiptView, Error>(receipt@)
                    &&& old(self).swap_other_to_base_effect(
                        *final(self),
                        other_currency_id,
                        other_currency_amount,
                    )
                },
                Err(e) => {
                    &&& old(self).swap_other_to_base_outcome(
                        who,
                        other_currency_id,
                        other_currency_amount,
                        min_base_currency_amount,
                        can_withdraw,
                    ) == Err::<ReceiptView, Error>(e)
                    &&& final(self)@ == old(self)@
                },
            },
    {
        if other_currency_id == self.base_currency_id {
            return Err(Error::BaseCurrencyIdNotAllowed);
        }
        if !(other_currency_amount > 0 && can_withdraw) {
            return Err(Error::TokenNotEnough);
        }
        let pool = self.read_pool(other_currency_id);
        let base_currency_amount: Balance = self.calculate_swap_target_amount(
            pool.other,
            pool.base,
            other_currency_amount,
        );
        if base_currency_amount == 0 || base_currency_amount < min_base_currency_amount {
            return Err(Error::InacceptablePrice);
        }
        proof {
            lemma_swap_target_amount_bounded(
                self@.exchange_fee,
                pool.other as nat,
                pool.base as nat,
                other_currency_amount as nat,
            );
            assert(balanced(pool_at(self@.pools, other_currency_id)));
        }
        let ghost before = self@;
        self.write_pool(
            PoolEntry {
                currency_id: other_currency_id,
                other: pool.other + other_currency_amount,
                base: pool.base - base_currency_amount,
                total_shares: pool.total_shares,
            },
        );
        proof {
            assert forall|c: CurrencyId| balanced(#[trigger] pool_at(self@.pools, c)) by {
                assert(balanced(pool_at(before.pools, c)));
            }
            assert forall|c: CurrencyId|
                #![trigger pool_at(self@.pools, c)]
                #![trigger held_sum(self@.holdings, c)]
                pool_at(self@.pools, c).total_shares == held_sum(self@.holdings, c) by {
                assert(pool_at(before.pools, c).total_shares == held_sum(before.holdings, c));
            }
        }
        Ok(
            Self::swap_receipt_of(
                who,
                (other_currency_id, other_currency_amount),
                (self.base_currency_id, base_currency_amount),
            ),
        )
    }

    /// Trades `base_currency_amount` of the base currency for a listed
    /// currency. `can_withdraw` is the ledger's answer to whether `who` can
    /// withdraw that amount.
    pub fn swap_base_to_other(
        &mut self,
        who: AccountId,
        other_currency_id: CurrencyId,
        base_currency_amount: Balance,
        min_other_currency_amount: Balance,
        can_withdraw: bool,
    ) -> (r: Result<Receipt, Error>)
        requires
            old(self).wf(),
        ensures
            final(self).wf(),
            match r {
                Ok(receipt) => {
                    &&& old(self).swap_base_to_other_outcome(
                        who,
                        other_currency_id,
                        base_currency_amount,
                        min_other_currency_amount,
                        can_withdraw,
                    ) == Ok::<ReceiptView, Error>(receipt@)
                    &&& old(self).swap_base_to_other_effect(
                        *final(self),
                        other_currency_id,
                        base_currency_amount,
                    )
                },
                Err(e) => {
                    &&& old(self).swap_base_to_other_outcome(
                        who,
                        other_currency_id,
                        base_currency_amount,
                        min_other_currency_amount,
                        can_withdraw,
                    ) == Err::<ReceiptView, Error>(e)
                    &&& final(self)@ == old(self)@
                },
            },
    {
        if other_currency_id == self.base_currency_id {
            return Err(Error::BaseCurrencyIdNotAllowed);
        }
        if !(base_currency_amount > 0 && can_withdraw) {
            return Err(Error::TokenNotEnough);
        }
        let pool = self.read_pool(other_currency_id);
        let other_currency_amount: Balance = self.calculate_swap_target_amount(
            pool.base,
            pool.other,
            base_currency_amount,
        );
        if other_currency_amount == 0 || other_currency_amount < min_other_currency_amount {
            return Err(Error::InacceptablePrice);
        }
        proof {
            lemma_swap_target_amount_bounded(
                self@.exchange_fee,
                pool.base as nat,
                pool.other as nat,
                base_currency_amount as nat,
            );
            assert(balanced(pool_at(self@.pools, other_currency_id)));
        }
        let ghost before = self@;
        self.write_pool(
            PoolEntry {
                currency_id: other_currency_id,
                other: pool.other - other_currency_amount,
                base: pool.base + base_currency_amount,
                total_shares: pool.total_shares,
            },
        );
        proof {
            assert forall|c: CurrencyId| balanced(#[trigger] pool_at(self@.pools, c)) by {
                assert(balanced(pool_at(before.pools, c)));
            }
            assert forall|c: CurrencyId|
                #![trigger pool_at(self@.pools, c)]
                #![trigger held_sum(self@.holdings, c)]
                pool_at(self@.pools, c).total_shares == held_sum(self@.holdings, c) by {
                assert(pool_at(before.pools, c).total_shares == held_sum(before.holdings, c));
            }
        }
        Ok(
            Self::swap_receipt_of(
                who,
                (self.base_currency_id, base_currency_amount),
                (other_currency_id, other_currency_amount),
            ),
        )
    }

    /// Trades `supply_other_currency_amount` of one listed currency for
    /// another through the base currency. `can_withdraw` is the ledger's
    /// answer to whether `who` can withdraw the supplied amount.
    pub fn swap_other_to_other(
        &mut self,
        who: AccountId,
        supply_other_currency_id: CurrencyId,
        supply_other_currency_amount: Balance,
        target_other_currency_id: CurrencyId,
        min_target_other_currency_amount: Balance,
        can_withdraw: bool,
    ) -> (r: Result<Receipt, Error>)
        requires
            old(self).wf(),
        ensures
            final(self).wf(),
            match r {
                Ok(receipt) => {
                    &&& old(self).swap_other_to_other_outcome(
                        who,
                        supply_other_currency_id,
                        supply_other_currency_amount,
                        target_other_currency_id,
                        min_target_other_currency_amount,
                        can_withdraw,
                    ) == Ok::<ReceiptView, Error>(receipt@)
                    &&& old(self).swap_other_to_other_effect(
                        *final(self),
                        supply_other_currency_id,
                        supply_other_currency_amount,
                        target_other_currency_id,
                    )
                },
                Err(e) => {
                    &&& old(self).swap_other_to_other_outcome(
                        who,
                        supply_other_currency_id,
                        supply_other_currency_amount,
                        target_other_currency_id,
                        min_target_other_currency_amount,
                        can_withdraw,
                    ) == Err::<ReceiptView, Error>(e)
                    &&& final(self)@ == old(self)@
                },
            },
    {
        if supply_other_currency_id == self.base_currency_id || target_other_currency_id
            == self.base_currency_id {
            return Err(Error::BaseCurrencyIdNotAllowed);
        }
        if supply_other_currency_id == target_other_currency_id {
            return Err(Error::CanNotSwapItself);
        }
        if !(supply_other_currency_amount > 0 && can_withdraw) {
            return Err(Error::TokenNotEnough);
        }
        let supply_pool = self.read_pool(supply_other_currency_id);
        let intermediate_base_currency_amount: Balance = self.calculate_swap_target_amount(
            supply_pool.other,
            supply_pool.base,
            supply_other_currency_amount,
        );
        let target_pool = self.read_pool(target_other_currency_id);
        let target_other_currency_amount: Balance = self.calculate_swap_target_amount(
            target_pool.base,
            target_pool.other,
            intermediate_base_currency_amount,
        );
        if target_other_currency_amount == 0 || target_other_currency_amount
            < min_target_other_currency_amount {
            return Err(Error::InacceptablePrice);
        }
        proof {
            lemma_swap_target_amount_bounded(
                self@.exchange_fee,
                supply_pool.other as nat,
                supply_pool.base as nat,
                supply_other_currency_amount as nat,
            );
            lemma_swap_target_amount_bounded(
                self@.exchange_fee,
                target_pool.base as nat,
                target_pool.other as nat,
                intermediate_base_currency_amount as nat,
            );
            lemma_no_supply_no_target(
                self@.exchange_fee,
                target_pool.base as nat,
                target_pool.other as nat,
            );
            assert(intermediate_base_currency_amount > 0);
            assert(balanced(pool_at(self@.pools, supply_other_currency_id)));
            assert(balanced(pool_at(self@.pools, target_other_currency_id)));
        }
        let ghost before = self@;
        self.write_pool(
            PoolEntry {
                currency_id: supply_other_currency_id,
                other: supply_pool.other + supply_other_currency_amount,
                base: supply_pool.base - intermediate_base_currency_amount,
                total_shares: supply_pool.total_shares,
            },
        );
        self.write_pool(
            PoolEntry {
                currency_id: target_other_currency_id,
                other: target_pool.other - target_other_currency_amount,
                base: target_pool.base + intermediate_base_currency_amount,
                total_shares: target_pool.total_shares,
            },
        );
        proof {
            assert forall|c: CurrencyId| balanced(#[trigger] pool_at(self@.pools, c)) by {
                assert(balanced(pool_at(before.pools, c)));
            }
            assert forall|c: CurrencyId|
                #![trigger pool_at(self@.pools, c)]
                #![trigger held_sum(self@.holdings, c)]
                pool_at(self@.pools, c).total_shares == held_sum(self@.holdings, c) by {
                assert(pool_at(before.pools, c).total_shares == held_sum(before.holdings, c));
            }
        }
        Ok(
            Self::swap_receipt_of(
                who,
                (supply_other_currency_id, supply_other_currency_amount),
                (target_other_currency_id, target_other_currency_amount),
            ),
        )
    }
}

impl Module {
    /// The answer of `exchange_currency`: a trade of a currency for itself is
    /// refused; a trade for the base currency, of the base currency, or
    /// between two listed currencies is answered as the handler of that
    /// route answers it.
    pub open spec fn exchange_currency_outcome(
        &self,
        who: AccountId,
        supply: (CurrencyId, Balance),
        target: (CurrencyId, Balance),
        can_withdraw: bool,
    ) -> Result<ReceiptView, Error> {
        if target.0 == supply.0 {
            Err(Error::CanNotSwapItself)
        } else if target.0 == self@.base_currency_id {
            self.swap_other_to_base_outcome(who, supply.0, supply.1, target.1, can_withdraw)
        } else if supply.0 == self@.base_currency_id {
            self.swap_base_to_other_outcome(who, target.0, supply.1, target.1, can_withdraw)
        } else {
            self.swap_other_to_other_outcome(
                who,
                supply.0,
                supply.1,
                target.0,
                target.1,
                can_withdraw,
            )
        }
    }

    /// What `exchange_currency` commits where it succeeds: what the handler
    /// of the route commits.
    pub open spec fn exchange_currency_effect(
        &self,
        after: Module,
        supply: (CurrencyId, Balance),
        target_currency_id: CurrencyId,
    ) -> bool {
        if target_currency_id == self@.base_currency_id {
            self.swap_other_to_base_effect(after, supply.0, supply.1)
        } else if supply.0 == self@.base_currency_id {
            self.swap_base_to_other_effect(after, target_currency_id, supply.1)
        } else {
            self.swap_other_to_other_effect(after, supply.0, supply.1, target_currency_id)
        }
    }

    /// Trades the amount `supply.1` of the currency `supply.0` for the
    /// currency `target.0`, of which `who` accepts no less than `target.1`.
    /// `can_withdraw` is the ledger's answer to whether `who` can withdraw
    /// the supply.
    pub fn exchange_currency(
        &mut self,
        who: AccountId,
        supply: (CurrencyId, Balance),
        target: (CurrencyId, Balance),
        can_withdraw: bool,
    ) -> (r: Result<Receipt, Error>)
        requires
            old(self).wf(),
        ensures
            final(self).wf(),
            match r {
                Ok(receipt) => {
                    &&& old(self).exchange_currency_outcome(who, supply, target, can_withdraw)
                        == Ok::<ReceiptView, Error>(receipt@)
                    &&& old(self).exchange_currency_effect(*final(self), supply, target.0)
                },
                Err(e) => {
                    &&& old(self).exchange_currency_outcome(who, supply, target, can_withdraw)
                        == Err::<ReceiptView, Error>(e)
                    &&& final(self)@ == old(self)@
                },
            },
    {
        if target.0 == supply.0 {
            return Err(Error::CanNotSwapItself);
        }
        if target.0 == self.base_currency_id {
            self.swap_other_to_base(who, supply.0, supply.1, target.1, can_withdraw)
        } else if supply.0 == self.base_currency_id {
            self.swap_base_to_other(who, target.0, supply.1, target.1, can_withdraw)
        } else {
            self.swap_other_to_other(who, supply.0, supply.1, target.0, target.1, can_withdraw)
        }
    }

    /// The supply of one currency that buys `target_currency_amount` of
    /// another: the inverse price on the pool of the route, or on both pools
    /// of a route between two listed currencies, target side first; `0` for
    /// a currency against itself.
    pub open spec fn required_supply(
        &self,
        supply_currency_id: CurrencyId,
        target_currency_id: CurrencyId,
        target_currency_amount: Balance,
    ) -> nat {
        let fee = self@.exchange_fee;
        let supply_pool = pool_at(self@.pools, supply_currency_id);
        let target_pool = pool_at(self@.pools, target_currency_id);
        if supply_currency_id == target_currency_id {
            0
        } else if target_currency_id == self@.base_currency_id {
            swap_supply_amount(
                fee,
                supply_pool.other as nat,
                supply_pool.base as nat,
                target_currency_amount as nat,
            )
        } else if supply_currency_id == self@.base_currency_id {
            swap_supply_amount(
                fee,
                target_pool.base as nat,
                target_pool.other as nat,
                target_currency_amount as nat,
            )
        } else {
            swap_supply_amount(
                fee,
                supply_pool.other as nat,
                supply_pool.base as nat,
                swap_supply_amount(
                    fee,
                    target_pool.base as nat,
                    target_pool.other as nat,
                    target_currency_amount as nat,
                ),
            )
        }
    }

    /// Quotes the supply of `supply_currency_id` that buys
    /// `target_currency_amount` of `target_currency_id`, `0` where there is
    /// no price.
    pub fn get_supply_amount(
        &self,
        supply_currency_id: CurrencyId,
        target_currency_id: CurrencyId,
        target_currency_amount: Balance,
    ) -> (supply: Balance)
        requires
            self.wf(),
        ensures
            supply as nat == self.required_supply(
                supply_currency_id,
                target_currency_id,
                target_currency_amount,
            ),
    {
        if supply_currency_id == target_currency_id {
            0
        } else if target_currency_id == self.base_currency_id {
            let pool = self.read_pool(supply_currency_id);
            self.calculate_swap_supply_amount(pool.other, pool.base, target_currency_amount)
        } else if supply_currency_id == self.base_currency_id {
            let pool = self.read_pool(target_currency_id);
            self.calculate_swap_supply_amount(pool.base, pool.other, target_currency_amount)
        } else {
            let target_pool = self.read_pool(target_currency_id);
            let intermediate_base_currency_amount: Balance = self.calculate_swap_supply_amount(
                target_pool.base,
                target_pool.other,
                target_currency_amount,
            );
            let supply_pool = self.read_pool(supply_currency_id);
            self.calculate_swap_supply_amount(
                supply_pool.other,
                supply_pool.base,
                intermediate_base_currency_amount,
            )
        }
    }
}

impl Module {
    /// What a trade pays out is covered by the reserve it is taken from,
    /// and the base reserve of a pool by the base reserves of all pools.
    pub proof fn lemma_swap_covered(&self, other_currency_id: CurrencyId, amount: Balance)
        ensures
            self.other_to_base_amount(other_currency_id, amount) <= pool_at(
                self@.pools,
                other_currency_id,
            ).base,
            self.base_to_other_amount(other_currency_id, amount) <= pool_at(
                self@.pools,
                other_currency_id,
            ).other,
            pool_at(self@.pools, other_currency_id).base <= self.base_reserves(),
    {
        let pool = pool_at(self@.pools, other_currency_id);
        lemma_swap_target_amount_bounded(
            self@.exchange_fee,
            pool.other as nat,
            pool.base as nat,
            amount as nat,
        );
        lemma_swap_target_amount_bounded(
            self@.exchange_fee,
            pool.base as nat,
            pool.other as nat,
            amount as nat,
        );
        lemma_base_at_most_sum(self@.pools, other_currency_id);
    }
}

} // verus!
