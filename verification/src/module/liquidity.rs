//! Deposits and withdrawals of liquidity.

use super::{balanced, with_holding, with_pool, Error, Event, Module, Receipt, ReceiptView};
use crate::ledger::Transfer;
use crate::shares::{
    increment, lemma_withdrawn_amount_bounded, liquidity_increment, withdrawal, withdrawn_amount,
    Increment,
};
use crate::store::{
    held_at, held_sum, lemma_base_at_most_sum, lemma_held_at_most_sum, pool_at, Holding,
    PoolEntry,
};
use crate::types::{AccountId, Balance, CurrencyId, Share};
use vstd::prelude::*;

verus! {

impl Module {
    /// What a deposit of at most `(max_other, max_base)` into the pool of a
    /// currency adds, or why it is refused. It is refused for the base
    /// currency, for an offer with a zero amount, and where an increment is
    /// zero or does not fit on top of what the pool holds.
    pub open spec fn deposit_outcome(
        &self,
        other_currency_id: CurrencyId,
        max_other: Balance,
        max_base: Balance,
    ) -> Result<Increment, Error> {
        let pool = pool_at(self@.pools, other_currency_id);
        let (other, base, share) = liquidity_increment(
            pool.other as nat,
            pool.base as nat,
            pool.total_shares as nat,
            max_other as nat,
            max_base as nat,
        );
        if other_currency_id == self@.base_currency_id {
            Err(Error::BaseCurrencyIdNotAllowed)
        } else if max_other == 0 || max_base == 0 {
            Err(Error::InvalidBalance)
        } else if other == 0 || base == 0 || share == 0 || pool.other + other > u128::MAX
            || pool.base + base > u128::MAX || pool.total_shares + share > u128::MAX {
            Err(Error::InvalidLiquidityIncrement)
        } else {
            Ok(Increment { other: other as u128, base: base as u128, share: share as u128 })
        }
    }

    /// The answer of `add_liquidity`, given the ledger's two answers.
    pub open spec fn add_liquidity_outcome(
        &self,
        who: AccountId,
        other_currency_id: CurrencyId,
        max_other: Balance,
        max_base: Balance,
        can_withdraw_other: bool,
        can_withdraw_base: bool,
    ) -> Result<ReceiptView, Error> {
        match self.deposit_outcome(other_currency_id, max_other, max_base) {
            Err(e) => Err(e),
            Ok(inc) => if !(can_withdraw_base && can_withdraw_other) {
                Err(Error::TokenNotEnough)
            } else {
                Ok(
                    ReceiptView {
                        transfers: seq![
                            Transfer {
                                currency_id: other_currency_id,
                                from: who,
                                to: Self::spec_account_id(),
                                amount: inc.other,
                            },
                            Transfer {
                                currency_id: self@.base_currency_id,
                                from: who,
                                to: Self::spec_account_id(),
                                amount: inc.base,
                            },
                        ],
                        event: Event::AddLiquidity(
                            who,
                            other_currency_id,
                            inc.other,
                            inc.base,
                            inc.share,
                        ),
                    },
                )
            },
        }
    }

    /// What `add_liquidity` commits where it succeeds.
    pub open spec fn add_liquidity_effect(
        &self,
        after: Module,
        who: AccountId,
        other_currency_id: CurrencyId,
        max_other: Balance,
        max_base: Balance,
    ) -> bool {
        let pool = pool_at(self@.pools, other_currency_id);
        let inc = self.deposit_outcome(other_currency_id, max_other, max_base)->Ok_0;
        &&& with_pool(
            self@,
            after@,
            PoolEntry {
                currency_id: other_currency_id,
                other: (pool.other + inc.other) as u128,
                base: (pool.base + inc.base) as u128,
                total_shares: (pool.total_shares + inc.share) as u128,
            },
        )
        &&& with_holding(
            self@,
            after@,
            Holding {
                currency_id: other_currency_id,
                account: who,
                amount: (held_at(self@.holdings, other_currency_id, who) + inc.share) as u128,
            },
        )
    }

    /// Validates a deposit and computes its increments, without committing
    /// anything: what `add_liquidity` will ask the caller to be able to
    /// withdraw.
    pub fn liquidity_increment(
        &self,
        other_currency_id: CurrencyId,
        max_other_currency_amount: Balance,
        max_base_currency_amount: Balance,
    ) -> (r: Result<Increment, Error>)
        requires
            self.wf(),
        ensures
            r == self.deposit_outcome(
                other_currency_id,
                max_other_currency_amount,
                max_base_currency_amount,
            ),
    {
        if other_currency_id == self.base_currency_id {
            return Err(Error::BaseCurrencyIdNotAllowed);
        }
        if max_other_currency_amount == 0 || max_base_currency_amount == 0 {
            return Err(Error::InvalidBalance);
        }
        let pool = self.read_pool(other_currency_id);
        assert(balanced(pool_at(self@.pools, other_currency_id)));
        let inc = increment(
            pool.other,
            pool.base,
            pool.total_shares,
            max_other_currency_amount,
            max_base_currency_amount,
        );
        if inc.share == 0 || inc.other == 0 || inc.base == 0 {
            return Err(Error::InvalidLiquidityIncrement);
        }
        if pool.other.checked_add(inc.other).is_none() || pool.base.checked_add(inc.base).is_none()
            || pool.total_shares.checked_add(inc.share).is_none() {
            return Err(Error::InvalidLiquidityIncrement);
        }
        Ok(inc)
    }

    /// Deposits into the pool of `other_currency_id` at most the two offered
    /// amounts, in the pool's proportion, and mints shares for `who`.
    /// `can_withdraw_other` and `can_withdraw_base` are the ledger's answers
    /// to whether `who` can withdraw the increments that
    /// `liquidity_increment` computes.
    pub fn add_liquidity(
        &mut self,
        who: AccountId,
        other_currency_id: CurrencyId,
        max_other_currency_amount: Balance,
        max_base_currency_amount: Balance,
        can_withdraw_other: bool,
        can_withdraw_base: bool,
    ) -> (r: Result<Receipt, Error>)
        requires
            old(self).wf(),
        ensures
            final(self).wf(),
            match r {
                Ok(receipt) => {
                    &&& old(self).add_liquidity_outcome(
                        who,
                        other_currency_id,
                        max_other_currency_amount,
                        max_base_currency_amount,
                        can_withdraw_other,
                        can_withdraw_base,
                    ) == Ok::<ReceiptView, Error>(receipt@)
                    &&& old(self).add_liquidity_effect(
                        *final(self),
                        who,
                        other_currency_id,
                        max_other_currency_amount,
                        max_base_currency_amount,
                    )
                },
                Err(e) => {
                    &&& old(self).add_liquidity_outcome(
                        who,
                        other_currency_id,
                        max_other_currency_amount,
                        max_base_currency_amount,
                        can_withdraw_other,
                        can_withdraw_base,
                    ) == Err::<ReceiptView, Error>(e)
                    &&& final(self)@ == old(self)@
                },
            },
    {
        let inc = match self.liquidity_increment(
            other_currency_id,
            max_other_currency_amount,
            max_base_currency_amount,
        ) {
            Err(e) => {
                return Err(e);
            },
            Ok(inc) => inc,
        };
        if !(can_withdraw_base && can_withdraw_other) {
            return Err(Error::TokenNotEnough);
        }
        let pool = self.read_pool(other_currency_id);
        let held: Share = self.read_shares(other_currency_id, who);
        proof {
            lemma_held_at_most_sum(self@.holdings, other_currency_id, who);
        }
        let ghost before = self@;
        self.write_pool(
            PoolEntry {
                currency_id: other_currency_id,
                other: pool.other + inc.other,
                base: pool.base + inc.base,
                total_shares: pool.total_shares + inc.share,
            },
        );
        self.write_shares(
            Holding { currency_id: other_currency_id, account: who, amount: held + inc.share },
        );
        proof {
            assert forall|c: CurrencyId| balanced(#[trigger] pool_at(self@.pools, c)) by {
                assert(balanced(pool_at(before.pools, c)));
            }
            assert forall|c: CurrencyId|
                #![trigger pool_at(self@.pools, c)]
                #![trigger held_sum(self@.holdings, c)]
                pool_at(self@.pools, c).total_shares == held_sum(self@.holdings, c) by {
                assert(pool_at(before.pools, c).total_shares == held_sum(before.holdings, c));
            }
        }
        let mut transfers: Vec<Transfer> = Vec::new();
        transfers.push(
            Transfer {
                currency_id: other_currency_id,
                from: who,
                to: Self::account_id(),
                amount: inc.other,
            },
        );
        transfers.push(
            Transfer {
                currency_id: self.base_currency_id,
                from: who,
                to: Self::account_id(),
                amount: inc.base,
            },
        );
        let receipt = Receipt {
            transfers,
            event: Event::AddLiquidity(who, other_currency_id, inc.other, inc.base, inc.share),
        };
        assert(receipt@.transfers =~= old(self).add_liquidity_outcome(
            who,
            other_currency_id,
            max_other_currency_amount,
            max_base_currency_amount,
            can_withdraw_other,
            can_withdraw_base,
        )->Ok_0.transfers);
        Ok(receipt)
    }
}

impl Module {
    /// What a withdrawal of `share_amount` shares takes out of the two
    /// reserves of the pool of a currency.
    pub open spec fn withdrawal_amounts(&self, currency_id: CurrencyId, share_amount: Share) -> (
        Balance,
        Balance,
    ) {
        let pool = pool_at(self@.pools, currency_id);
        (
            withdrawn_amount(
                share_amount as nat,
                pool.total_shares as nat,
                pool.other as nat,
            ) as u128,
            withdrawn_amount(share_amount as nat, pool.total_shares as nat, pool.base as nat) as u128,
        )
    }

    /// The answer of `withdraw_liquidity`. It is refused for the base
    /// currency and where `who` asks for no shares or for more than it
    /// holds. Only the positive amounts are transferred.
    pub open spec fn withdraw_liquidity_outcome(
        &self,
        who: AccountId,
        currency_id: CurrencyId,
        share_amount: Share,
    ) -> Result<ReceiptView, Error> {
        let (other, base) = self.withdrawal_amounts(currency_id, share_amount);
        let other_transfer = Transfer {
            currency_id,
            from: Self::spec_account_id(),
            to: who,
            amount: other,
        };
        let base_transfer = Transfer {
            currency_id: self@.base_currency_id,
            from: Self::spec_account_id(),
            to: who,
            amount: base,
        };
        if currency_id == self@.base_currency_id {
            Err(Error::BaseCurrencyIdNotAllowed)
        } else if held_at(self@.holdings, currency_id, who) < share_amount || share_amount == 0 {
            Err(Error::ShareNotEnough)
        } else {
            Ok(
                ReceiptView {
                    transfers: (if other > 0 {
                        seq![other_transfer]
                    } else {
                        seq![]
                    }) + (if base > 0 {
                        seq![base_transfer]
                    } else {
                        seq![]
                    }),
                    event: Event::WithdrawLiquidity(who, currency_id, base, base, share_amount),
                },
            )
        }
    }

    /// What `withdraw_liquidity` commits where it succeeds.
    pub open spec fn withdraw_liquidity_effect(
        &self,
        after: Module,
        who: AccountId,
        currency_id: CurrencyId,
        share_amount: Share,
    ) -> bool {
        let pool = pool_at(self@.pools, currency_id);
        let (other, base) = self.withdrawal_amounts(currency_id, share_amount);
        &&& with_pool(
            self@,
            after@,
            PoolEntry {
                currency_id,
                other: (pool.other - other) as u128,
                base: (pool.base - base) as u128,
                total_shares: (pool.total_shares - share_amount) as u128,
            },
        )
        &&& with_holding(
            self@,
            after@,
            Holding {
                currency_id,
                account: who,
                amount: (held_at(self@.holdings, currency_id, who) - share_amount) as u128,
            },
        )
    }

    /// Burns `share_amount` shares that `who` holds of the pool of
    /// `currency_id` and releases the same proportion of both reserves.
    pub fn withdraw_liquidity(
        &mut self,
        who: AccountId,
        currency_id: CurrencyId,
        share_amount: Share,
    ) -> (r: Result<Receipt, Error>)
        requires
            old(self).wf(),
        ensures
            final(self).wf(),
            match r {
                Ok(receipt) => {
                    &&& old(self).withdraw_liquidity_outcome(who, currency_id, share_amount) == Ok::<
                        ReceiptView,
                        Error,
                    >(receipt@)
                    &&& old(self).withdraw_liquidity_effect(
                        *final(self),
                        who,
                        currency_id,
                        share_amount,
                    )
                },
                Err(e) => {
                    &&& old(self).withdraw_liquidity_outcome(who, currency_id, share_amount)
                        == Err::<ReceiptView, Error>(e)
                    &&& final(self)@ == old(self)@
                },
            },
    {
        if currency_id == self.base_currency_id {
            return Err(Error::BaseCurrencyIdNotAllowed);
        }
        let held: Share = self.read_shares(currency_id, who);
        if !(held >= share_amount && share_amount > 0) {
            return Err(Error::ShareNotEnough);
        }
        let pool = self.read_pool(currency_id);
        proof {
            lemma_held_at_most_sum(self@.holdings, currency_id, who);
            assert(balanced(pool_at(self@.pools, currency_id)));
            lemma_withdrawn_amount_bounded(
                share_amount as nat,
                pool.total_shares as nat,
                pool.other as nat,
            );
            lemma_withdrawn_amount_bounded(
                share_amount as nat,
                pool.total_shares as nat,
                pool.base as nat,
            );
        }
        let other: Balance = withdrawal(share_amount, pool.total_shares, pool.other);
        let base: Balance = withdrawal(share_amount, pool.total_shares, pool.base);
        let ghost before = self@;
        self.write_pool(
            PoolEntry {
                currency_id,
                other: pool.other - other,
                base: pool.base - base,
                total_shares: pool.total_shares - share_amount,
            },
        );
        self.write_shares(Holding { currency_id, account: who, amount: held - share_amount });
        proof {
            assert forall|c: CurrencyId| balanced(#[trigger] pool_at(self@.pools, c)) by {
                assert(balanced(pool_at(before.pools, c)));
            }
            assert forall|c: CurrencyId|
                #![trigger pool_at(self@.pools, c)]
                #![trigger held_sum(self@.holdings, c)]
                pool_at(self@.pools, c).total_shares == held_sum(self@.holdings, c) by {
                assert(pool_at(before.pools, c).total_shares == held_sum(before.holdings, c));
            }
        }
        let mut transfers: Vec<Transfer> = Vec::new();
        if other > 0 {
            transfers.push(
                Transfer { currency_id, from: Self::account_id(), to: who, amount: other },
            );
        }
        if base > 0 {
            transfers.push(
                Transfer {
                    currency_id: self.base_currency_id,
                    from: Self::account_id(),
                    to: who,
                    amount: base,
                },
            );
        }
        let receipt = Receipt {
            transfers,
            event: Event::WithdrawLiquidity(who, currency_id, base, base, share_amount),
        };
        assert(receipt@.transfers =~= old(self).withdraw_liquidity_outcome(
            who,
            currency_id,
            share_amount,
        )->Ok_0.transfers);
        Ok(receipt)
    }
}

impl Module {
    /// What a withdrawal of shares that `who` holds releases is covered by
    /// the reserves of the pool.
    pub proof fn lemma_withdrawal_covered(
        &self,
        who: AccountId,
        currency_id: CurrencyId,
        share_amount: Share,
    )
        requires
            self.wf(),
            0 < share_amount <= held_at(self@.holdings, currency_id, who),
        ensures
            self.withdrawal_amounts(currency_id, share_amount).0 <= pool_at(
                self@.pools,
                currency_id,
            ).other,
            self.withdrawal_amounts(currency_id, share_amount).1 <= pool_at(
                self@.pools,
                currency_id,
            ).base,
            pool_at(self@.pools, currency_id).base <= self.base_reserves(),
    {
        let pool = pool_at(self@.pools, currency_id);
        lemma_held_at_most_sum(self@.holdings, currency_id, who);
        lemma_withdrawn_amount_bounded(
            share_amount as nat,
            pool.total_shares as nat,
            pool.other as nat,
        );
        lemma_withdrawn_amount_bounded(
            share_amount as nat,
            pool.total_shares as nat,
            pool.base as nat,
        );
        lemma_base_at_most_sum(self@.pools, currency_id);
    }
}

} // verus!
