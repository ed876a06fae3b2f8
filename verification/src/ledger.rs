//! A ledger of many currencies, held in memory: free balances per currency
//! and account, moved by transfers. It is the ledger of the runtime in memory,
//! and the model against which the custody of the pool account is stated.

use crate::store::{
    distinct_holdings, get_holding, held_at, held_sum, lemma_held_sum_prefix,
    lemma_two_held_at_most_sum, put_holding, Holding,
};
use crate::types::{AccountId, Balance, CurrencyId};
use vstd::prelude::*;

verus! {

/// A movement of funds that a ledger has to carry out.
#[derive(Clone, Copy, Debug, PartialEq, Eq, Structural)]
pub struct Transfer {
    pub currency_id: CurrencyId,
    pub from: AccountId,
    pub to: AccountId,
    pub amount: Balance,
}

/// Why the ledger refused.
#[derive(Clone, Copy, Debug, PartialEq, Eq, Structural)]
pub enum LedgerError {
    /// The payer's free balance is below the amount.
    BalanceTooLow,
    /// The currency's issuance would exceed 128 bits.
    IssuanceOverflow,
}

/// What a transfer adds to the balance of `who` under `currency_id`: the
/// amount for the receiver, its negative for the payer, nothing for anyone
/// else, and nothing at all where payer and receiver are the same account.
pub open spec fn flow(transfer: Transfer, currency_id: CurrencyId, who: AccountId) -> int {
    if transfer.currency_id != currency_id || transfer.from == transfer.to {
        0
    } else if transfer.to == who {
        transfer.amount as int
    } else if transfer.from == who {
        -(transfer.amount as int)
    } else {
        0
    }
}

/// The balance of `who` under `currency_id` once the transfers are carried
/// out on the balances `accounts`.
pub open spec fn balance_after(
    accounts: Seq<Holding>,
    transfers: Seq<Transfer>,
    currency_id: CurrencyId,
    who: AccountId,
) -> int
    decreases transfers.len(),
{
    if transfers.len() == 0 {
        held_at(accounts, currency_id, who) as int
    } else {
        balance_after(accounts, transfers.drop_last(), currency_id, who) + flow(
            transfers.last(),
            currency_id,
            who,
        )
    }
}

/// Every transfer, at its turn, finds its amount in the payer's balance.
pub open spec fn payable(accounts: Seq<Holding>, transfers: Seq<Transfer>) -> bool
    decreases transfers.len(),
{
    transfers.len() == 0 || {
        &&& payable(accounts, transfers.drop_last())
        &&& balance_after(
            accounts,
            transfers.drop_last(),
            transfers.last().currency_id,
            transfers.last().from,
        ) >= transfers.last().amount
    }
}

/// Free balances per currency and account.
pub struct Ledger {
    accounts: Vec<Holding>,
}

impl View for Ledger {
    type V = Seq<Holding>;

    closed spec fn view(&self) -> Seq<Holding> {
        self.accounts@
    }
}

impl Ledger {
    /// No account has two balances under one currency, and the issuance of
    /// every currency fits in 128 bits.
    pub open spec fn wf(&self) -> bool {
        &&& distinct_holdings(self@)
        &&& forall|c: CurrencyId| #[trigger] held_sum(self@, c) <= u128::MAX
    }

    /// The free balance of an account under a currency.
    pub open spec fn spec_free_balance(&self, currency_id: CurrencyId, who: AccountId) -> Balance {
        held_at(self@, currency_id, who)
    }

    /// The issuance of a currency: what all accounts hold of it together.
    pub open spec fn spec_total_issuance(&self, currency_id: CurrencyId) -> nat {
        held_sum(self@, currency_id)
    }

    /// A ledger on which nobody holds anything.
    pub fn new() -> (ledger: Ledger)
        ensures
            ledger.wf(),
            ledger@ == Seq::<Holding>::empty(),
    {
        Ledger { accounts: Vec::new() }
    }

    /// The free balance of an account under a currency.
    #[verifier::when_used_as_spec(spec_free_balance)]
    pub fn free_balance(&self, currency_id: CurrencyId, who: AccountId) -> (free: Balance)
        requires
            self.wf(),
        ensures
            free == self.spec_free_balance(currency_id, who),
    {
        get_holding(&self.accounts, currency_id, who)
    }

    /// The issuance of a currency.
    pub fn total_issuance(&self, currency_id: CurrencyId) -> (total: Balance)
        requires
            self.wf(),
        ensures
            total as nat == self.spec_total_issuance(currency_id),
    {
        let mut total: Balance = 0;
        let mut i: usize = 0;
        while i < self.accounts.len()
            invariant
                i <= self.accounts.len(),
                total as nat == held_sum(self.accounts@.take(i as int), currency_id),
                held_sum(self.accounts@, currency_id) <= u128::MAX,
            decreases self.accounts.len() - i,
        {
            proof {
                lemma_held_sum_prefix(self.accounts@, i + 1, currency_id);
                assert(self.accounts@.take(i + 1).drop_last() =~= self.accounts@.take(i as int));
            }
            if self.accounts[i].currency_id == currency_id {
                total = total + self.accounts[i].amount;
            }
            i += 1;
        }
        assert(self.accounts@.take(i as int) =~= self.accounts@);
        total
    }

    /// Whether an account can withdraw an amount: whether its free balance
    /// covers it.
    pub fn ensure_can_withdraw(&self, currency_id: CurrencyId, who: AccountId, amount: Balance) -> (can:
        bool)
        requires
            self.wf(),
        ensures
            can == (self.spec_free_balance(currency_id, who) >= amount),
    {
        self.free_balance(currency_id, who) >= amount
    }

    /// Issues `amount` of a currency to an account; refused where the
    /// issuance would exceed 128 bits.
    pub fn deposit(&mut self, currency_id: CurrencyId, who: AccountId, amount: Balance) -> (r: Result<
        (),
        LedgerError,
    >)
        requires
            old(self).wf(),
        ensures
            final(self).wf(),
            old(self).spec_total_issuance(currency_id) + amount > u128::MAX <==> r is Err,
            r is Err ==> r == Err::<(), LedgerError>(LedgerError::IssuanceOverflow) && final(self)@
                == old(self)@,
            r is Ok ==> forall|c: CurrencyId, a: AccountId|
                #[trigger] held_at(final(self)@, c, a) == if c == currency_id && a == who {
                    (held_at(old(self)@, c, a) + amount) as u128
                } else {
                    held_at(old(self)@, c, a)
                },
            r is Ok ==> forall|c: CurrencyId|
                #[trigger] held_sum(final(self)@, c) == held_sum(old(self)@, c) + (if c
                    == currency_id {
                    amount as nat
                } else {
                    0
                }),
    {
        let issued: Balance = self.total_issuance(currency_id);
        if issued.checked_add(amount).is_none() {
            return Err(LedgerError::IssuanceOverflow);
        }
        let held: Balance = self.free_balance(currency_id, who);
        proof {
            crate::store::lemma_held_at_most_sum(self@, currency_id, who);
        }
        put_holding(
            &mut self.accounts,
            Holding { currency_id, account: who, amount: held + amount },
        );
        Ok(())
    }

    /// Moves `amount` of a currency from one account to another; refused
    /// where the payer's free balance is below the amount. A transfer to
    /// oneself changes nothing.
    pub fn transfer(
        &mut self,
        currency_id: CurrencyId,
        from: AccountId,
        to: AccountId,
        amount: Balance,
    ) -> (r: Result<(), LedgerError>)
        requires
            old(self).wf(),
        ensures
            final(self).wf(),
            old(self).spec_free_balance(currency_id, from) < amount <==> r is Err,
            r is Err ==> r == Err::<(), LedgerError>(LedgerError::BalanceTooLow) && final(self)@
                == old(self)@,
            r is Ok ==> forall|c: CurrencyId, a: AccountId|
                #[trigger] held_at(final(self)@, c, a) == held_at(old(self)@, c, a) + flow(
                    Transfer { currency_id, from, to, amount },
                    c,
                    a,
                ),
            r is Ok ==> forall|c: CurrencyId|
                #[trigger] held_sum(final(self)@, c) == held_sum(old(self)@, c),
    {
        let available: Balance = self.free_balance(currency_id, from);
        if available < amount {
            return Err(LedgerError::BalanceTooLow);
        }
        if from == to {
            return Ok(());
        }
        let credited: Balance = self.free_balance(currency_id, to);
        proof {
            lemma_two_held_at_most_sum(self@, currency_id, from, to);
        }
        put_holding(
            &mut self.accounts,
            Holding { currency_id, account: from, amount: available - amount },
        );
        put_holding(
            &mut self.accounts,
            Holding { currency_id, account: to, amount: credited + amount },
        );
        Ok(())
    }

    /// Carries out transfers in order.
    pub fn settle(&mut self, transfers: &Vec<Transfer>)
        requires
            old(self).wf(),
            payable(old(self)@, transfers@),
        ensures
            final(self).wf(),
            forall|c: CurrencyId, a: AccountId|
                #[trigger] held_at(final(self)@, c, a) == balance_after(
                    old(self)@,
                    transfers@,
                    c,
                    a,
                ),
            forall|c: CurrencyId| #[trigger] held_sum(final(self)@, c) == held_sum(old(self)@, c),
    {
        let mut i: usize = 0;
        while i < transfers.len()
            invariant
                i <= transfers.len(),
                self.wf(),
                payable(old(self)@, transfers@),
                forall|c: CurrencyId, a: AccountId|
                    #[trigger] held_at(self@, c, a) == balance_after(
                        old(self)@,
                        transfers@.take(i as int),
                        c,
                        a,
                    ),
                forall|c: CurrencyId| #[trigger] held_sum(self@, c) == held_sum(old(self)@, c),
            decreases transfers.len() - i,
        {
            let t = transfers[i];
            proof {
                lemma_payable_prefix(old(self)@, transfers@, i + 1);
                assert(transfers@.take(i + 1).drop_last() =~= transfers@.take(i as int));
                assert(transfers@.take(i + 1).last() == t);
            }
            let done = self.transfer(t.currency_id, t.from, t.to, t.amount);
            assert(done is Ok);
            i += 1;
        }
        assert(transfers@.take(i as int) =~= transfers@);
    }
}

/// Where all transfers are payable in order, so are the first `n`.
pub proof fn lemma_payable_prefix(accounts: Seq<Holding>, transfers: Seq<Transfer>, n: int)
    requires
        0 <= n <= transfers.len(),
        payable(accounts, transfers),
    ensures
        payable(accounts, transfers.take(n)),
    decreases transfers.len(),
{
    if n == transfers.len() {
        assert(transfers.take(n) =~= transfers);
    } else {
        assert(transfers.take(n) =~= transfers.drop_last().take(n));
        lemma_payable_prefix(accounts, transfers.drop_last(), n);
    }
}

/// The balances once a single transfer is carried out.
pub proof fn lemma_balance_after_one(
    accounts: Seq<Holding>,
    transfer: Transfer,
    currency_id: CurrencyId,
    who: AccountId,
)
    ensures
        balance_after(accounts, seq![transfer], currency_id, who) == held_at(
            accounts,
            currency_id,
            who,
        ) + flow(transfer, currency_id, who),
{
    reveal_with_fuel(balance_after, 2);
    assert(seq![transfer].drop_last() =~= Seq::<Transfer>::empty());
}

/// The balances once two transfers are carried out.
pub proof fn lemma_balance_after_two(
    accounts: Seq<Holding>,
    first: Transfer,
    second: Transfer,
    currency_id: CurrencyId,
    who: AccountId,
)
    ensures
        balance_after(accounts, seq![first, second], currency_id, who) == held_at(
            accounts,
            currency_id,
            who,
        ) + flow(first, currency_id, who) + flow(second, currency_id, who),
{
    assert(seq![first, second].drop_last() =~= seq![first]);
    lemma_balance_after_one(accounts, first, currency_id, who);
}

/// When a single transfer is payable.
pub proof fn lemma_payable_one(accounts: Seq<Holding>, transfer: Transfer)
    ensures
        payable(accounts, seq![transfer]) <==> held_at(
            accounts,
            transfer.currency_id,
            transfer.from,
        ) >= transfer.amount,
{
    reveal_with_fuel(payable, 2);
    assert(seq![transfer].drop_last() =~= Seq::<Transfer>::empty());
}

/// When two transfers are payable in order.
pub proof fn lemma_payable_two(accounts: Seq<Holding>, first: Transfer, second: Transfer)
    ensures
        payable(accounts, seq![first, second]) <==> {
            &&& held_at(accounts, first.currency_id, first.from) >= first.amount
            &&& held_at(accounts, second.currency_id, second.from) + flow(
                first,
                second.currency_id,
                second.from,
            ) >= second.amount
        },
{
    assert(seq![first, second].drop_last() =~= seq![first]);
    lemma_payable_one(accounts, first);
    lemma_balance_after_one(accounts, first, second.currency_id, second.from);
}

} // verus!
