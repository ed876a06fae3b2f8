//! A runtime in memory: the exchange together with a ledger and an event
//! log, on which the operations run as transactions. Its invariant ties the
//! pool account's balances to the reserves of the pools.

use crate::ledger::{
    balance_after, flow, lemma_balance_after_one, lemma_balance_after_two, lemma_payable_one,
    lemma_payable_two, Ledger, Transfer,
};
use crate::module::{Error, Event, Module, ModuleView, ReceiptView};
use crate::fixed::Ratio;
use crate::store::{base_sum, held_at, held_sum, pool_at, Holding, PoolEntry};
use crate::types::{AccountId, Balance, CurrencyId, Share};
use vstd::prelude::*;

verus! {

pub const ALICE: AccountId = 1;

pub const BOB: AccountId = 2;

pub const CAROL: AccountId = 3;

pub const AUSD: CurrencyId = 1;

pub const BTC: CurrencyId = 2;

pub const DOT: CurrencyId = 3;

/// The pool account holds exactly the reserves: of every listed currency
/// what its pool holds of it, and of the base currency what all pools hold
/// of it together.
pub open spec fn custody(accounts: Seq<Holding>, dex: ModuleView) -> bool {
    &&& held_at(accounts, dex.base_currency_id, Module::spec_account_id()) as nat == base_sum(
        dex.pools,
    )
    &&& forall|c: CurrencyId|
        c != dex.base_currency_id ==> #[trigger] held_at(accounts, c, Module::spec_account_id())
            == pool_at(dex.pools, c).other
}

/// Why a transaction was refused.
#[derive(Clone, Copy, Debug, PartialEq, Eq, Structural)]
pub enum DispatchError {
    /// The caller is not an account that can sign.
    BadOrigin,
    /// The exchange refused.
    Module(Error),
}

/// The exchange, a ledger, and the events recorded so far.
pub struct Runtime {
    tokens: Ledger,
    dex: Module,
    events: Vec<Event>,
}

impl Runtime {
    /// The ledger.
    pub closed spec fn spec_tokens(&self) -> Ledger {
        self.tokens
    }

    /// The exchange.
    pub closed spec fn spec_dex(&self) -> Module {
        self.dex
    }

    /// The events recorded so far, oldest first.
    pub closed spec fn spec_events(&self) -> Seq<Event> {
        self.events@
    }

    /// Ledger and exchange are well formed, and the pool account holds
    /// exactly the reserves.
    pub open spec fn wf(&self) -> bool {
        &&& self.spec_tokens().wf()
        &&& self.spec_dex().wf()
        &&& custody(self.spec_tokens()@, self.spec_dex()@)
    }

    /// `after` is this runtime once the receipt's transfers are carried out
    /// and its event is recorded.
    pub open spec fn settled(&self, after: Runtime, receipt: ReceiptView) -> bool {
        &&& forall|c: CurrencyId, a: AccountId|
            #[trigger] held_at(after.spec_tokens()@, c, a) == balance_after(
                self.spec_tokens()@,
                receipt.transfers,
                c,
                a,
            )
        &&& after.spec_events() == self.spec_events().push(receipt.event)
    }

    /// `after` is this runtime unchanged.
    pub open spec fn unchanged(&self, after: Runtime) -> bool {
        &&& after.spec_tokens()@ == self.spec_tokens()@
        &&& after.spec_dex()@ == self.spec_dex()@
        &&& after.spec_events() == self.spec_events()
    }

    /// A runtime around an exchange without pools and a ledger on which the
    /// pool account holds nothing.
    pub fn new(tokens: Ledger, dex: Module) -> (runtime: Runtime)
        requires
            tokens.wf(),
            dex.wf(),
            dex@.pools == Seq::<PoolEntry>::empty(),
            forall|c: CurrencyId| #[trigger] held_at(tokens@, c, Module::spec_account_id()) == 0,
        ensures
            runtime.wf(),
            runtime.spec_tokens() == tokens,
            runtime.spec_dex() == dex,
            runtime.spec_events() == Seq::<Event>::empty(),
    {
        Runtime { tokens, dex, events: Vec::new() }
    }

    /// The ledger.
    pub fn tokens(&self) -> (tokens: &Ledger)
        ensures
            *tokens == self.spec_tokens(),
    {
        &self.tokens
    }

    /// The exchange.
    pub fn dex(&self) -> (dex: &Module)
        ensures
            *dex == self.spec_dex(),
    {
        &self.dex
    }

    /// The events recorded so far, oldest first.
    pub fn events(&self) -> (events: &Vec<Event>)
        ensures
            events@ == self.spec_events(),
    {
        &self.events
    }
}

/// The exchange's answer as the answer of a transaction.
pub open spec fn dispatched(answer: Result<ReceiptView, Error>) -> Result<
    ReceiptView,
    DispatchError,
> {
    match answer {
        Ok(receipt) => Ok(receipt),
        Err(e) => Err(DispatchError::Module(e)),
    }
}

impl Runtime {
    /// The ledger's answer to whether an account can withdraw an amount.
    pub open spec fn can_withdraw(&self, currency_id: CurrencyId, who: AccountId, amount: Balance) -> bool {
        held_at(self.spec_tokens()@, currency_id, who) >= amount
    }

    /// The receipt of the transaction `add_liquidity`, or why it is refused:
    /// the pool account cannot sign, and any other caller is answered as the
    /// exchange answers, the ledger being asked about the increments of the
    /// deposit.
    pub open spec fn add_liquidity_receipt(
        &self,
        who: AccountId,
        other_currency_id: CurrencyId,
        max_other_currency_amount: Balance,
        max_base_currency_amount: Balance,
    ) -> Result<ReceiptView, DispatchError> {
        let dex = self.spec_dex();
        if who == Module::spec_account_id() {
            Err(DispatchError::BadOrigin)
        } else {
            match dex.deposit_outcome(
                other_currency_id,
                max_other_currency_amount,
                max_base_currency_amount,
            ) {
                Err(e) => Err(DispatchError::Module(e)),
                Ok(inc) => dispatched(
                    dex.add_liquidity_outcome(
                        who,
                        other_currency_id,
                        max_other_currency_amount,
                        max_base_currency_amount,
                        self.can_withdraw(other_currency_id, who, inc.other),
                        self.can_withdraw(dex@.base_currency_id, who, inc.base),
                    ),
                ),
            }
        }
    }

    /// The receipt of the transaction `withdraw_liquidity`, or why it is
    /// refused.
    pub open spec fn withdraw_liquidity_receipt(
        &self,
        who: AccountId,
        currency_id: CurrencyId,
        share_amount: Share,
    ) -> Result<ReceiptView, DispatchError> {
        if who == Module::spec_account_id() {
            Err(DispatchError::BadOrigin)
        } else {
            dispatched(self.spec_dex().withdraw_liquidity_outcome(who, currency_id, share_amount))
        }
    }

    /// The receipt of the transaction `swap_currency`, or why it is refused.
    pub open spec fn swap_currency_receipt(
        &self,
        who: AccountId,
        supply: (CurrencyId, Balance),
        target: (CurrencyId, Balance),
    ) -> Result<ReceiptView, DispatchError> {
        if who == Module::spec_account_id() {
            Err(DispatchError::BadOrigin)
        } else {
            dispatched(
                self.spec_dex().exchange_currency_outcome(
                    who,
                    supply,
                    target,
                    self.can_withdraw(supply.0, who, supply.1),
                ),
            )
        }
    }

    /// Deposits into the pool of `other_currency_id` on behalf of `who`:
    /// the exchange decides, the ledger moves the increments to the pool
    /// account, and the event is recorded.
    pub fn add_liquidity(
        &mut self,
        who: AccountId,
        other_currency_id: CurrencyId,
        max_other_currency_amount: Balance,
        max_base_currency_amount: Balance,
    ) -> (r: Result<(), DispatchError>)
        requires
            old(self).wf(),
        ensures
            final(self).wf(),
            match r {
                Ok(_) => {
                    let receipt = old(self).add_liquidity_receipt(
                        who,
                        other_currency_id,
                        max_other_currency_amount,
                        max_base_currency_amount,
                    );
                    &&& receipt is Ok
                    &&& old(self).settled(*final(self), receipt->Ok_0)
                    &&& old(self).spec_dex().add_liquidity_effect(
                        final(self).spec_dex(),
                        who,
                        other_currency_id,
                        max_other_currency_amount,
                        max_base_currency_amount,
                    )
                },
                Err(e) => {
                    &&& old(self).add_liquidity_receipt(
                        who,
                        other_currency_id,
                        max_other_currency_amount,
                        max_base_currency_amount,
                    ) == Err::<ReceiptView, DispatchError>(e)
                    &&& old(self).unchanged(*final(self))
                },
            },
    {
        if who == Module::account_id() {
            return Err(DispatchError::BadOrigin);
        }
        let base_currency_id = self.dex.base_currency_id();
        let (can_withdraw_other, can_withdraw_base) = match self.dex.liquidity_increment(
            other_currency_id,
            max_other_currency_amount,
            max_base_currency_amount,
        ) {
            Err(e) => {
                return Err(DispatchError::Module(e));
            },
            Ok(inc) => (
                self.tokens.ensure_can_withdraw(other_currency_id, who, inc.other),
                self.tokens.ensure_can_withdraw(base_currency_id, who, inc.base),
            ),
        };
        let ghost before = self.dex@;
        let ghost accounts = self.tokens@;
        match self.dex.add_liquidity(
            who,
            other_currency_id,
            max_other_currency_amount,
            max_base_currency_amount,
            can_withdraw_other,
            can_withdraw_base,
        ) {
            Err(e) => Err(DispatchError::Module(e)),
            Ok(receipt) => {
                proof {
                    let first = receipt@.transfers[0];
                    let second = receipt@.transfers[1];
                    assert(receipt@.transfers =~= seq![first, second]);
                    lemma_payable_two(accounts, first, second);
                    assert forall|c: CurrencyId, a: AccountId|
                        balance_after(accounts, receipt@.transfers, c, a) == held_at(accounts, c, a)
                            + flow(first, c, a) + flow(second, c, a) by {
                        lemma_balance_after_two(accounts, first, second, c, a);
                    }
                }
                self.tokens.settle(&receipt.transfers);
                self.events.push(receipt.event);
                proof {
                    let pool = Module::spec_account_id();
                    assert forall|c: CurrencyId|
                        c != self.dex@.base_currency_id implies #[trigger] held_at(
                        self.tokens@,
                        c,
                        pool,
                    ) == pool_at(self.dex@.pools, c).other by {
                        assert(held_at(accounts, c, pool) == pool_at(before.pools, c).other);
                    }
                }
                Ok(())
            },
        }
    }

    /// Withdraws from the pool of `currency_id` on behalf of `who`: the
    /// exchange decides, the ledger moves what is released to `who`, and
    /// the event is recorded.
    pub fn withdraw_liquidity(&mut self, who: AccountId, currency_id: CurrencyId, share_amount: Share) -> (r:
        Result<(), DispatchError>)
        requires
            old(self).wf(),
        ensures
            final(self).wf(),
            match r {
                Ok(_) => {
                    let receipt = old(self).withdraw_liquidity_receipt(
                        who,
                        currency_id,
                        share_amount,
                    );
                    &&& receipt is Ok
                    &&& old(self).settled(*final(self), receipt->Ok_0)
                    &&& old(self).spec_dex().withdraw_liquidity_effect(
                        final(self).spec_dex(),
                        who,
                        currency_id,
                        share_amount,
                    )
                },
                Err(e) => {
                    &&& old(self).withdraw_liquidity_receipt(who, currency_id, share_amount)
                        == Err::<ReceiptView, DispatchError>(e)
                    &&& old(self).unchanged(*final(self))
                },
            },
    {
        if who == Module::account_id() {
            return Err(DispatchError::BadOrigin);
        }
        let ghost before = self.dex@;
        let ghost accounts = self.tokens@;
        let ghost amounts = self.dex.withdrawal_amounts(currency_id, share_amount);
        match self.dex.withdraw_liquidity(who, currency_id, share_amount) {
            Err(e) => Err(DispatchError::Module(e)),
            Ok(receipt) => {
                proof {
                    let pool = Module::spec_account_id();
                    let other = Transfer { currency_id, from: pool, to: who, amount: amounts.0 };
                    let base = Transfer {
                        currency_id: before.base_currency_id,
                        from: pool,
                        to: who,
                        amount: amounts.1,
                    };
                    assert(held_at(accounts, currency_id, pool) == pool_at(
                        before.pools,
                        currency_id,
                    ).other);
                    old(self).spec_dex().lemma_withdrawal_covered(who, currency_id, share_amount);
                    if amounts.0 > 0 && amounts.1 > 0 {
                        assert(receipt@.transfers =~= seq![other, base]);
                        lemma_payable_two(accounts, other, base);
                        assert forall|c: CurrencyId, a: AccountId|
                            balance_after(accounts, receipt@.transfers, c, a) == held_at(
                                accounts,
                                c,
                                a,
                            ) + flow(other, c, a) + flow(base, c, a) by {
                            lemma_balance_after_two(accounts, other, base, c, a);
                        }
                    } else if amounts.0 > 0 {
                        assert(receipt@.transfers =~= seq![other]);
                        lemma_payable_one(accounts, other);
                        assert forall|c: CurrencyId, a: AccountId|
                            balance_after(accounts, receipt@.transfers, c, a) == held_at(
                                accounts,
                                c,
                                a,
                            ) + flow(other, c, a) + flow(base, c, a) by {
                            lemma_balance_after_one(accounts, other, c, a);
                        }
                    } else if amounts.1 > 0 {
                        assert(receipt@.transfers =~= seq![base]);
                        lemma_payable_one(accounts, base);
                        assert forall|c: CurrencyId, a: AccountId|
                            balance_after(accounts, receipt@.transfers, c, a) == held_at(
                                accounts,
                                c,
                                a,
                            ) + flow(other, c, a) + flow(base, c, a) by {
                            lemma_balance_after_one(accounts, base, c, a);
                        }
                    } else {
                        assert(receipt@.transfers =~= Seq::<Transfer>::empty());
                    }
                }
                self.tokens.settle(&receipt.transfers);
                self.events.push(receipt.event);
                proof {
                    let pool = Module::spec_account_id();
                    assert forall|c: CurrencyId|
                        c != self.dex@.base_currency_id implies #[trigger] held_at(
                        self.tokens@,
                        c,
                        pool,
                    ) == pool_at(self.dex@.pools, c).other by {
                        assert(held_at(accounts, c, pool) == pool_at(before.pools, c).other);
                    }
                }
                Ok(())
            },
        }
    }

    /// Trades on behalf of `who` the amount `supply.1` of the currency
    /// `supply.0` for the currency `target.0`, of which `who` accepts no less
    /// than `target.1`: the exchange decides, the ledger moves the supply to
    /// the pool account and what is paid out to `who`, and the event is
    /// recorded.
    pub fn swap_currency(
        &mut self,
        who: AccountId,
        supply: (CurrencyId, Balance),
        target: (CurrencyId, Balance),
    ) -> (r: Result<(), DispatchError>)
        requires
            old(self).wf(),
        ensures
            final(self).wf(),
            match r {
                Ok(_) => {
                    let receipt = old(self).swap_currency_receipt(who, supply, target);
                    &&& receipt is Ok
                    &&& old(self).settled(*final(self), receipt->Ok_0)
                    &&& old(self).spec_dex().exchange_currency_effect(
                        final(self).spec_dex(),
                        supply,
                        target.0,
                    )
                },
                Err(e) => {
                    &&& old(self).swap_currency_receipt(who, supply, target) == Err::<
                        ReceiptView,
                        DispatchError,
                    >(e)
                    &&& old(self).unchanged(*final(self))
                },
            },
    {
        if who == Module::account_id() {
            return Err(DispatchError::BadOrigin);
        }
        let can_withdraw = self.tokens.ensure_can_withdraw(supply.0, who, supply.1);
        let ghost before = self.dex@;
        let ghost accounts = self.tokens@;
        match self.dex.exchange_currency(who, supply, target, can_withdraw) {
            Err(e) => Err(DispatchError::Module(e)),
            Ok(receipt) => {
                proof {
                    let pool = Module::spec_account_id();
                    let first = receipt@.transfers[0];
                    let second = receipt@.transfers[1];
                    assert(receipt@.transfers =~= seq![first, second]);
                    old(self).spec_dex().lemma_swap_covered(supply.0, supply.1);
                    old(self).spec_dex().lemma_swap_covered(target.0, supply.1);
                    old(self).spec_dex().lemma_swap_covered(
                        target.0,
                        old(self).spec_dex().other_to_base_amount(supply.0, supply.1) as u128,
                    );
                    assert(held_at(accounts, target.0, pool) >= second.amount) by {
                        if target.0 != before.base_currency_id {
                            assert(held_at(accounts, target.0, pool) == pool_at(
                                before.pools,
                                target.0,
                            ).other);
                        }
                    }
                    lemma_payable_two(accounts, first, second);
                    assert forall|c: CurrencyId, a: AccountId|
                        balance_after(accounts, receipt@.transfers, c, a) == held_at(accounts, c, a)
                            + flow(first, c, a) + flow(second, c, a) by {
                        lemma_balance_after_two(accounts, first, second, c, a);
                    }
                }
                self.tokens.settle(&receipt.transfers);
                self.events.push(receipt.event);
                proof {
                    let pool = Module::spec_account_id();
                    assert forall|c: CurrencyId|
                        c != self.dex@.base_currency_id implies #[trigger] held_at(
                        self.tokens@,
                        c,
                        pool,
                    ) == pool_at(self.dex@.pools, c).other by {
                        assert(held_at(accounts, c, pool) == pool_at(before.pools, c).other);
                    }
                }
                Ok(())
            },
        }
    }
}

/// Whether one of the first `n` elements of a sequence is `x`.
proof fn lemma_take_contains<T>(s: Seq<T>, n: int, x: T)
    requires
        0 <= n < s.len(),
    ensures
        s.take(n + 1).contains(x) <==> s.take(n).contains(x) || s[n] == x,
        s.take(n).contains(x) ==> s.contains(x),
        s.contains(s[n]),
        s.no_duplicates() ==> !s.take(n).contains(s[n]),
{
    let longer = s.take(n + 1);
    let shorter = s.take(n);
    if longer.contains(x) {
        let k = choose|k: int| 0 <= k < longer.len() && #[trigger] longer[k] == x;
        if k < n {
            assert(shorter[k] == x);
        }
    }
    if shorter.contains(x) {
        let k = choose|k: int| 0 <= k < shorter.len() && #[trigger] shorter[k] == x;
        assert(longer[k] == x);
        assert(s[k] == x);
    }
    if s[n] == x {
        assert(longer[n] == x);
    }
    if s.no_duplicates() && shorter.contains(s[n]) {
        let k = choose|k: int| 0 <= k < shorter.len() && #[trigger] shorter[k] == s[n];
        assert(s[k] == s[n]);
    }
}

/// The genesis of a runtime: which currencies exist, which accounts are
/// endowed, and with how much of every currency.
pub struct ExtBuilder {
    currency_id: Vec<CurrencyId>,
    endowed_accounts: Vec<AccountId>,
    initial_balance: Balance,
}

impl Default for ExtBuilder {
    /// Three currencies, two endowed accounts, `10^18` of each currency to
    /// each account.
    fn default() -> (builder: ExtBuilder)
        ensures
            builder.spec_currency_id() == seq![AUSD, BTC, DOT],
            builder.spec_endowed_accounts() == seq![ALICE, BOB],
            builder.spec_initial_balance() == 1_000_000_000_000_000_000u128,
            builder.buildable(),
    {
        let mut currency_id: Vec<CurrencyId> = Vec::new();
        currency_id.push(AUSD);
        currency_id.push(BTC);
        currency_id.push(DOT);
        let mut endowed_accounts: Vec<AccountId> = Vec::new();
        endowed_accounts.push(ALICE);
        endowed_accounts.push(BOB);
        let builder = ExtBuilder {
            currency_id,
            endowed_accounts,
            initial_balance: 1_000_000_000_000_000_000u128,
        };
        assert(builder.spec_currency_id() =~= seq![AUSD, BTC, DOT]);
        assert(builder.spec_endowed_accounts() =~= seq![ALICE, BOB]);
        builder
    }
}

impl ExtBuilder {
    /// The currencies that exist at genesis.
    pub closed spec fn spec_currency_id(&self) -> Seq<CurrencyId> {
        self.currency_id@
    }

    /// The accounts that are endowed at genesis.
    pub closed spec fn spec_endowed_accounts(&self) -> Seq<AccountId> {
        self.endowed_accounts@
    }

    /// What every endowed account holds of every currency at genesis.
    pub closed spec fn spec_initial_balance(&self) -> Balance {
        self.initial_balance
    }

    /// No currency and no account is named twice, the pool account is not
    /// endowed, and the issuance of a currency fits in 128 bits.
    pub open spec fn buildable(&self) -> bool {
        &&& self.spec_currency_id().no_duplicates()
        &&& self.spec_endowed_accounts().no_duplicates()
        &&& !self.spec_endowed_accounts().contains(Module::spec_account_id())
        &&& self.spec_endowed_accounts().len() * self.spec_initial_balance() <= u128::MAX
    }

    /// What an account holds of a currency at genesis.
    pub open spec fn endowment(&self, currency_id: CurrencyId, who: AccountId) -> Balance {
        if self.spec_currency_id().contains(currency_id) && self.spec_endowed_accounts().contains(
            who,
        ) {
            self.spec_initial_balance()
        } else {
            0
        }
    }

    /// Builds the runtime at genesis: the endowments on the ledger, an
    /// exchange without pools whose base currency is `AUSD` and whose fee
    /// is one hundredth, and no events.
    pub fn build(self) -> (runtime: Runtime)
        requires
            self.buildable(),
        ensures
            runtime.wf(),
            runtime.spec_events() == Seq::<Event>::empty(),
            runtime.spec_dex()@.base_currency_id == AUSD,
            runtime.spec_dex()@.exchange_fee == crate::fixed::scaled_quotient(1, 100),
            runtime.spec_dex()@.pools == Seq::<PoolEntry>::empty(),
            runtime.spec_dex()@.holdings == Seq::<Holding>::empty(),
            forall|c: CurrencyId, a: AccountId|
                #[trigger] held_at(runtime.spec_tokens()@, c, a) == self.endowment(c, a),
    {
        proof {
            crate::fixed::lemma_scaled_quotient_below_one(1, 100);
        }
        let fee = Ratio::from_rational(1, 100).unwrap();
        let dex = Module::new(AUSD, fee).unwrap();
        let mut tokens = Ledger::new();
        let ghost currencies = self.currency_id@;
        let ghost accounts = self.endowed_accounts@;
        let ghost initial = self.initial_balance as nat;
        let ghost supply = accounts.len() * initial;
        let mut i: usize = 0;
        while i < self.currency_id.len()
            invariant
                i <= self.currency_id.len(),
                currencies == self.currency_id@,
                accounts == self.endowed_accounts@,
                initial == self.initial_balance as nat,
                supply == accounts.len() * initial,
                self.buildable(),
                tokens.wf(),
                forall|c: CurrencyId, a: AccountId|
                    #[trigger] held_at(tokens@, c, a) == if currencies.take(i as int).contains(c)
                        && accounts.contains(a) {
                        self.initial_balance
                    } else {
                        0
                    },
                forall|c: CurrencyId|
                    !currencies.take(i as int).contains(c) ==> #[trigger] held_sum(tokens@, c) == 0,
            decreases self.currency_id.len() - i,
        {
            let currency_id = self.currency_id[i];
            proof {
                lemma_take_contains(currencies, i as int, currency_id);
            }
            let mut j: usize = 0;
            while j < self.endowed_accounts.len()
                invariant
                    i < self.currency_id.len(),
                    j <= self.endowed_accounts.len(),
                    currency_id == currencies[i as int],
                    currencies == self.currency_id@,
                    accounts == self.endowed_accounts@,
                    initial == self.initial_balance as nat,
                    supply == accounts.len() * initial,
                    !currencies.take(i as int).contains(currency_id),
                    self.buildable(),
                    tokens.wf(),
                    forall|c: CurrencyId, a: AccountId|
                        #[trigger] held_at(tokens@, c, a) == if (currencies.take(i as int).contains(
                            c,
                        ) && accounts.contains(a)) || (c == currency_id && accounts.take(
                            j as int,
                        ).contains(a)) {
                            self.initial_balance
                        } else {
                            0
                        },
                    forall|c: CurrencyId|
                        !currencies.take(i as int).contains(c) && c != currency_id
                            ==> #[trigger] held_sum(tokens@, c) == 0,
                    held_sum(tokens@, currency_id) == j * initial,
                decreases self.endowed_accounts.len() - j,
            {
                let who = self.endowed_accounts[j];
                proof {
                    lemma_take_contains(accounts, j as int, who);
                    assert((j + 1) * initial <= supply) by (nonlinear_arith)
                        requires
                            j < accounts.len(),
                            supply == accounts.len() * initial,
                    ;
                    assert((j + 1) * initial == j * initial + initial) by (nonlinear_arith);
                }
                let done = tokens.deposit(currency_id, who, self.initial_balance);
                assert(done is Ok);
                proof {
                    assert forall|c: CurrencyId, a: AccountId|
                        #[trigger] held_at(tokens@, c, a) == if (currencies.take(
                            i as int,
                        ).contains(c) && accounts.contains(a)) || (c == currency_id
                            && accounts.take(j + 1).contains(a)) {
                            self.initial_balance
                        } else {
                            0
                        } by {
                        lemma_take_contains(accounts, j as int, a);
                    }
                }
                j += 1;
            }
            proof {
                assert(accounts.take(j as int) =~= accounts);
                assert forall|c: CurrencyId, a: AccountId|
                    #[trigger] held_at(tokens@, c, a) == if currencies.take(i + 1).contains(c)
                        && accounts.contains(a) {
                        self.initial_balance
                    } else {
                        0
                    } by {
                    lemma_take_contains(currencies, i as int, c);
                }
                assert forall|c: CurrencyId| !currencies.take(i + 1).contains(c) implies #[trigger] held_sum(
                    tokens@,
                    c,
                ) == 0 by {
                    lemma_take_contains(currencies, i as int, c);
                }
            }
            i += 1;
        }
        proof {
            assert(currencies.take(i as int) =~= currencies);
        }
        Runtime::new(tokens, dex)
    }
}

} // verus!
