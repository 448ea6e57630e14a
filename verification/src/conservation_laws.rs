//! Conservation of funds: no operation makes or loses value, beyond what is stated.
//!
//! Balances are clamped to the range of their types. Each law is stated where nothing is
//! clamped; the predicates whose names end in `exact` say where that is.
use vstd::prelude::*;

use crate::adl::{lemma_weights_ok, Exempt};
use crate::adl_laws::law_cuts_are_exact;
use crate::haircut::{cuts, lemma_sum_update, lemma_sum_zero, sum, sum_to};
use crate::margin::slice_pnl;
use crate::math::{fits_i, min_int};
use crate::slots::lemma_alloc;
use crate::state::EngineState;
use crate::types::{Account, AccountKind, RiskParams, MAX_ACCOUNTS};

verus! {

broadcast use crate::wide::group_wide;

impl Account {
    /// Mark profit, or zero where it cannot be computed.
    pub open spec fn mark_or_zero(self, oracle: u64) -> int {
        match self.mark(oracle as int) {
            Some(m) => m,
            None => 0,
        }
    }

    /// What the account is worth: capital and profit, realized or not, less funding due.
    pub open spec fn worth(self, index: int, oracle: u64) -> int {
        self.capital@ + self.pnl@ - self.funding_due(index) + self.mark_or_zero(oracle)
    }
}

impl EngineState {
    /// What each slot is worth.
    pub open spec fn worths(self, oracle: u64) -> Seq<int> {
        Seq::new(
            MAX_ACCOUNTS as nat,
            |i: int|
                if self.used[i] {
                    self.accounts[i].worth(self.funding_index_qpb_e6@ as int, oracle)
                } else {
                    0
                },
        )
    }

    /// What all accounts are worth together.
    pub open spec fn worth_total(self, oracle: u64) -> int {
        sum(self.worths(oracle))
    }

    /// What the vault and uncovered losses hold beyond what is owed to accounts and the
    /// insurance fund.
    pub open spec fn surplus(self, oracle: u64) -> int {
        self.vault@ + self.loss_accum@ - self.insurance_fund.balance@ - self.worth_total(oracle)
    }

    /// The surplus when all that is pending has been socialized.
    pub open spec fn open_surplus(self, oracle: u64) -> int {
        self.surplus(oracle) + self.pending_profit_to_fund@ + self.pending_unpaid_loss@
    }

    pub open spec fn same_accounts(self, t: EngineState) -> bool {
        self.used == t.used && self.accounts == t.accounts && self.funding_index_qpb_e6
            == t.funding_index_qpb_e6
    }

    /// The same slots are taken and the same amounts pending.
    pub open spec fn same_pending(self, t: EngineState) -> bool {
        self.used == t.used && self.pending_profit_to_fund == t.pending_profit_to_fund
            && self.pending_unpaid_loss == t.pending_unpaid_loss
    }
}

pub proof fn lemma_same_worth(s: EngineState, t: EngineState, oracle: u64)
    requires
        s.same_accounts(t),
    ensures
        s.worth_total(oracle) == t.worth_total(oracle),
{
    assert(s.worths(oracle) =~= t.worths(oracle));
}

/// Replacing one account changes the total by the difference.
pub proof fn lemma_worth_update(s: EngineState, t: EngineState, idx: int, b: Account, oracle: u64)
    requires
        s.wf(),
        s.is_used(idx),
        t.same_accounts(s.with_account(idx, b)),
    ensures
        t.worth_total(oracle) == s.worth_total(oracle) + b.worth(
            s.funding_index_qpb_e6@ as int,
            oracle,
        ) - s.accounts[idx].worth(s.funding_index_qpb_e6@ as int, oracle),
{
    let w = s.worths(oracle);
    let v = b.worth(s.funding_index_qpb_e6@ as int, oracle);
    lemma_sum_update(w, idx, v, w.len() as int);
    assert(t.worths(oracle) =~= w.update(idx, v));
}

/// Funding and mark of a settled account are zero.
pub proof fn lemma_settled_account(a: Account, index: int, oracle: u64)
    ensures
        a.funding_index@ == index ==> a.funding_due(index) == 0,
        a.position_size@ == 0 ==> a.funding_due(index) == 0,
        a.position_size@ == 0 ==> a.mark(oracle as int) == Some(0int),
        a.entry_price == oracle ==> a.mark(oracle as int) == Some(0int),
        forall|size: int|
            a.entry_price == oracle ==> #[trigger] slice_pnl(
                a.position_size@ as int,
                size,
                a.entry_price as int,
                oracle as int,
            ) == Some(0int),
{
    let pos = a.position_size@ as int;
    let d = index - a.funding_index@;
    assert(pos * 0 == 0 && 0 * d == 0) by (nonlinear_arith);
    assert(forall|size: int| #[trigger] (0 * size) == 0) by (nonlinear_arith);
}

/// Settling funding conserves value.
pub proof fn law_funding_settlement_conserves(s: EngineState, idx: int, oracle: u64)
    requires
        s.wf(),
    ensures
        s.touch_account(idx).0.surplus(oracle) == s.surplus(oracle),
{
    let index = s.funding_index_qpb_e6@ as int;
    if s.is_used(idx) {
        match s.accounts[idx].funding_settled(index) {
            Some(b) => {
                lemma_settled_account(b, index, oracle);
                lemma_worth_update(s, s.with_account(idx, b), idx, b, oracle);
            },
            None => {},
        }
    }
}

/// Realizing mark profit at the oracle price conserves value at that price.
pub proof fn law_mark_settlement_conserves(s: EngineState, idx: int, oracle: u64)
    requires
        s.wf(),
    ensures
        s.settle_mark_to_oracle(idx, oracle).0.surplus(oracle) == s.surplus(oracle),
{
    if s.is_used(idx) {
        match s.accounts[idx].mark_settled(oracle) {
            Some(b) => {
                lemma_settled_account(b, s.funding_index_qpb_e6@ as int, oracle);
                lemma_worth_update(s, s.with_account(idx, b), idx, b, oracle);
            },
            None => {},
        }
    }
}

impl EngineState {
    /// Fees charged to account `idx` are not clamped on their way to the insurance fund.
    pub open spec fn fees_exact(self, idx: int, now: u64) -> bool {
        self.insurance_fund.balance@ + self.fee_paid(idx, now) <= u128::MAX
    }

    /// Fees owed by account `idx` are not clamped on their way to the insurance fund.
    pub open spec fn debt_exact(self, idx: int) -> bool {
        self.insurance_fund.balance@ + self.accounts[idx].payable_debt() <= u128::MAX
    }

    /// Settling warmup of account `idx` clamps nothing.
    pub open spec fn warmup_exact(self, idx: int) -> bool {
        let paid = self.with_loss_paid(idx);
        self.accounts[idx].payable_loss() <= i128::MAX && paid.accounts[idx].capital@
            + paid.convertible(idx) <= u128::MAX
    }
}

/// Charging fees conserves value.
pub proof fn law_fees_conserve(s: EngineState, idx: int, now: u64, oracle: u64)
    requires
        s.wf(),
        s.is_used(idx),
        s.fees_exact(idx, now),
    ensures
        s.with_fees_charged(idx, now).surplus(oracle) == s.surplus(oracle),
        s.settle_maintenance_fee(idx, now, oracle).0.surplus(oracle) == s.surplus(oracle),
{
    let a = s.accounts[idx];
    if now > a.last_fee_slot {
        let b = a.fees_accrued(s.fee_per_slot(), now).debt_paid();
        lemma_worth_update(s, s.with_fees_charged(idx, now), idx, b, oracle);
    }
}

/// Paying fees owed conserves value.
pub proof fn law_fee_debt_conserves(s: EngineState, idx: int, oracle: u64)
    requires
        s.wf(),
        s.is_used(idx),
        s.debt_exact(idx),
    ensures
        s.with_fee_debt_paid(idx).surplus(oracle) == s.surplus(oracle),
{
    let b = s.accounts[idx].debt_paid();
    lemma_worth_update(s, s.with_fee_debt_paid(idx), idx, b, oracle);
}

/// Paying a loss from capital conserves value.
pub proof fn lemma_loss_paid_conserves(s: EngineState, idx: int, oracle: u64)
    requires
        s.wf(),
        s.is_used(idx),
        s.accounts[idx].payable_loss() <= i128::MAX,
    ensures
        s.with_loss_paid(idx).surplus(oracle) == s.surplus(oracle),
{
    let b = s.accounts[idx].loss_paid();
    lemma_worth_update(s, s.with_loss_paid(idx), idx, b, oracle);
}

/// Settling warmup conserves value: what leaves profit enters capital, and the reverse.
pub proof fn law_warmup_conserves(s: EngineState, idx: int, oracle: u64)
    requires
        s.wf(),
        s.is_used(idx) ==> s.warmup_exact(idx),
    ensures
        s.settle_warmup_to_capital(idx).0.surplus(oracle) == s.surplus(oracle),
{
    if s.is_used(idx) {
        let paid = s.with_loss_paid(idx);
        lemma_loss_paid_conserves(s, idx, oracle);
        let conv = paid.with_profit_converted(idx);
        let b = conv.accounts[idx];
        lemma_worth_update(paid, conv, idx, b, oracle);
        let c1 = Account { warmup_started_at_slot: paid.effective_slot(), ..paid.accounts[idx] };
        lemma_worth_update(paid, paid.with_warmup_marked(idx), idx, c1, oracle);
        let c2 = Account { warmup_started_at_slot: conv.effective_slot(), ..b };
        lemma_worth_update(conv, conv.with_warmup_marked(idx), idx, c2, oracle);
    }
}

impl EngineState {
    /// Settling funding, mark and fees of account `idx` clamps nothing.
    pub open spec fn settled_to_fees_exact(self, idx: int, now: u64, oracle: u64) -> bool {
        let s1 = self.touch_account(idx).0;
        let s2 = s1.settle_mark_to_oracle(idx, oracle).0;
        s2.fees_exact(idx, now)
    }

    /// Settling account `idx` in full clamps nothing.
    pub open spec fn touch_full_exact(self, idx: int, now: u64, oracle: u64) -> bool {
        let s3 = self.settled_to_fees(idx, now, oracle).0;
        let s4 = s3.settle_warmup_to_capital(idx).0;
        self.settled_to_fees_exact(idx, now, oracle) && s3.warmup_exact(idx) && s4.debt_exact(idx)
    }
}

proof fn lemma_settled_to_fees(s: EngineState, idx: int, now: u64, oracle: u64)
    requires
        s.wf(),
        s.is_used(idx),
        s.settled_to_fees_exact(idx, now, oracle),
    ensures
        s.settled_to_fees(idx, now, oracle).0.surplus(oracle) == s.surplus(oracle),
        s.settled_to_fees(idx, now, oracle).0.wf(),
        s.settled_to_fees(idx, now, oracle).0.is_used(idx),
        s.settled_to_fees(idx, now, oracle).0.vault == s.vault,
{
    let s1 = s.touch_account(idx).0;
    law_funding_settlement_conserves(s, idx, oracle);
    let s2 = s1.settle_mark_to_oracle(idx, oracle).0;
    law_mark_settlement_conserves(s1, idx, oracle);
    law_fees_conserve(s2, idx, now, oracle);
}

/// Settling an account in full conserves value at the oracle price, even where it fails.
pub proof fn law_full_settlement_conserves(s: EngineState, idx: int, now: u64, oracle: u64)
    requires
        s.wf(),
        s.is_used(idx) ==> s.touch_full_exact(idx, now, oracle),
    ensures
        s.touch_account_full(idx, now, oracle).0.surplus(oracle) == s.surplus(oracle),
{
    if s.is_used(idx) {
        lemma_settled_to_fees(s, idx, now, oracle);
        let s3 = s.settled_to_fees(idx, now, oracle).0;
        law_warmup_conserves(s3, idx, oracle);
        let s4 = s3.settle_warmup_to_capital(idx).0;
        law_fee_debt_conserves(s4, idx, oracle);
    }
}

/// Opening an account conserves value: the fee goes to the insurance fund, the rest is the
/// account's capital.
pub proof fn law_opening_conserves(
    s: EngineState,
    kind: AccountKind,
    program: [u8; 32],
    context: [u8; 32],
    payment: u128,
    oracle: u64,
)
    requires
        s.wf(),
        s.add_account(kind, program, context, payment).1 is Ok,
        s.vault@ + payment <= u128::MAX,
        s.insurance_fund.balance@ + s.params.new_account_fee@ <= u128::MAX,
    ensures
        s.add_account(kind, program, context, payment).0.surplus(oracle) == s.surplus(oracle),
{
    lemma_alloc(s);
    let t = s.add_account(kind, program, context, payment).0;
    let idx = s.free_head as int;
    let b = t.accounts[idx];
    let w = s.worths(oracle);
    let v = b.worth(t.funding_index_qpb_e6@ as int, oracle);
    lemma_settled_account(b, t.funding_index_qpb_e6@ as int, oracle);
    lemma_sum_update(w, idx, v, w.len() as int);
    assert(t.worths(oracle) =~= w.update(idx, v));
}

impl EngineState {
    /// A deposit clamps nothing.
    pub open spec fn deposit_exact(self, idx: int, amount: u128, now: u64) -> bool {
        let s0 = self.at_slot(now);
        let s1 = s0.with_deposit(idx, amount, now);
        let s2 = s1.settle_warmup_to_capital(idx).0;
        let a = s0.accounts[idx].fees_accrued(s0.fee_per_slot(), now);
        let fee = min_int(a.fee_debt(), amount as int);
        &&& self.vault@ + amount <= u128::MAX
        &&& self.insurance_fund.balance@ + fee <= u128::MAX
        &&& a.capital@ + (amount - fee) <= u128::MAX
        &&& s1.warmup_exact(idx)
        &&& s2.debt_exact(idx)
    }
}

/// A deposit conserves value.
pub proof fn law_deposit_conserves(s: EngineState, idx: int, amount: u128, now: u64, oracle: u64)
    requires
        s.wf(),
        s.is_used(idx) ==> s.deposit_exact(idx, amount, now),
    ensures
        s.deposit(idx, amount, now).0.surplus(oracle) == s.surplus(oracle),
{
    let s0 = s.at_slot(now);
    lemma_same_worth(s, s0, oracle);
    if s.is_used(idx) {
        let s1 = s0.with_deposit(idx, amount, now);
        lemma_worth_update(s0, s1, idx, s1.accounts[idx], oracle);
        law_warmup_conserves(s1, idx, oracle);
        let s2 = s1.settle_warmup_to_capital(idx).0;
        law_fee_debt_conserves(s2, idx, oracle);
    }
}

proof fn lemma_full_settlement_keeps(s: EngineState, idx: int, now: u64, oracle: u64)
    requires
        s.wf(),
        s.is_used(idx),
        s.settled_to_fees_exact(idx, now, oracle),
    ensures
        s.touch_account_full(idx, now, oracle).0.wf(),
        s.touch_account_full(idx, now, oracle).0.is_used(idx),
        s.touch_account_full(idx, now, oracle).0.vault == s.vault,
{
    lemma_settled_to_fees(s, idx, now, oracle);
}

proof fn lemma_settled_withdrawal_conserves(s: EngineState, idx: int, amount: u128, oracle: u64)
    requires
        s.wf(),
        s.is_used(idx),
        amount <= s.vault@,
    ensures
        s.withdraw_settled(idx, amount, oracle).0.surplus(oracle) == s.surplus(oracle),
{
    let t = s.withdraw_settled(idx, amount, oracle).0;
    if s.withdraw_settled(idx, amount, oracle).1 is Ok {
        lemma_worth_update(s, t, idx, t.accounts[idx], oracle);
    } else {
        lemma_same_worth(s, t, oracle);
    }
}

/// A withdrawal conserves value at the oracle price.
pub proof fn law_withdrawal_conserves(
    s: EngineState,
    idx: int,
    amount: u128,
    now: u64,
    oracle: u64,
)
    requires
        s.wf(),
        s.is_used(idx) ==> s.at_slot(now).touch_full_exact(idx, now, oracle),
        amount <= s.vault@,
    ensures
        s.withdraw(idx, amount, now, oracle).0.surplus(oracle) == s.surplus(oracle),
{
    let s0 = s.at_slot(now);
    lemma_same_worth(s, s0, oracle);
    if s.is_used(idx) {
        law_full_settlement_conserves(s0, idx, now, oracle);
        lemma_full_settlement_keeps(s0, idx, now, oracle);
        let s1 = s0.touch_account_full(idx, now, oracle).0;
        lemma_settled_withdrawal_conserves(s1, idx, amount, oracle);
    }
}

/// Closing an account conserves value.
pub proof fn law_closing_conserves(s: EngineState, idx: int, now: u64, oracle: u64)
    requires
        s.wf(),
        s.is_used(idx) ==> s.at_slot(now).touch_full_exact(idx, now, oracle),
    ensures
        s.close_account(idx, now, oracle).0.surplus(oracle) == s.surplus(oracle),
{
    let s0 = s.at_slot(now);
    lemma_same_worth(s, s0, oracle);
    if s.is_used(idx) {
        law_full_settlement_conserves(s0, idx, now, oracle);
        let s1 = s0.touch_account_full(idx, now, oracle).0;
        if s1.close_settled(idx).1 is Ok {
            let s2 = s1.close_settled(idx).0;
            lemma_freed_worth(s1, s2, idx, oracle);
            lemma_settled_account(s1.accounts[idx], s1.funding_index_qpb_e6@ as int, oracle);
        }
    }
}

/// Freeing a slot takes what its account was worth off the total.
pub proof fn lemma_freed_worth(s: EngineState, t: EngineState, idx: int, oracle: u64)
    requires
        s.wf(),
        s.is_used(idx),
        t.used == s.used.update(idx, false),
        t.accounts == s.accounts.update(idx, Account::vacant()),
        t.funding_index_qpb_e6 == s.funding_index_qpb_e6,
    ensures
        t.worth_total(oracle) == s.worth_total(oracle) - s.accounts[idx].worth(
            s.funding_index_qpb_e6@ as int,
            oracle,
        ),
{
    let w = s.worths(oracle);
    lemma_sum_update(w, idx, 0, w.len() as int);
    assert(t.worths(oracle) =~= w.update(idx, 0));
}

/// Prepaying fees conserves value.
pub proof fn law_fee_credits_conserve(
    s: EngineState,
    idx: int,
    amount: u128,
    now: u64,
    oracle: u64,
)
    requires
        s.wf(),
        s.vault@ + amount <= u128::MAX,
        s.insurance_fund.balance@ + amount <= u128::MAX,
    ensures
        s.deposit_fee_credits(idx, amount, now).0.surplus(oracle) == s.surplus(oracle),
{
    if s.is_used(idx) {
        let t = s.deposit_fee_credits(idx, amount, now).0;
        lemma_worth_update(s, t, idx, t.accounts[idx], oracle);
    }
}

/// Topping up the insurance fund conserves value.
pub proof fn law_top_up_conserves(s: EngineState, amount: u128, oracle: u64)
    requires
        s.vault@ + amount <= u128::MAX,
        s.insurance_fund.balance@ + amount <= u128::MAX,
    ensures
        s.top_up_insurance_fund(amount as int).surplus(oracle) == s.surplus(oracle),
{
    lemma_same_worth(s, s.top_up_insurance_fund(amount as int), oracle);
}

proof fn lemma_sum_minus(a: Seq<int>, c: Seq<int>, d: Seq<int>, n: int)
    requires
        n <= a.len(),
        n <= c.len(),
        n <= d.len(),
        forall|i: int| 0 <= i < n ==> #[trigger] d[i] == a[i] - c[i],
    ensures
        sum_to(d, n) == sum_to(a, n) - sum_to(c, n),
    decreases n,
{
    if n > 0 {
        lemma_sum_minus(a, c, d, n - 1);
    }
}

/// Cutting profits takes the cuts off the total.
pub proof fn lemma_cuts_worth(s: EngineState, e: Exempt, loss: int, oracle: u64)
    requires
        s.wf(),
    ensures
        s.with_cuts(cuts(s.adl_weights(e), loss), MAX_ACCOUNTS as int).worth_total(oracle)
            == s.worth_total(oracle) - sum(cuts(s.adl_weights(e), loss)),
{
    let w = s.adl_weights(e);
    let c = cuts(w, loss);
    let t = s.with_cuts(c, MAX_ACCOUNTS as int);
    lemma_weights_ok(s, e);
    assert forall|i: int| 0 <= i < MAX_ACCOUNTS implies #[trigger] t.worths(oracle)[i] == s.worths(
        oracle,
    )[i] - c[i] by {
        crate::adl_laws::lemma_cut_bound(w, loss, i);
        let a = s.accounts[i];
        assert(t.accounts[i] == a.profit_cut(c[i]));
        assert(c[i] <= w[i]);
        if w[i] > 0 {
            assert(w[i] <= a.pnl@);
        }
        assert(t.accounts[i].pnl@ == a.pnl@ - c[i]);
        assert(t.accounts[i].funding_due(s.funding_index_qpb_e6@ as int) == a.funding_due(
            s.funding_index_qpb_e6@ as int,
        ));
        assert(t.accounts[i].mark_or_zero(oracle) == a.mark_or_zero(oracle));
    }
    lemma_sum_minus(s.worths(oracle), c, t.worths(oracle), MAX_ACCOUNTS as int);
}

impl EngineState {
    /// Deleveraging clamps nothing.
    pub open spec fn deleverage_exact(self, loss: int, e: Exempt) -> bool {
        sum(self.adl_weights(e)) <= u128::MAX && self.loss_accum@ + loss <= u128::MAX
    }
}

/// Deleveraging frees exactly the loss: from profits, then from insurance, and the rest is
/// noted as uncovered.
pub proof fn law_adl_frees_exactly_the_loss(s: EngineState, loss: int, e: Exempt, oracle: u64)
    requires
        s.wf(),
        loss >= 0,
        s.deleverage_exact(loss, e),
        s.deleverage(loss, e).1 is Ok,
    ensures
        s.deleverage(loss, e).0.surplus(oracle) == s.surplus(oracle) + loss,
{
    if loss > 0 {
        let w = s.adl_weights(e);
        let c = cuts(w, loss);
        lemma_weights_ok(s, e);
        law_cuts_are_exact(w, loss);
        lemma_cuts_worth(s, e, loss, oracle);
        let t = s.with_cuts(c, MAX_ACCOUNTS as int);
        let u = t.with_loss_covered(loss - sum(c));
        lemma_same_worth(t, u.with_reserve(), oracle);
        crate::haircut::lemma_sum_nonneg(w, MAX_ACCOUNTS as int);
        assert(0 <= sum(c) <= loss);
    }
}

impl Account {
    /// The profit after funding is computed without clamping.
    pub open spec fn settled_pnl_exact(self, index: int) -> bool {
        let d = index - self.funding_index@;
        self.position_size@ != 0 ==> {
            &&& fits_i(d)
            &&& fits_i(self.position_size@ * d)
            &&& self.position_size@ * d + 999_999 <= i128::MAX
            &&& fits_i(self.pnl@ - self.funding_due(index))
        }
    }
}

impl EngineState {
    /// The sums of the conservation check over the first `n` slots are computed without
    /// clamping.
    pub open spec fn sums_exact(self, n: int, oracle: u64) -> bool
        decreases n,
    {
        if n <= 0 {
            true
        } else if !self.used[n - 1] {
            self.sums_exact(n - 1, oracle)
        } else {
            let a = self.accounts[n - 1];
            let index = self.funding_index_qpb_e6@ as int;
            &&& self.sums_exact(n - 1, oracle)
            &&& a.settled_pnl_exact(index)
            &&& a.mark(oracle as int) is Some
            &&& self.capital_to(n - 1) + a.capital@ <= u128::MAX
            &&& fits_i(self.settled_to(n - 1) + a.settled_pnl(index))
            &&& self.mark_to(n - 1, oracle) matches Some(m) ==> fits_i(m + a.mark_or_zero(oracle))
        }
    }

    /// The conservation check is computed without clamping.
    pub open spec fn check_exact(self, oracle: u64) -> bool {
        let n = MAX_ACCOUNTS as int;
        &&& self.sums_exact(n, oracle)
        &&& self.mark_to(n, oracle) matches Some(m) ==> fits_i(self.settled_to(n) + m)
        &&& self.capital_to(n) + self.insurance_fund.balance@ <= u128::MAX
        &&& 0 <= self.insurance_fund.balance@ + self.worth_total(oracle) <= u128::MAX
        &&& self.vault@ + self.loss_accum@ <= u128::MAX
    }
}

proof fn lemma_settled_pnl(a: Account, index: int)
    requires
        a.settled_pnl_exact(index),
    ensures
        a.settled_pnl(index) == a.pnl@ - a.funding_due(index),
{
    lemma_settled_account(a, index, 0);
}

proof fn lemma_checked_sums(s: EngineState, n: int, oracle: u64)
    requires
        n <= MAX_ACCOUNTS,
        s.sums_exact(n, oracle),
    ensures
        s.mark_to(n, oracle) matches Some(m) && s.capital_to(n) + s.settled_to(n) + m == sum_to(
            s.worths(oracle),
            n,
        ),
        s.capital_to(n) >= 0,
    decreases n,
{
    if n > 0 {
        lemma_checked_sums(s, n - 1, oracle);
        assert(sum_to(s.worths(oracle), n) == sum_to(s.worths(oracle), n - 1) + s.worths(
            oracle,
        )[n - 1]);
        if s.used[n - 1] {
            lemma_settled_pnl(s.accounts[n - 1], s.funding_index_qpb_e6@ as int);
        }
    }
}

/// The conservation check passes exactly where the surplus is neither negative nor more than
/// rounding explains.
pub proof fn law_check_bounds_surplus(s: EngineState, oracle: u64)
    requires
        s.check_exact(oracle),
    ensures
        s.is_conserved(oracle) <==> 0 <= s.surplus(oracle) <= 4096,
{
    lemma_checked_sums(s, MAX_ACCOUNTS as int, oracle);
}

/// A new engine owes nothing and holds nothing.
pub proof fn law_fresh_engine_has_no_surplus(params: RiskParams, oracle: u64)
    ensures
        EngineState::fresh(params).surplus(oracle) == 0,
{
    let s = EngineState::fresh(params);
    lemma_sum_zero(s.worths(oracle), MAX_ACCOUNTS as int);
}

} // verus!
