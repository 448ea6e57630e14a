//! Isolation of accounts: what an operation on one account leaves of the others, and what it
//! keeps of the account itself.
use vstd::prelude::*;

use crate::state::EngineState;
use crate::types::{Account, MAX_ACCOUNTS};

verus! {

broadcast use crate::wide::group_wide;

impl Account {
    /// The two are the same account: its id, kind, owner and matching engine.
    pub open spec fn same_identity(self, b: Account) -> bool {
        &&& self.account_id == b.account_id
        &&& self.kind == b.kind
        &&& self.owner == b.owner
        &&& self.matcher_program == b.matcher_program
        &&& self.matcher_context == b.matcher_context
    }
}

impl EngineState {
    /// The two states have the same slots taken, in the same order of reuse.
    pub open spec fn same_slots(self, t: EngineState) -> bool {
        &&& self.used == t.used
        &&& self.next_free == t.next_free
        &&& self.free_head == t.free_head
        &&& self.num_used_accounts == t.num_used_accounts
        &&& self.next_account_id == t.next_account_id
    }

    /// The two states agree on the sums over positions.
    pub open spec fn same_totals(self, t: EngineState) -> bool {
        &&& self.total_open_interest == t.total_open_interest
        &&& self.net_lp_pos == t.net_lp_pos
        &&& self.lp_sum_abs == t.lp_sum_abs
    }

    /// Warmups are frozen in risk-reduction-only mode, and at no other time.
    pub open spec fn freezes_in_mode(self) -> bool {
        self.warmup_paused == self.risk_reduction_only
    }

    /// Profit that became capital is backed: by losses that were paid, and beyond that by
    /// insurance above the floor, which is reserved for it.
    pub open spec fn is_backed(self) -> bool {
        &&& self.warmed_pos_total@ <= self.warmed_neg_total@ + self.warmup_insurance_reserved@
        &&& self.warmup_insurance_reserved@ <= self.spendable_raw()
    }
}

/// No account but the one in slot `idx` has changed, no slot was taken or freed, what backed
/// converted profit still does, and warmups are still frozen as the mode asks.
pub open spec fn changes_only(s: EngineState, t: EngineState, idx: int) -> bool {
    &&& s.same_slots(t)
    &&& t.accounts.len() == s.accounts.len()
    &&& forall|j: int|
        0 <= j < s.accounts.len() && j != idx ==> #[trigger] t.accounts[j] == s.accounts[j]
    &&& s.accounts[idx].same_identity(t.accounts[idx])
    &&& t.params == s.params
    &&& t.sweep_start_idx == s.sweep_start_idx
    &&& t.crank_cursor == s.crank_cursor
    &&& t.lp_max_abs == s.lp_max_abs
    &&& t.lp_max_abs_sweep == s.lp_max_abs_sweep
    &&& s.is_backed() ==> t.is_backed()
    &&& s.freezes_in_mode() ==> t.freezes_in_mode()
}

/// The same, and no position has changed.
pub open spec fn settles_only(s: EngineState, t: EngineState, idx: int) -> bool {
    &&& changes_only(s, t, idx)
    &&& s.same_totals(t)
    &&& t.accounts[idx].position_size == s.accounts[idx].position_size
}

pub proof fn lemma_funding_frame(s: EngineState, idx: int)
    requires
        s.wf(),
        0 <= idx < MAX_ACCOUNTS,
    ensures
        settles_only(s, s.touch_account(idx).0, idx),
{
}

pub proof fn lemma_mark_frame(s: EngineState, idx: int, oracle: u64)
    requires
        s.wf(),
        0 <= idx < MAX_ACCOUNTS,
    ensures
        settles_only(s, s.settle_mark_to_oracle(idx, oracle).0, idx),
        settles_only(s, s.settle_mark_to_oracle_best_effort(idx, oracle).0, idx),
{
}

pub proof fn lemma_fees_frame(s: EngineState, idx: int, now: u64, oracle: u64)
    requires
        s.wf(),
        0 <= idx < MAX_ACCOUNTS,
    ensures
        settles_only(s, s.with_fees_charged(idx, now), idx),
        settles_only(s, s.settle_maintenance_fee(idx, now, oracle).0, idx),
        settles_only(s, s.with_fee_debt_paid(idx), idx),
{
}

/// What setting the reserve anew does to backed states.
pub proof fn lemma_reserve_backs(s: EngineState)
    requires
        s.warmed_pos_total@ <= s.warmed_neg_total@ + s.spendable_raw(),
    ensures
        s.with_reserve().is_backed(),
{
}

/// Profit is converted no further than its backing goes.
proof fn lemma_conversion_is_backed(s: EngineState, idx: int)
    requires
        s.wf(),
        0 <= idx < MAX_ACCOUNTS,
        s.is_backed(),
    ensures
        ({
            let t = s.with_profit_converted(idx);
            t.warmed_pos_total@ <= t.warmed_neg_total@ + t.spendable_raw()
        }),
{
}

pub proof fn lemma_warmup_frame(s: EngineState, idx: int)
    requires
        s.wf(),
        0 <= idx < MAX_ACCOUNTS,
    ensures
        settles_only(s, s.settle_warmup_to_capital(idx).0, idx),
        s.settle_warmup_to_capital(idx).0.wf(),
        settles_only(s, s.update_warmup_slope(idx).0, idx),
{
    if s.is_used(idx) {
        let paid = s.with_loss_paid(idx);
        assert(settles_only(s, paid, idx));
        if s.is_backed() {
            lemma_conversion_is_backed(paid, idx);
            lemma_reserve_backs(paid);
            lemma_reserve_backs(paid.with_profit_converted(idx));
        }
    }
}

/// Settling an account in full changes no other account, and no position.
pub proof fn law_settlement_is_isolated(s: EngineState, idx: int, now: u64, oracle: u64)
    requires
        s.wf(),
        0 <= idx < MAX_ACCOUNTS,
    ensures
        settles_only(s, s.touch_account_full(idx, now, oracle).0, idx),
        settles_only(s, s.touch_account_for_crank(idx, now, oracle).0, idx),
        s.touch_account_full(idx, now, oracle).0.wf(),
{
    lemma_settled_to_fees_frame(s, idx, now, oracle);
    let s1 = s.touch_account(idx).0;
    lemma_funding_frame(s, idx);
    lemma_fees_frame(s1, idx, now, oracle);
    let s3 = s.settled_to_fees(idx, now, oracle).0;
    lemma_warmup_frame(s3, idx);
    let s4 = s3.settle_warmup_to_capital(idx).0;
    lemma_fees_frame(s4, idx, now, oracle);
}

pub proof fn lemma_settled_to_fees_frame(s: EngineState, idx: int, now: u64, oracle: u64)
    requires
        s.wf(),
        0 <= idx < MAX_ACCOUNTS,
    ensures
        settles_only(s, s.settled_to_fees(idx, now, oracle).0, idx),
        s.settled_to_fees(idx, now, oracle).0.wf(),
{
    lemma_funding_frame(s, idx);
    let s1 = s.touch_account(idx).0;
    lemma_mark_frame(s1, idx, oracle);
    let s2 = s1.settle_mark_to_oracle(idx, oracle).0;
    lemma_fees_frame(s2, idx, now, oracle);
}

pub proof fn lemma_forced_touch_frame(s: EngineState, idx: int, now: u64, oracle: u64)
    requires
        s.wf(),
        0 <= idx < MAX_ACCOUNTS,
    ensures
        settles_only(s, s.touch_account_for_liquidation(idx, now, oracle).0, idx),
        s.touch_account_for_liquidation(idx, now, oracle).0.wf(),
        settles_only(s, s.touch_account_for_force_realize(idx, now, oracle).0, idx),
        s.touch_account_for_force_realize(idx, now, oracle).0.wf(),
{
    lemma_funding_frame(s, idx);
    let s1 = s.touch_account(idx).0;
    lemma_mark_frame(s1, idx, oracle);
    lemma_fees_frame(s1.settle_mark_to_oracle_best_effort(idx, oracle).0, idx, now, oracle);
    lemma_fees_frame(s1.settle_mark_to_oracle(idx, oracle).0, idx, now, oracle);
}

/// A deposit changes no other account, and no position.
pub proof fn law_deposit_is_isolated(s: EngineState, idx: int, amount: u128, now: u64)
    requires
        s.wf(),
        0 <= idx < MAX_ACCOUNTS,
    ensures
        settles_only(s, s.deposit(idx, amount, now).0, idx),
        s.deposit(idx, amount, now).0.wf(),
{
    let s0 = s.at_slot(now).with_deposit(idx, amount, now);
    assert(settles_only(s, s0, idx));
    lemma_warmup_frame(s0, idx);
    let s1 = s0.settle_warmup_to_capital(idx).0;
    lemma_fees_frame(s1, idx, now, 0);
}

proof fn lemma_settled_withdrawal_frame(s: EngineState, idx: int, amount: u128, oracle: u64)
    requires
        s.wf(),
        0 <= idx < MAX_ACCOUNTS,
    ensures
        settles_only(s, s.withdraw_settled(idx, amount, oracle).0, idx),
        s.withdraw_settled(idx, amount, oracle).0.wf(),
{
}

/// A withdrawal changes no other account, and no position.
pub proof fn law_withdrawal_is_isolated(
    s: EngineState,
    idx: int,
    amount: u128,
    now: u64,
    oracle: u64,
)
    requires
        s.wf(),
        0 <= idx < MAX_ACCOUNTS,
    ensures
        settles_only(s, s.withdraw(idx, amount, now, oracle).0, idx),
        s.withdraw(idx, amount, now, oracle).0.wf(),
{
    let s0 = s.at_slot(now);
    law_settlement_is_isolated(s0, idx, now, oracle);
    let s1 = s0.touch_account_full(idx, now, oracle).0;
    lemma_settled_withdrawal_frame(s1, idx, amount, oracle);
}

/// Prepaying fees changes no other account, and no position.
pub proof fn law_fee_credits_are_isolated(s: EngineState, idx: int, amount: u128, now: u64)
    requires
        s.wf(),
        0 <= idx < MAX_ACCOUNTS,
    ensures
        settles_only(s, s.deposit_fee_credits(idx, amount, now).0, idx),
        s.deposit_fee_credits(idx, amount, now).0.wf(),
{
}

/// Closing an account changes no other account; its slot is freed where the closing succeeds.
pub proof fn law_closing_is_isolated(s: EngineState, idx: int, now: u64, oracle: u64)
    requires
        s.wf(),
        0 <= idx < MAX_ACCOUNTS,
    ensures
        ({
            let (t, r) = s.close_account(idx, now, oracle);
            &&& forall|j: int|
                0 <= j < MAX_ACCOUNTS && j != idx ==> #[trigger] t.accounts[j] == s.accounts[j]
                    && t.used[j] == s.used[j]
            &&& r is Ok ==> s.used[idx] && !t.used[idx] && t.accounts[idx] == Account::vacant()
            &&& r is Err ==> settles_only(s, t, idx)
            &&& s.same_totals(t)
            &&& t.next_account_id == s.next_account_id
            &&& s.is_backed() ==> t.is_backed()
        }),
{
    let s0 = s.at_slot(now);
    law_settlement_is_isolated(s0, idx, now, oracle);
}

} // verus!
