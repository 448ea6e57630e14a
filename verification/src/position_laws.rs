//! The sums over positions: open interest, and the exposure of liquidity providers.
use vstd::prelude::*;

use crate::close_laws::lemma_fee_nonneg;
use crate::haircut::{lemma_sum_update, sum, sum_to};
use crate::isolation_laws::{changes_only, lemma_forced_touch_frame, settles_only};
use crate::margin::liquidation_close;
use crate::math::{abs_sat, min_int};
use crate::state::EngineState;
use crate::types::{Account, AccountKind, MAX_ACCOUNTS, MAX_POSITION_ABS};

verus! {

broadcast use crate::wide::group_wide;

impl Account {
    /// The account's part in the exposure of liquidity providers.
    pub open spec fn lp_position(self) -> int {
        if self.kind == AccountKind::LP {
            self.position_size@ as int
        } else {
            0
        }
    }

    /// The same without its sign.
    pub open spec fn lp_size(self) -> int {
        if self.kind == AccountKind::LP {
            self.size()
        } else {
            0
        }
    }
}

impl EngineState {
    /// Position sizes, slot by slot.
    pub open spec fn sizes(self) -> Seq<int> {
        Seq::new(
            MAX_ACCOUNTS as nat,
            |i: int|
                if self.used[i] {
                    self.accounts[i].size()
                } else {
                    0
                },
        )
    }

    /// Positions of liquidity providers, slot by slot.
    pub open spec fn lp_positions(self) -> Seq<int> {
        Seq::new(
            MAX_ACCOUNTS as nat,
            |i: int|
                if self.used[i] {
                    self.accounts[i].lp_position()
                } else {
                    0
                },
        )
    }

    /// Position sizes of liquidity providers, slot by slot.
    pub open spec fn lp_sizes(self) -> Seq<int> {
        Seq::new(
            MAX_ACCOUNTS as nat,
            |i: int|
                if self.used[i] {
                    self.accounts[i].lp_size()
                } else {
                    0
                },
        )
    }

    /// No position is larger than a trade may make it, and open interest is their sum.
    #[verifier::opaque]
    pub open spec fn counts_positions(self) -> bool {
        &&& forall|i: int|
            0 <= i < MAX_ACCOUNTS && self.used[i] ==> abs_sat(
                (#[trigger] self.accounts[i]).position_size@ as int,
            ) <= MAX_POSITION_ABS
        &&& self.total_open_interest@ == sum(self.sizes())
    }

    /// The exposure of liquidity providers is the sum over their positions.
    #[verifier::opaque]
    pub open spec fn counts_lp(self) -> bool {
        &&& self.net_lp_pos@ == sum(self.lp_positions())
        &&& self.lp_sum_abs@ == sum(self.lp_sizes())
    }

    /// Both.
    pub open spec fn counts_all(self) -> bool {
        self.counts_positions() && self.counts_lp()
    }
}

/// Bounds on the sums.
pub proof fn lemma_sums_bounded(s: EngineState, n: int)
    requires
        0 <= n <= MAX_ACCOUNTS,
        s.counts_positions(),
    ensures
        0 <= sum_to(s.lp_sizes(), n) <= sum_to(s.sizes(), n) <= n * MAX_POSITION_ABS,
        -sum_to(s.lp_sizes(), n) <= sum_to(s.lp_positions(), n) <= sum_to(s.lp_sizes(), n),
        forall|i: int| 0 <= i < n ==> s.sizes()[i] <= sum_to(s.sizes(), n),
        forall|i: int| 0 <= i < n ==> s.lp_sizes()[i] <= sum_to(s.lp_sizes(), n),
    decreases n,
{
    reveal(EngineState::counts_positions);
    reveal(EngineState::counts_lp);
    if n > 0 {
        lemma_sums_bounded(s, n - 1);
        let a = s.accounts[n - 1];
        assert(s.used[n - 1] ==> abs_sat(a.position_size@ as int) <= MAX_POSITION_ABS);
        assert(n * MAX_POSITION_ABS == (n - 1) * MAX_POSITION_ABS + MAX_POSITION_ABS)
            by (nonlinear_arith);
    }
}

/// Replacing one account changes the sums by the difference.
pub proof fn lemma_counts_update(s: EngineState, t: EngineState, idx: int)
    requires
        s.wf(),
        s.is_used(idx),
        t.used == s.used,
        t.accounts.len() == s.accounts.len(),
        forall|j: int|
            0 <= j < MAX_ACCOUNTS && j != idx ==> #[trigger] t.accounts[j] == s.accounts[j],
    ensures
        sum(t.sizes()) == sum(s.sizes()) + t.accounts[idx].size() - s.accounts[idx].size(),
        sum(t.lp_positions()) == sum(s.lp_positions()) + t.accounts[idx].lp_position()
            - s.accounts[idx].lp_position(),
        sum(t.lp_sizes()) == sum(s.lp_sizes()) + t.accounts[idx].lp_size()
            - s.accounts[idx].lp_size(),
{
    let n = MAX_ACCOUNTS as int;
    let b = t.accounts[idx];
    lemma_sum_update(s.sizes(), idx, b.size(), n);
    assert(t.sizes() =~= s.sizes().update(idx, b.size()));
    lemma_sum_update(s.lp_positions(), idx, b.lp_position(), n);
    assert(t.lp_positions() =~= s.lp_positions().update(idx, b.lp_position()));
    lemma_sum_update(s.lp_sizes(), idx, b.lp_size(), n);
    assert(t.lp_sizes() =~= s.lp_sizes().update(idx, b.lp_size()));
}

/// Where no position changes, the sums stay right.
pub proof fn lemma_settlement_keeps_counts(s: EngineState, t: EngineState, idx: int)
    requires
        s.wf(),
        s.is_used(idx),
        settles_only(s, t, idx),
    ensures
        s.counts_positions() ==> t.counts_positions(),
        s.counts_lp() ==> t.counts_lp(),
{
    reveal(EngineState::counts_positions);
    reveal(EngineState::counts_lp);
    lemma_counts_update(s, t, idx);
    assert(s.counts_positions() ==> t.counts_positions()) by {
        assert(s.accounts[idx].position_size == t.accounts[idx].position_size);
    }
}

/// Closing part of a position keeps the sums right.
pub proof fn lemma_slice_close_counts(s: EngineState, idx: int, size: int, oracle: u64)
    requires
        s.wf(),
        s.is_used(idx),
        s.counts_positions(),
        0 <= size <= s.accounts[idx].size(),
    ensures
        s.with_slice_closed(idx, size, oracle).counts_positions(),
        s.counts_lp() ==> s.with_slice_closed(idx, size, oracle).counts_lp(),
        s.with_close_deferred(idx, size, oracle).0.counts_positions(),
        s.counts_lp() ==> s.with_close_deferred(idx, size, oracle).0.counts_lp(),
        s.with_close_deferred(idx, size, oracle).0.accounts[idx].size() <= s.accounts[idx].size(),
{
    reveal(EngineState::counts_positions);
    reveal(EngineState::counts_lp);
    let a = s.accounts[idx];
    let n = MAX_ACCOUNTS as int;
    assert(abs_sat(a.position_size@ as int) <= MAX_POSITION_ABS);
    lemma_sums_bounded(s, n);
    assert(s.sizes()[idx] == a.size());
    assert(s.lp_sizes()[idx] == a.lp_size());
    let s1 = s.with_slice_closed(idx, size, oracle);
    lemma_counts_update(s, s1, idx);
    let t = s.with_close_deferred(idx, size, oracle).0;
    lemma_counts_update(s, t, idx);
}

/// Only the account in slot `idx` has changed, its position has not grown, and the sums over
/// positions are still right.
pub open spec fn keeps_books(s: EngineState, t: EngineState, idx: int) -> bool {
    &&& changes_only(s, t, idx)
    &&& t.accounts[idx].size() <= s.accounts[idx].size()
    &&& t.wf()
    &&& s.counts_positions() ==> t.counts_positions()
    &&& s.counts_all() ==> t.counts_lp()
}

proof fn lemma_settlement_keeps_books(s: EngineState, t: EngineState, idx: int)
    requires
        s.wf(),
        t.wf(),
        s.is_used(idx),
        settles_only(s, t, idx),
    ensures
        keeps_books(s, t, idx),
{
    lemma_settlement_keeps_counts(s, t, idx);
}

proof fn lemma_close_frame(s: EngineState, idx: int, size: int, oracle: u64)
    requires
        s.wf(),
        s.is_used(idx),
    ensures
        changes_only(s, s.with_close_deferred(idx, size, oracle).0, idx),
        s.with_close_deferred(idx, size, oracle).0.wf(),
{
}

/// A deferred close changes no other account and keeps the sums over positions right.
pub proof fn law_deferred_close_is_isolated(s: EngineState, idx: int, size: int, oracle: u64)
    requires
        s.wf(),
        s.is_used(idx),
        0 <= size <= s.accounts[idx].size(),
    ensures
        keeps_books(s, s.close_slice_deferred(idx, size, oracle).0, idx),
{
    lemma_close_frame(s, idx, size, oracle);
    if s.counts_positions() {
        lemma_slice_close_counts(s, idx, size, oracle);
    }
    let s1 = s.with_close_deferred(idx, size, oracle).0;
    lemma_restart_books(s1, idx);
}

proof fn lemma_restart_books(s: EngineState, idx: int)
    requires
        s.wf(),
        s.is_used(idx),
    ensures
        ({
            let s2 = s.update_warmup_slope(idx).0;
            keeps_books(
                s,
                s2.with_account(idx, s2.accounts[idx].warmup_restarted(s2.effective_slot())),
                idx,
            )
        }),
{
    let s2 = s.update_warmup_slope(idx).0;
    let t = s2.with_account(idx, s2.accounts[idx].warmup_restarted(s2.effective_slot()));
    assert(settles_only(s, t, idx));
    lemma_settlement_keeps_books(s, t, idx);
}

/// A forced close leaves no position, changes no other account and keeps the sums over
/// positions right.
pub proof fn law_forced_close_is_isolated(s: EngineState, idx: int, oracle: u64)
    requires
        s.wf(),
        s.is_used(idx),
    ensures
        keeps_books(s, s.force_close(idx, oracle).0, idx),
        s.force_close(idx, oracle).0.accounts[idx].position_size@ == 0,
{
    let a = s.accounts[idx];
    if a.position_size@ != 0 {
        lemma_close_frame(s, idx, a.size(), oracle);
        if s.counts_positions() {
            lemma_slice_close_counts(s, idx, a.size(), oracle);
        }
        let s1 = s.with_close_deferred(idx, a.size(), oracle).0;
        let t = s.force_close(idx, oracle).0;
        assert(settles_only(s1, t, idx));
        lemma_settlement_keeps_books(s1, t, idx);
    }
}

proof fn lemma_liquidation_closed_books(s: EngineState, idx: int, oracle: u64)
    requires
        s.wf(),
        s.is_used(idx),
    ensures
        keeps_books(s, s.liquidation_closed(idx, oracle).0, idx),
{
    let a = s.accounts[idx];
    let size = liquidation_close(s.params, a, oracle as int).0;
    if size != 0 && a.size() != 0 {
        let n = min_int(size, a.size());
        law_deferred_close_is_isolated(s, idx, n, oracle);
        let s1 = s.close_slice_deferred(idx, n, oracle).0;
        law_deferred_close_is_isolated(s1, idx, s1.accounts[idx].size(), oracle);
    }
}

pub proof fn lemma_liquidate_settling_books(s: EngineState, idx: int, now: u64, oracle: u64)
    requires
        s.wf(),
        s.is_used(idx),
    ensures
        keeps_books(s, s.liquidate_settling(idx, now, oracle).0, idx),
{
    lemma_forced_touch_frame(s, idx, now, oracle);
    let (s1, r) = s.touch_account_for_liquidation(idx, now, oracle);
    lemma_settlement_keeps_books(s, s1, idx);
    lemma_liquidation_closed_books(s1, idx, oracle);
}

pub proof fn lemma_liquidation_fee_books(s: EngineState, idx: int, size: int, oracle: u64)
    requires
        s.wf(),
        s.is_used(idx),
        size >= 0,
    ensures
        keeps_books(s, s.with_liquidation_fee(idx, size, oracle), idx),
{
    let t = s.with_liquidation_fee(idx, size, oracle);
    lemma_fee_nonneg(s, size, oracle);
    assert(settles_only(s, t, idx));
    lemma_settlement_keeps_books(s, t, idx);
}

/// A liquidation with socialization left for later changes no other account and keeps the
/// sums over positions right.
pub proof fn law_deferred_liquidation_is_isolated(s: EngineState, idx: int, now: u64, oracle: u64)
    requires
        s.wf(),
        0 <= idx < MAX_ACCOUNTS,
    ensures
        keeps_books(s, s.liquidate_deferred(idx, now, oracle).0, idx),
{
    let s0 = s.at_slot(now);
    lemma_same_books(s, s0);
    if s.is_used(idx) {
        lemma_liquidate_settling_books(s0, idx, now, oracle);
        let (s1, r) = s0.liquidate_settling(idx, now, oracle);
        if let Ok(Some((size, d))) = r {
            lemma_liquidation_fee_books(s1, idx, size as int, oracle);
        }
    }
}

/// States with the same accounts and totals have the same sums.
pub proof fn lemma_same_books(s: EngineState, t: EngineState)
    requires
        s.used == t.used,
        s.accounts == t.accounts,
        s.same_totals(t),
    ensures
        s.counts_positions() == t.counts_positions(),
        s.counts_lp() == t.counts_lp(),
{
    reveal(EngineState::counts_positions);
    reveal(EngineState::counts_lp);
    assert(s.sizes() =~= t.sizes());
    assert(s.lp_sizes() =~= t.lp_sizes());
    assert(s.lp_positions() =~= t.lp_positions());
}

} // verus!
