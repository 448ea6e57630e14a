//! What every operation of the engine keeps, whether it succeeds or fails.
use vstd::prelude::*;

use crate::adl::Exempt;
use crate::adl_laws::{differ_in_profit_only, law_adl_takes_only_profit};
use crate::crank::{CrankContext, Tally};
use crate::dust::{all_used, distance, found_within, lemma_found_next, lemma_freed_next};
use crate::haircut::{cuts, lemma_sum_update, lemma_sum_zero, sum, sum_to};
use crate::isolation_laws::{
    changes_only, law_deposit_is_isolated, law_fee_credits_are_isolated, law_settlement_is_isolated,
    law_withdrawal_is_isolated, lemma_fees_frame, lemma_forced_touch_frame, lemma_funding_frame,
    lemma_mark_frame, lemma_reserve_backs, lemma_warmup_frame, settles_only,
};
use crate::math::{abs_sat, max_int, min_int, sat_i, sat_u};
use crate::operations::Operation;
use crate::position_laws::{
    keeps_books, law_deferred_liquidation_is_isolated, law_forced_close_is_isolated,
    lemma_counts_update, lemma_liquidate_settling_books, lemma_liquidation_fee_books,
    lemma_same_books, lemma_settlement_keeps_counts, lemma_slice_close_counts,
    lemma_sums_bounded,
};
use crate::settle_laws::lemma_trade_fee_nonneg;
use crate::slots::{lemma_alloc, lemma_free, lemma_fresh_slab_ok};
use crate::state::EngineState;
use crate::sweep::next_slot;
use crate::types::{
    AccountKind, RiskError, RiskParams, TradeExecution, ACCOUNTS_PER_CRANK,
    FORCE_REALIZE_BUDGET_PER_CRANK, GC_CLOSE_BUDGET, LIQ_BUDGET_PER_CRANK, MAX_ACCOUNTS,
    MAX_POSITION_ABS,
};
use crate::wide::U128;

verus! {

broadcast use crate::wide::group_wide;

impl EngineState {
    /// Every account has an id of its own, lower than the next one to be given.
    #[verifier::opaque]
    pub open spec fn ids_are_distinct(self) -> bool {
        &&& forall|i: int|
            0 <= i < MAX_ACCOUNTS && self.used[i] ==> (#[trigger] self.accounts[i]).account_id
                < self.next_account_id
        &&& forall|i: int, j: int|
            0 <= i < j < MAX_ACCOUNTS && self.used[i] && self.used[j] ==> (
            #[trigger] self.accounts[i]).account_id != (#[trigger] self.accounts[j]).account_id
    }

    /// The invariant of the engine: the slab is in order, account ids are distinct, converted
    /// profit is backed, open interest is the sum of the positions, and warmups are frozen in
    /// risk-reduction-only mode.
    #[verifier::opaque]
    pub open spec fn is_sound(self) -> bool {
        &&& self.wf()
        &&& self.ids_are_distinct()
        &&& self.is_backed()
        &&& self.counts_positions()
        &&& self.freezes_in_mode()
    }
}

impl EngineState {
    /// No liquidity provider has a larger position than the bound noted; and none that the
    /// sweep under way has visited, when it is at slot `i`, has a larger one than that sweep
    /// has noted.
    #[verifier::opaque]
    pub open spec fn bounds_lp(self, i: int) -> bool {
        forall|j: int|
            0 <= j < MAX_ACCOUNTS && self.used[j] ==> {
                let size = (#[trigger] self.accounts[j]).lp_size();
                &&& size <= self.lp_max_abs@
                &&& distance(self.sweep_start_idx as int, j) < distance(
                    self.sweep_start_idx as int,
                    i,
                ) ==> size <= self.lp_max_abs_sweep@
            }
    }

    /// The sweep has noted the position in slot `i`, if it is one of a liquidity provider.
    pub open spec fn has_noted(self, i: int) -> bool {
        self.used[i] ==> self.accounts[i].lp_size() <= self.lp_max_abs_sweep@
    }

    /// No liquidity provider has a larger position than the sweep has noted.
    #[verifier::opaque]
    pub open spec fn sweep_bounds_lp(self) -> bool {
        forall|j: int|
            0 <= j < MAX_ACCOUNTS && self.used[j] ==> (#[trigger] self.accounts[j]).lp_size()
                <= self.lp_max_abs_sweep@
    }
}

/// Positions of liquidity providers are bounded after if they are before, wherever the sweep
/// is; and it is where it was.
pub open spec fn keeps_lp_bound(s: EngineState, t: EngineState) -> bool {
    &&& t.crank_cursor == s.crank_cursor
    &&& t.sweep_start_idx == s.sweep_start_idx
    &&& forall|i: int| s.bounds_lp(i) ==> #[trigger] t.bounds_lp(i)
}

/// What is sound before is sound after, and the same holds of the exposure of liquidity
/// providers and of the bound on their positions.
pub open spec fn stays_sound(s: EngineState, t: EngineState) -> bool {
    &&& s.is_sound() ==> t.is_sound()
    &&& s.is_sound() && s.counts_lp() ==> t.counts_lp()
    &&& keeps_lp_bound(s, t)
}

/// The same, while the sweep moves on from slot `i` to slot `k`.
pub open spec fn stays_sound_at(s: EngineState, i: int, t: EngineState, k: int) -> bool {
    &&& s.is_sound() ==> t.is_sound()
    &&& s.is_sound() && s.counts_lp() ==> t.counts_lp()
    &&& s.bounds_lp(i) ==> t.bounds_lp(k)
}

/// Where no position has grown and no bound has fallen, the bounds hold.
proof fn lemma_bound_kept(s: EngineState, t: EngineState)
    requires
        t.crank_cursor == s.crank_cursor,
        t.sweep_start_idx == s.sweep_start_idx,
        t.lp_max_abs@ >= s.lp_max_abs@,
        t.lp_max_abs_sweep@ >= s.lp_max_abs_sweep@,
        forall|j: int|
            0 <= j < MAX_ACCOUNTS && t.used[j] ==> (#[trigger] t.accounts[j]).lp_size() == 0 || (
            s.used[j] && t.accounts[j].lp_size() <= s.accounts[j].lp_size()),
    ensures
        keeps_lp_bound(s, t),
{
    reveal(EngineState::bounds_lp);
    assert forall|i: int| s.bounds_lp(i) implies #[trigger] t.bounds_lp(i) by {
        assert forall|j: int| 0 <= j < MAX_ACCOUNTS && t.used[j] implies {
            let size = (#[trigger] t.accounts[j]).lp_size();
            &&& size <= t.lp_max_abs@
            &&& distance(t.sweep_start_idx as int, j) < distance(t.sweep_start_idx as int, i)
                ==> size <= t.lp_max_abs_sweep@
        } by {
            if t.accounts[j].lp_size() != 0 {
                assert(s.accounts[j].lp_size() <= s.lp_max_abs@);
            }
        }
    }
}

/// Where there are no positions, any bound holds.
proof fn lemma_flat_is_bounded(s: EngineState)
    requires
        flat_below(s, MAX_ACCOUNTS as int),
    ensures
        forall|i: int| #[trigger] s.bounds_lp(i),
{
    reveal(EngineState::bounds_lp);
    reveal(flat_below);
}

proof fn lemma_books_sound(s: EngineState, t: EngineState, idx: int)
    requires
        s.wf(),
        0 <= idx < MAX_ACCOUNTS,
        keeps_books(s, t, idx),
    ensures
        stays_sound(s, t),
{
    reveal(EngineState::is_sound);
    assert forall|j: int| 0 <= j < MAX_ACCOUNTS && t.used[j] implies (
    #[trigger] t.accounts[j]).lp_size() <= s.accounts[j].lp_size() by {
        if j != idx {
            assert(t.accounts[j] == s.accounts[j]);
        }
    }
    lemma_bound_kept(s, t);
    if s.is_sound() {
        lemma_same_ids(s, t);
    }
}

proof fn lemma_same_ids(s: EngineState, t: EngineState)
    requires
        s.ids_are_distinct(),
        t.used == s.used,
        t.next_account_id == s.next_account_id,
        forall|i: int|
            0 <= i < MAX_ACCOUNTS ==> (#[trigger] t.accounts[i]).account_id
                == s.accounts[i].account_id,
    ensures
        t.ids_are_distinct(),
{
    reveal(EngineState::ids_are_distinct);
    assert forall|i: int, j: int|
        0 <= i < j < MAX_ACCOUNTS && t.used[i] && t.used[j] implies (
    #[trigger] t.accounts[i]).account_id != (#[trigger] t.accounts[j]).account_id by {
        assert(s.accounts[i].account_id != s.accounts[j].account_id);
    }
    assert forall|i: int| 0 <= i < MAX_ACCOUNTS && t.used[i] implies (
    #[trigger] t.accounts[i]).account_id < t.next_account_id by {
        assert(s.accounts[i].account_id < s.next_account_id);
    }
}

proof fn lemma_settlement_sound(s: EngineState, t: EngineState, idx: int)
    requires
        s.wf(),
        t.wf(),
        s.is_used(idx),
        settles_only(s, t, idx),
    ensures
        stays_sound(s, t),
{
    lemma_settlement_keeps_counts(s, t, idx);
    lemma_books_sound(s, t, idx);
}

/// States that differ in nothing that soundness speaks of.
proof fn lemma_same_sound(s: EngineState, t: EngineState)
    requires
        s.wf(),
        t.wf(),
        s.same_slots(t),
        s.accounts == t.accounts,
        s.same_totals(t),
        s.is_backed() ==> t.is_backed(),
        s.freezes_in_mode() ==> t.freezes_in_mode(),
        t.crank_cursor == s.crank_cursor,
        t.sweep_start_idx == s.sweep_start_idx,
        t.lp_max_abs@ >= s.lp_max_abs@,
        t.lp_max_abs_sweep@ >= s.lp_max_abs_sweep@,
    ensures
        stays_sound(s, t),
{
    reveal(EngineState::is_sound);
    lemma_same_books(s, t);
    lemma_bound_kept(s, t);
    if s.is_sound() {
        lemma_same_ids(s, t);
    }
}

/// Deleveraging keeps the engine sound.
pub proof fn law_adl_keeps_sound(s: EngineState, loss: int, e: Exempt)
    requires
        s.wf(),
        loss >= 0,
    ensures
        stays_sound(s, s.deleverage(loss, e).0),
        s.deleverage(loss, e).0.wf(),
        s.deleverage(loss, e).0.used == s.used,
{
    reveal(EngineState::is_sound);
    let t = s.deleverage(loss, e).0;
    law_adl_takes_only_profit(s, loss, e);
    lemma_profit_cut_counts(s, t);
    lemma_adl_backing(s, loss, e);
    lemma_bound_kept(s, t);
    if s.is_sound() {
        lemma_same_ids(s, t);
    }
}

proof fn lemma_profit_cut_counts(s: EngineState, t: EngineState)
    requires
        s.wf(),
        differ_in_profit_only(s, t),
        s.same_totals(t),
    ensures
        s.counts_positions() ==> t.counts_positions(),
        s.counts_lp() ==> t.counts_lp(),
{
    reveal(EngineState::counts_positions);
    reveal(EngineState::counts_lp);
    assert(forall|i: int|
        0 <= i < MAX_ACCOUNTS ==> (#[trigger] t.accounts[i]).position_size
            == s.accounts[i].position_size && t.accounts[i].kind == s.accounts[i].kind);
    assert(s.sizes() =~= t.sizes());
    assert(s.lp_sizes() =~= t.lp_sizes());
    assert(s.lp_positions() =~= t.lp_positions());
}

proof fn lemma_adl_backing(s: EngineState, loss: int, e: Exempt)
    requires
        s.wf(),
        loss >= 0,
    ensures
        s.is_backed() ==> s.deleverage(loss, e).0.is_backed(),
{
    let c = cuts(s.adl_weights(e), loss);
    let t = s.with_cuts(c, MAX_ACCOUNTS as int);
    lemma_cover_backing(t, loss - sum(c));
}

proof fn lemma_cover_backing(s: EngineState, loss: int)
    ensures
        s.is_backed() ==> s.with_loss_covered(loss).with_reserve().is_backed(),
{
    if s.is_backed() {
        lemma_reserve_backs(s.with_loss_covered(loss));
    }
}

proof fn lemma_sweep_liquidate_sound(
    s: EngineState,
    idx: int,
    now: u64,
    oracle: u64,
    epoch: u16,
)
    requires
        s.wf(),
        s.is_used(idx),
    ensures
        ({
            let t = s.sweep_liquidate(idx, now, oracle, epoch).0;
            t.wf() && t.is_used(idx) && stays_sound(s, t)
        }),
{
    if s.accounts[idx].position_size@ != 0 {
        law_deferred_liquidation_is_isolated(s, idx, now, oracle);
        let t = s.liquidate_deferred(idx, now, oracle).0;
        lemma_books_sound(s, t, idx);
        lemma_same_sound(t, s.sweep_liquidate(idx, now, oracle, epoch).0);
    }
}

proof fn lemma_sweep_hopeless_sound(s: EngineState, idx: int, oracle: u64)
    requires
        s.wf(),
        s.is_used(idx),
    ensures
        s.sweep_hopeless(idx, oracle).wf(),
        s.sweep_hopeless(idx, oracle).is_used(idx),
        stays_sound(s, s.sweep_hopeless(idx, oracle)),
{
    if s.hopeless(idx, oracle) {
        law_forced_close_is_isolated(s, idx, oracle);
        let t = s.force_close(idx, oracle).0;
        lemma_books_sound(s, t, idx);
        lemma_same_sound(t, s.sweep_hopeless(idx, oracle));
    }
}

proof fn lemma_sweep_force_realize_sound(s: EngineState, idx: int, now: u64, oracle: u64)
    requires
        s.wf(),
        s.is_used(idx),
    ensures
        ({
            let t = s.sweep_force_realize(idx, now, oracle).0;
            t.wf() && t.is_used(idx) && stays_sound(s, t)
        }),
{
    lemma_forced_touch_frame(s, idx, now, oracle);
    let (s1, r) = s.touch_account_for_force_realize(idx, now, oracle);
    lemma_settlement_sound(s, s1, idx);
    law_forced_close_is_isolated(s1, idx, oracle);
    let s2 = s1.force_close(idx, oracle).0;
    lemma_books_sound(s1, s2, idx);
    let t = s.sweep_force_realize(idx, now, oracle).0;
    if s.accounts[idx].position_size@ != 0 {
        if r is Ok {
            lemma_same_sound(s2, t);
        } else {
            lemma_same_sound(s1, t);
        }
    }
}

proof fn lemma_visit_end_sound(s: EngineState, idx: int, slot: u64, epoch: u16)
    requires
        s.wf(),
        s.is_used(idx),
    ensures
        s.sweep_socialize(idx, slot, epoch).sweep_lp_max(idx).wf(),
        stays_sound(s, s.sweep_socialize(idx, slot, epoch).sweep_lp_max(idx)),
        s.sweep_socialize(idx, slot, epoch).sweep_lp_max(idx).has_noted(idx),
{
    let t = s.sweep_socialize(idx, slot, epoch);
    assert(settles_only(s, t, idx));
    lemma_settlement_sound(s, t, idx);
    lemma_same_sound(t, t.sweep_lp_max(idx));
}

proof fn lemma_visit_sound(s: EngineState, idx: int, c: CrankContext, t: Tally)
    requires
        s.wf(),
        s.is_used(idx),
    ensures
        s.visited(idx, c, t).0.wf(),
        stays_sound(s, s.visited(idx, c, t).0),
        s.visited(idx, c, t).0.has_noted(idx),
{
    let now = c.now_slot;
    let oracle = c.oracle_price;
    lemma_fees_frame(s, idx, now, oracle);
    let s1 = s.with_fees_charged(idx, now);
    lemma_settlement_sound(s, s1, idx);
    let s3 = if !c.force_realize && t.liquidations < LIQ_BUDGET_PER_CRANK {
        lemma_sweep_liquidate_sound(s1, idx, now, oracle, c.epoch);
        let s2 = s1.sweep_liquidate(idx, now, oracle, c.epoch).0;
        lemma_sweep_hopeless_sound(s2, idx, oracle);
        s2.sweep_hopeless(idx, oracle)
    } else if c.force_realize && t.force_closes < FORCE_REALIZE_BUDGET_PER_CRANK {
        let s2 = s1.in_risk_reduction();
        lemma_same_sound(s1, s2);
        lemma_sweep_force_realize_sound(s2, idx, now, oracle);
        s2.sweep_force_realize(idx, now, oracle).0
    } else {
        s1
    };
    lemma_visit_end_sound(s3, idx, c.effective_slot, c.epoch);
}

/// The sweep moves on by one slot, whose position it has noted. After the last one, it has
/// noted all.
proof fn lemma_sweep_moves_on(s: EngineState, i: int)
    requires
        0 <= i < MAX_ACCOUNTS,
        s.has_noted(i),
        s.bounds_lp(i),
    ensures
        sweep_got_to(s, next_slot(i), next_slot(i) == s.sweep_start_idx),
{
    reveal(EngineState::bounds_lp);
    reveal(EngineState::sweep_bounds_lp);
    let start = s.sweep_start_idx as int;
    let n = next_slot(i);
    assert forall|j: int|
        0 <= j < MAX_ACCOUNTS && j != i && (n == start || distance(start, j) < distance(
            start,
            n,
        )) implies #[trigger] distance(start, j) < distance(start, i) by {
        assert(n == i + 1 || (n == 0 && i == MAX_ACCOUNTS - 1));
    }
    assert forall|j: int| 0 <= j < MAX_ACCOUNTS && s.used[j] && (n == start || distance(start, j)
        < distance(start, n)) implies (#[trigger] s.accounts[j]).lp_size()
        <= s.lp_max_abs_sweep@ by {
        if j != i {
            assert(distance(start, j) < distance(start, i));
        }
    }
}

/// Where a sweep has got to, as far as the bounds on positions go.
pub open spec fn sweep_got_to(s: EngineState, k: int, complete: bool) -> bool {
    if complete {
        s.sweep_bounds_lp()
    } else {
        s.bounds_lp(k)
    }
}

/// One slot of a sweep.
#[verifier::opaque]
spec fn passed(s: EngineState, i: int, c: CrankContext, t: Tally) -> (EngineState, Tally) {
    if s.is_used(i) {
        s.visited(i, c, t)
    } else {
        (s, t)
    }
}

proof fn lemma_passed_sound(s: EngineState, i: int, c: CrankContext, t: Tally)
    requires
        s.wf(),
        0 <= i < MAX_ACCOUNTS,
    ensures
        ({
            let z = passed(s, i, c, t).0;
            &&& z.wf()
            &&& stays_sound(s, z)
            &&& s.bounds_lp(i) ==> sweep_got_to(z, next_slot(i), next_slot(i) == z.sweep_start_idx)
        }),
{
    reveal(passed);
    let z = passed(s, i, c, t).0;
    if s.is_used(i) {
        lemma_visit_sound(s, i, c, t);
    }
    if s.bounds_lp(i) {
        assert(z.bounds_lp(i));
        lemma_sweep_moves_on(z, i);
    }
}

/// One step of the visits of a crank.
proof fn lemma_swept_step(
    s: EngineState,
    i: int,
    scanned: int,
    processed: int,
    c: CrankContext,
    t: Tally,
)
    requires
        processed < ACCOUNTS_PER_CRANK,
        scanned < MAX_ACCOUNTS,
    ensures
        ({
            let (z, u) = passed(s, i, c, t);
            s.swept(i, scanned, processed, c, t) == if next_slot(i) == z.sweep_start_idx {
                (z, next_slot(i), u, true)
            } else {
                z.swept(
                    next_slot(i),
                    scanned + 1,
                    if s.is_used(i) {
                        processed + 1
                    } else {
                        processed
                    },
                    c,
                    u,
                )
            }
        }),
{
    reveal(passed);
}

proof fn lemma_sweep_sound(
    s: EngineState,
    i: int,
    scanned: int,
    processed: int,
    c: CrankContext,
    t: Tally,
)
    requires
        s.wf(),
        0 <= i < MAX_ACCOUNTS,
    ensures
        ({
            let (z, k, _, complete) = s.swept(i, scanned, processed, c, t);
            &&& z.wf()
            &&& 0 <= k < MAX_ACCOUNTS
            &&& stays_sound(s, z)
            &&& complete ==> k == s.sweep_start_idx
            &&& s.bounds_lp(i) ==> sweep_got_to(z, k, complete)
        }),
    decreases MAX_ACCOUNTS - scanned,
{
    if processed < ACCOUNTS_PER_CRANK && scanned < MAX_ACCOUNTS {
        lemma_passed_sound(s, i, c, t);
        lemma_swept_step(s, i, scanned, processed, c, t);
        let (z, u) = passed(s, i, c, t);
        let more = if s.is_used(i) {
            processed + 1
        } else {
            processed
        };
        if next_slot(i) != z.sweep_start_idx {
            lemma_sweep_sound(z, next_slot(i), scanned + 1, more, c, u);
        }
    }
}

proof fn lemma_finalize_backing(s: EngineState)
    ensures
        s.is_backed() ==> s.pending_finalized().is_backed(),
{
    if s.is_backed() && s.has_pending() && s.spendable_unreserved() > 0 {
        let s1 = s.pending_profit_covered();
        assert(s1.is_backed()) by {
            if s.pending_profit_to_fund@ != 0 {
                let spend = min_int(s.spendable_unreserved(), s.pending_profit_to_fund@ as int);
                lemma_reserve_backs(
                    EngineState {
                        pending_profit_to_fund: U128::of(s.pending_profit_to_fund@ - spend),
                        ..s
                    }.with_insurance(s.insurance_fund.balance@ - spend),
                );
            }
        }
        lemma_reserve_backs(s1.pending_loss_covered());
    }
}

/// A sweep that is complete replaces the bound on positions by the one it has noted.
proof fn lemma_sweep_end_sound(s: EngineState, now: u64)
    requires
        s.wf(),
    ensures
        ({
            let t = s.sweep_ended(now);
            &&& t.wf()
            &&& s.is_sound() ==> t.is_sound()
            &&& s.is_sound() && s.counts_lp() ==> t.counts_lp()
            &&& s.sweep_bounds_lp() ==> t.bounds_lp(t.crank_cursor as int)
            &&& t.crank_cursor == s.crank_cursor
        }),
{
    lemma_finalize_backing(s);
    lemma_same_sound(s, s.pending_finalized());
    let s1 = EngineState { last_full_sweep_completed_slot: now, ..s.pending_finalized() };
    lemma_same_sound(s.pending_finalized(), s1);
    let t = s.sweep_ended(now);
    lemma_same_books(s1, t);
    assert(s1.is_sound() ==> t.is_sound()) by {
        reveal(EngineState::is_sound);
        if s1.is_sound() {
            lemma_same_ids(s1, t);
        }
    }
    if s.sweep_bounds_lp() {
        reveal(EngineState::bounds_lp);
        reveal(EngineState::sweep_bounds_lp);
        assert(t.accounts == s.accounts);
    }
}

/// The listed accounts have no positions.
#[verifier::opaque]
pub open spec fn are_flat(s: EngineState, list: Seq<u16>, k: int) -> bool {
    forall|j: int|
        k <= j < list.len() ==> s.accounts[(#[trigger] list[j]) as int].position_size@ == 0
}

proof fn lemma_dust_examined_sound(s: EngineState, i: int)
    requires
        s.wf(),
    ensures
        ({
            let t = s.dust_examined(i);
            &&& t.wf()
            &&& stays_sound(s, t)
            &&& t.used == s.used
            &&& s.collectable(i) ==> s.used[i]
        }),
{
    if s.is_used(i) && s.accounts[i].kind != AccountKind::LP {
        lemma_fees_frame(s, i, s.current_slot, 0);
        let s1 = s.with_fees_charged(i, s.current_slot);
        let t = s.dust_examined(i);
        assert(settles_only(s, t, i));
        lemma_settlement_sound(s, t, i);
    }
}

proof fn lemma_flat_next(s: EngineState, i: int, found: Seq<u16>)
    requires
        s.wf(),
        0 <= i < MAX_ACCOUNTS,
        all_used(s.used, found, 0),
        are_flat(s, found, 0),
    ensures
        are_flat(
            s.dust_examined(i),
            if s.collectable(i) {
                found.push(i as u16)
            } else {
                found
            },
            0,
        ),
{
    reveal(all_used);
    reveal(are_flat);
    lemma_fees_frame(s, i, s.current_slot, 0);
}

/// One slot examined for dust.
#[verifier::opaque]
spec fn examined(s: EngineState, i: int) -> EngineState {
    s.dust_examined(i)
}

/// The list of dust accounts after slot `i` was examined.
#[verifier::opaque]
spec fn listed(s: EngineState, i: int, found: Seq<u16>) -> Seq<u16> {
    if s.collectable(i) {
        found.push(i as u16)
    } else {
        found
    }
}

/// The scan for dust, step by step.
spec fn scanned(s: EngineState, i: int, left: int, found: Seq<u16>) -> (EngineState, Seq<u16>)
    decreases left,
{
    if left <= 0 || found.len() >= GC_CLOSE_BUDGET {
        (s, found)
    } else {
        scanned(examined(s, i), next_slot(i), left - 1, listed(s, i, found))
    }
}

proof fn lemma_scanned(s: EngineState, i: int, left: int, found: Seq<u16>, loss: int)
    requires
        0 <= loss,
    ensures
        s.dust_scan(i, left, found, loss).0 == scanned(s, i, left, found).0,
        s.dust_scan(i, left, found, loss).1 == scanned(s, i, left, found).1,
        s.dust_scan(i, left, found, loss).2 >= 0,
    decreases left,
{
    if left > 0 && found.len() < GC_CLOSE_BUDGET {
        reveal(examined);
        reveal(listed);
        lemma_scanned(
            s.dust_examined(i),
            next_slot(i),
            left - 1,
            listed(s, i, found),
            sat_u(loss + s.dust_loss(i)),
        );
    }
}

proof fn lemma_dust_step_sound(s: EngineState, start: int, n: int, i: int, found: Seq<u16>)
    requires
        s.wf(),
        0 <= n < MAX_ACCOUNTS,
        i == (start + n) % (MAX_ACCOUNTS as int),
        all_used(s.used, found, 0),
        found_within(start, n, found),
        are_flat(s, found, 0),
    ensures
        ({
            let t = examined(s, i);
            let more = listed(s, i, found);
            &&& t.wf()
            &&& stays_sound(s, t)
            &&& all_used(t.used, more, 0)
            &&& found_within(start, n + 1, more)
            &&& are_flat(t, more, 0)
            &&& next_slot(i) == (start + n + 1) % (MAX_ACCOUNTS as int)
        }),
{
    reveal(examined);
    reveal(listed);
    lemma_dust_examined_sound(s, i);
    lemma_found_next(s.used, start, n, i, found);
    lemma_flat_next(s, i, found);
}

proof fn lemma_dust_scan_sound(
    s: EngineState,
    start: int,
    n: int,
    left: int,
    i: int,
    found: Seq<u16>,
)
    requires
        s.wf(),
        0 <= n,
        n + left <= MAX_ACCOUNTS,
        i == (start + n) % (MAX_ACCOUNTS as int),
        all_used(s.used, found, 0),
        found_within(start, n, found),
        are_flat(s, found, 0),
    ensures
        ({
            let (t, list) = scanned(s, i, left, found);
            t.wf() && stays_sound(s, t) && all_used(t.used, list, 0) && are_flat(t, list, 0)
        }),
    decreases left,
{
    if left > 0 && found.len() < GC_CLOSE_BUDGET {
        lemma_dust_step_sound(s, start, n, i, found);
        lemma_dust_scan_sound(
            examined(s, i),
            start,
            n + 1,
            left - 1,
            next_slot(i),
            listed(s, i, found),
        );
    }
}

/// Freeing a slot without a position keeps the engine sound.
proof fn lemma_free_sound(s: EngineState, idx: u16)
    requires
        s.wf(),
        s.is_used(idx as int),
        s.accounts[idx as int].position_size@ == 0,
    ensures
        s.free_slot(idx as int).wf(),
        stays_sound(s, s.free_slot(idx as int)),
{
    reveal(EngineState::is_sound);
    reveal(EngineState::counts_positions);
    reveal(EngineState::counts_lp);
    lemma_free(s, idx);
    let i = idx as int;
    let t = s.free_slot(i);
    let n = MAX_ACCOUNTS as int;
    lemma_sum_update(s.sizes(), i, 0, n);
    assert(t.sizes() =~= s.sizes().update(i, 0));
    lemma_sum_update(s.lp_sizes(), i, 0, n);
    assert(t.lp_sizes() =~= s.lp_sizes().update(i, 0));
    lemma_sum_update(s.lp_positions(), i, 0, n);
    assert(t.lp_positions() =~= s.lp_positions().update(i, 0));
    lemma_bound_kept(s, t);
    reveal(EngineState::ids_are_distinct);
    if s.is_sound() {
        assert forall|j: int, k: int|
            0 <= j < k < MAX_ACCOUNTS && t.used[j] && t.used[k] implies (
        #[trigger] t.accounts[j]).account_id != (#[trigger] t.accounts[k]).account_id by {
            assert(s.accounts[j].account_id != s.accounts[k].account_id);
        }
    }
}

proof fn lemma_free_all_sound(s: EngineState, list: Seq<u16>, k: int)
    requires
        s.wf(),
        0 <= k,
        all_used(s.used, list, k),
        are_flat(s, list, k),
    ensures
        s.free_all(list, k).wf(),
        stays_sound(s, s.free_all(list, k)),
    decreases list.len() - k,
{
    if k < list.len() {
        let idx = list[k];
        lemma_freed_next(s, list, k);
        assert(s.accounts[idx as int].position_size@ == 0) by {
            reveal(are_flat);
        }
        lemma_free_sound(s, idx);
        let t = s.free_slot(idx as int);
        assert(are_flat(t, list, k + 1)) by {
            reveal(all_used);
            reveal(are_flat);
        }
        lemma_free_all_sound(t, list, k + 1);
    }
}

/// Sharing the losses that dust accounts leave behind keeps the engine sound, and takes no
/// positions.
proof fn lemma_dust_loss_sound(s: EngineState, list: Seq<u16>, loss: int)
    requires
        s.wf(),
        loss >= 0,
        are_flat(s, list, 0),
        all_used(s.used, list, 0),
    ensures
        ({
            let t = s.with_dust_loss_shared(loss);
            t.wf() && t.used == s.used && stays_sound(s, t) && are_flat(t, list, 0)
        }),
{
    let t = s.with_dust_loss_shared(loss);
    if s.can_share(loss, Exempt::Nobody) {
        law_adl_keeps_sound(s, loss, Exempt::Nobody);
        law_adl_takes_only_profit(s, loss, Exempt::Nobody);
    } else {
        let s1 = s.with_loss_covered(loss);
        if s.is_backed() {
            lemma_reserve_backs(s1);
        }
        lemma_same_sound(s, t);
    }
    assert(are_flat(t, list, 0)) by {
        reveal(are_flat);
        reveal(all_used);
    }
}

proof fn lemma_gc_sound(s: EngineState)
    requires
        s.wf(),
    ensures
        s.garbage_collect_dust().0.wf(),
        stays_sound(s, s.garbage_collect_dust().0),
{
    let start = s.gc_cursor as int;
    let i = start % (MAX_ACCOUNTS as int);
    let none = Seq::<u16>::empty();
    assert(all_used(s.used, none, 0)) by {
        reveal(all_used);
    }
    assert(found_within(start, 0, none)) by {
        reveal(found_within);
    }
    assert(are_flat(s, none, 0)) by {
        reveal(are_flat);
    }
    lemma_dust_scan_sound(s, start, 0, ACCOUNTS_PER_CRANK as int, i, none);
    lemma_scanned(s, i, ACCOUNTS_PER_CRANK as int, none, 0);
    let (t, list, loss) = s.dust_scan(i, ACCOUNTS_PER_CRANK as int, none, 0);
    lemma_dust_loss_sound(t, list, loss);
    let t1 = t.with_dust_loss_shared(loss);
    let u = EngineState {
        gc_cursor: ((start + ACCOUNTS_PER_CRANK) % (MAX_ACCOUNTS as int)) as u16,
        ..t1
    };
    lemma_same_sound(t1, u);
    assert(are_flat(u, list, 0)) by {
        reveal(are_flat);
    }
    lemma_free_all_sound(u, list, 0);
}

/// Where the cursor stands makes no difference to what is sound.
proof fn lemma_cursor_moved(s: EngineState, t: EngineState)
    requires
        s.wf(),
        t == (EngineState { crank_cursor: t.crank_cursor, ..s }),
        t.wf(),
    ensures
        s.is_sound() ==> t.is_sound(),
        s.counts_lp() ==> t.counts_lp(),
        forall|i: int| s.bounds_lp(i) ==> #[trigger] t.bounds_lp(i),
        s.sweep_bounds_lp() ==> t.sweep_bounds_lp(),
{
    reveal(EngineState::is_sound);
    reveal(EngineState::bounds_lp);
    reveal(EngineState::sweep_bounds_lp);
    lemma_same_books(s, t);
    if s.is_sound() {
        lemma_same_ids(s, t);
    }
}

proof fn lemma_crank_closed_sound(s: EngineState, stop: int, complete: bool, c: CrankContext)
    requires
        s.wf(),
        0 <= stop < MAX_ACCOUNTS,
    ensures
        ({
            let t = s.crank_closed(stop, complete, c).0;
            &&& t.wf()
            &&& s.is_sound() ==> t.is_sound()
            &&& s.is_sound() && s.counts_lp() ==> t.counts_lp()
            &&& sweep_got_to(s, stop, complete) ==> t.bounds_lp(t.crank_cursor as int)
        }),
{
    let s1 = EngineState { crank_cursor: stop as u16, ..s };
    lemma_cursor_moved(s, s1);
    let s2 = if complete {
        lemma_sweep_end_sound(s1, c.now_slot);
        s1.sweep_ended(c.now_slot)
    } else {
        s1
    };
    if s2.is_backed() {
        lemma_reserve_backs(s2);
    }
    lemma_same_sound(s2, s2.with_reserve());
    if c.force_realize {
        lemma_gc_sound(s2.with_reserve());
    } else {
        lemma_gc_sound(s2);
    }
}

proof fn lemma_crank_run_sound(s: EngineState, now: u64, oracle: u64)
    requires
        s.wf(),
    ensures
        ({
            let t = s.crank_run(now, oracle).0;
            t.wf() && stays_sound_at(s, s.crank_cursor as int, t, t.crank_cursor as int)
        }),
{
    let c = s.crank_context(now, oracle);
    let none = Tally { liquidations: 0, liq_errors: 0, force_closes: 0, force_errors: 0 };
    let i = s.crank_cursor as int;
    lemma_sweep_sound(s, i, 0, 0, c, none);
    let (s1, stop, t, complete) = s.swept(i, 0, 0, c, none);
    lemma_crank_closed_sound(s1, stop, complete, c);
}

/// At the start of a sweep no position has been noted, and none need be.
proof fn lemma_sweep_begun_sound(s: EngineState, now: u64)
    requires
        s.wf(),
    ensures
        ({
            let t = s.at_slot(now).sweep_begun(now);
            &&& t.wf()
            &&& t.crank_cursor == s.crank_cursor
            &&& stays_sound_at(s, s.crank_cursor as int, t, t.crank_cursor as int)
        }),
{
    let s0 = s.at_slot(now);
    lemma_same_sound(s, s0);
    let t = s0.sweep_begun(now);
    lemma_same_books(s0, t);
    reveal(EngineState::is_sound);
    reveal(EngineState::bounds_lp);
    if s.is_sound() {
        lemma_same_ids(s0, t);
    }
}

/// A crank keeps the engine sound.
pub proof fn law_crank_keeps_sound(
    s: EngineState,
    caller: int,
    now: u64,
    oracle: u64,
    rate: i64,
    allow_panic: bool,
)
    requires
        s.wf(),
    ensures
        ({
            let t = s.keeper_crank(caller, now, oracle, rate, allow_panic).0;
            t.wf() && stays_sound_at(s, s.crank_cursor as int, t, t.crank_cursor as int)
        }),
{
    let begun = s.at_slot(now).sweep_begun(now);
    lemma_sweep_begun_sound(s, now);
    let s1 = begun.accrue_funding(now, oracle, rate).0;
    lemma_same_sound(begun, s1);
    let s2 = s1.crank_advanced(now);
    lemma_same_sound(s1, s2);
    let s3 = s2.caller_charged(caller, now);
    if s2.is_used(caller) {
        let b = s2.with_account(caller, s2.accounts[caller].half_forgiven(now));
        lemma_fees_frame(b, caller, now, oracle);
        assert(settles_only(s2, s3, caller));
        lemma_settlement_sound(s2, s3, caller);
    }
    lemma_crank_run_sound(s3, now, oracle);
}

/// A liquidation keeps the engine sound.
pub proof fn law_liquidation_keeps_sound(s: EngineState, idx: int, now: u64, oracle: u64)
    requires
        s.wf(),
        0 <= idx < MAX_ACCOUNTS,
    ensures
        s.liquidate_at_oracle(idx, now, oracle).0.wf(),
        stays_sound(s, s.liquidate_at_oracle(idx, now, oracle).0),
{
    let s0 = s.at_slot(now);
    lemma_same_sound(s, s0);
    if s.is_used(idx) {
        lemma_liquidate_settling_books(s0, idx, now, oracle);
        let (s1, r) = s0.liquidate_settling(idx, now, oracle);
        lemma_books_sound(s0, s1, idx);
        if let Ok(Some((size, d))) = r {
            law_adl_keeps_sound(s1, d.profit_to_fund as int, Exempt::One(idx as usize));
            let s2 = s1.deleverage(d.profit_to_fund as int, Exempt::One(idx as usize)).0;
            law_adl_keeps_sound(s2, d.unpaid_loss as int, Exempt::Nobody);
            let s3 = s2.deleverage(d.unpaid_loss as int, Exempt::Nobody).0;
            lemma_liquidation_fee_books(s3, idx, size as int, oracle);
            lemma_books_sound(s3, s3.with_liquidation_fee(idx, size as int, oracle), idx);
        }
    }
}

proof fn lemma_pair_settled_sound(s: EngineState, lp: int, user: int, now: u64, oracle: u64)
    requires
        s.wf(),
        s.is_used(lp),
        s.is_used(user),
    ensures
        ({
            let t = s.pair_settled(lp, user, now, oracle).0;
            t.wf() && t.used == s.used && stays_sound(s, t) && forall|j: int|
                0 <= j < MAX_ACCOUNTS ==> s.accounts[j].same_identity(#[trigger] t.accounts[j])
                    && (j != lp && j != user ==> t.accounts[j] == s.accounts[j])
        }),
{
    lemma_funding_frame(s, user);
    let s1 = s.touch_account(user).0;
    lemma_settlement_sound(s, s1, user);
    lemma_funding_frame(s1, lp);
    let s2 = s1.touch_account(lp).0;
    lemma_settlement_sound(s1, s2, lp);
    lemma_mark_frame(s2, user, oracle);
    let s3 = s2.settle_mark_to_oracle(user, oracle).0;
    lemma_settlement_sound(s2, s3, user);
    lemma_mark_frame(s3, lp, oracle);
    let s4 = s3.settle_mark_to_oracle(lp, oracle).0;
    lemma_settlement_sound(s3, s4, lp);
    lemma_fees_frame(s4, user, now, oracle);
    let s5 = s4.settle_maintenance_fee(user, now, oracle).0;
    lemma_settlement_sound(s4, s5, user);
    lemma_fees_frame(s5, lp, now, oracle);
    let s6 = s5.settle_maintenance_fee(lp, now, oracle).0;
    lemma_settlement_sound(s5, s6, lp);
}

proof fn lemma_fill_counts(s: EngineState, lp: int, user: int, oracle: u64, x: TradeExecution)
    requires
        s.wf(),
        s.is_used(lp),
        s.is_used(user),
        lp != user,
        s.accounts[lp].kind == AccountKind::LP,
        s.accounts[user].kind == AccountKind::User,
        s.fill_in_range(lp, user, oracle, x),
    ensures
        s.counts_positions() ==> s.with_fill(lp, user, oracle, x).counts_positions(),
        s.counts_all() ==> s.with_fill(lp, user, oracle, x).counts_lp(),
{
    reveal(EngineState::counts_positions);
    reveal(EngineState::counts_lp);
    let t = s.with_fill(lp, user, oracle, x);
    let s1 = s.with_account(user, t.accounts[user]);
    lemma_counts_update(s, s1, user);
    lemma_counts_update(s1, t, lp);
    if s.counts_positions() {
        assert(abs_sat(s.accounts[user].position_size@ as int) <= MAX_POSITION_ABS);
        assert(abs_sat(s.accounts[lp].position_size@ as int) <= MAX_POSITION_ABS);
        lemma_sums_bounded(s, MAX_ACCOUNTS as int);
        lemma_sizes_nonneg(t, MAX_ACCOUNTS as int);
        assert(forall|i: int|
            0 <= i < MAX_ACCOUNTS && t.used[i] && i != lp && i != user ==> (
            #[trigger] t.accounts[i]) == s.accounts[i]);
    }
}

proof fn lemma_sizes_nonneg(s: EngineState, n: int)
    requires
        0 <= n <= MAX_ACCOUNTS,
    ensures
        sum_to(s.sizes(), n) >= 0,
        sum_to(s.lp_sizes(), n) >= 0,
    decreases n,
{
    if n > 0 {
        lemma_sizes_nonneg(s, n - 1);
    }
}

proof fn lemma_fill_sound(s: EngineState, lp: int, user: int, oracle: u64, x: TradeExecution)
    requires
        s.wf(),
        s.is_used(lp),
        s.is_used(user),
        lp != user,
        s.accounts[lp].kind == AccountKind::LP,
        s.accounts[user].kind == AccountKind::User,
        s.fill_in_range(lp, user, oracle, x),
    ensures
        s.with_fill(lp, user, oracle, x).wf(),
        s.with_fill(lp, user, oracle, x).used == s.used,
        stays_sound(s, s.with_fill(lp, user, oracle, x)),
        forall|j: int|
            0 <= j < MAX_ACCOUNTS ==> s.accounts[j].same_identity(
                #[trigger] s.with_fill(lp, user, oracle, x).accounts[j],
            ) && (j != lp && j != user ==> s.with_fill(lp, user, oracle, x).accounts[j]
                == s.accounts[j]),
{
    reveal(EngineState::is_sound);
    let t = s.with_fill(lp, user, oracle, x);
    lemma_fill_counts(s, lp, user, oracle, x);
    lemma_trade_fee_nonneg(s, x);
    assert(s.is_backed() ==> t.is_backed());
    lemma_fill_bound(s, lp, user, oracle, x);
    if s.is_sound() {
        lemma_same_ids(s, t);
    }
}

/// A fill raises both bounds to the new position of the liquidity provider.
proof fn lemma_fill_bound(s: EngineState, lp: int, user: int, oracle: u64, x: TradeExecution)
    requires
        s.wf(),
        s.is_used(lp),
        s.is_used(user),
        lp != user,
        s.accounts[user].kind == AccountKind::User,
        s.fill_in_range(lp, user, oracle, x),
    ensures
        keeps_lp_bound(s, s.with_fill(lp, user, oracle, x)),
{
    reveal(EngineState::bounds_lp);
    let t = s.with_fill(lp, user, oracle, x);
    assert forall|i: int| s.bounds_lp(i) implies #[trigger] t.bounds_lp(i) by {
        assert forall|j: int| 0 <= j < MAX_ACCOUNTS && t.used[j] implies {
            let size = (#[trigger] t.accounts[j]).lp_size();
            &&& size <= t.lp_max_abs@
            &&& distance(t.sweep_start_idx as int, j) < distance(t.sweep_start_idx as int, i)
                ==> size <= t.lp_max_abs_sweep@
        } by {
            if j != lp && j != user {
                assert(t.accounts[j] == s.accounts[j]);
            }
        }
    }
}

proof fn lemma_pair_rewarmed_sound(s: EngineState, lp: int, user: int)
    requires
        s.wf(),
        s.is_used(lp),
        s.is_used(user),
    ensures
        ({
            let t = s.pair_rewarmed(lp, user).0;
            t.wf() && stays_sound(s, t) && t.used == s.used && forall|j: int|
                0 <= j < MAX_ACCOUNTS && j != lp && j != user ==> #[trigger] t.accounts[j]
                    == s.accounts[j]
        }),
{
    lemma_warmup_frame(s, user);
    let s1 = s.settle_warmup_to_capital(user).0;
    lemma_settlement_sound(s, s1, user);
    lemma_warmup_frame(s1, lp);
    let s2 = s1.settle_warmup_to_capital(lp).0;
    lemma_settlement_sound(s1, s2, lp);
    lemma_warmup_frame(s2, user);
    let s3 = s2.update_warmup_slope(user).0;
    lemma_settlement_sound(s2, s3, user);
    lemma_warmup_frame(s3, lp);
    let s4 = s3.update_warmup_slope(lp).0;
    lemma_settlement_sound(s3, s4, lp);
}

/// A trade changes no account but those of the two parties, and keeps the engine sound,
/// whatever the matching engine answers.
pub proof fn law_trade_is_isolated(
    s: EngineState,
    lp: int,
    user: int,
    now: u64,
    oracle: u64,
    size: i128,
    answer: Result<TradeExecution, RiskError>,
)
    requires
        s.wf(),
    ensures
        ({
            let t = s.execute_trade(lp, user, now, oracle, size, answer).0;
            t.wf() && stays_sound(s, t) && t.used == s.used && forall|j: int|
                0 <= j < MAX_ACCOUNTS && j != lp && j != user ==> #[trigger] t.accounts[j]
                    == s.accounts[j]
        }),
{
    let s0 = s.at_slot(now);
    lemma_same_sound(s, s0);
    if s.check_trade(lp, user, now, oracle, size) is Ok && answer is Ok {
        lemma_apply_fill_sound(s0, lp, user, now, oracle, size, answer->Ok_0);
    }
}

proof fn lemma_apply_fill_sound(
    s: EngineState,
    lp: int,
    user: int,
    now: u64,
    oracle: u64,
    size: i128,
    x: TradeExecution,
)
    requires
        s.wf(),
        s.is_used(lp),
        s.is_used(user),
        s.accounts[lp].kind == AccountKind::LP,
        s.accounts[user].kind == AccountKind::User,
    ensures
        ({
            let t = s.apply_fill(lp, user, now, oracle, size, x).0;
            t.wf() && stays_sound(s, t) && t.used == s.used && forall|j: int|
                0 <= j < MAX_ACCOUNTS && j != lp && j != user ==> #[trigger] t.accounts[j]
                    == s.accounts[j]
        }),
{
    lemma_pair_settled_sound(s, lp, user, now, oracle);
    let s1 = s.pair_settled(lp, user, now, oracle).0;
    assert(s.accounts[lp].same_identity(s1.accounts[lp]));
    assert(s.accounts[user].same_identity(s1.accounts[user]));
    if s1.fill_settled(lp, user, oracle, x).1 is Ok {
        lemma_fill_sound(s1, lp, user, oracle, x);
        lemma_pair_rewarmed_sound(s1.with_fill(lp, user, oracle, x), lp, user);
    }
}

/// Opening an account keeps the engine sound, as long as there are ids left; the new account
/// has the next one.
pub proof fn law_opening_keeps_sound(
    s: EngineState,
    kind: AccountKind,
    program: [u8; 32],
    context: [u8; 32],
    payment: u128,
)
    requires
        s.wf(),
        s.next_account_id < u64::MAX,
    ensures
        ({
            let (t, r) = s.add_account(kind, program, context, payment);
            &&& t.wf()
            &&& stays_sound(s, t)
            &&& t.next_account_id >= s.next_account_id
            &&& r matches Ok(idx) ==> idx < MAX_ACCOUNTS && !s.used[idx as int]
                && t.accounts[idx as int].account_id == s.next_account_id && t.next_account_id
                == s.next_account_id + 1
        }),
{
    reveal(EngineState::is_sound);
    reveal(EngineState::counts_positions);
    reveal(EngineState::counts_lp);
    let (t, r) = s.add_account(kind, program, context, payment);
    let fee = s.params.new_account_fee@;
    let paid = EngineState {
        vault: U128::of(sat_u(s.vault@ + payment)),
        ..s
    }.with_fee_income(fee as int);
    lemma_same_sound(s, paid);
    if r is Ok {
        lemma_alloc(paid);
        let i = s.free_head as int;
        let n = MAX_ACCOUNTS as int;
        lemma_sum_update(s.sizes(), i, 0, n);
        assert(t.sizes() =~= s.sizes().update(i, 0));
        lemma_sum_update(s.lp_sizes(), i, 0, n);
        assert(t.lp_sizes() =~= s.lp_sizes().update(i, 0));
        lemma_sum_update(s.lp_positions(), i, 0, n);
        assert(t.lp_positions() =~= s.lp_positions().update(i, 0));
        assert(s.is_sound() ==> t.counts_positions()) by {
            assert(t.accounts[i].position_size@ == 0);
        }
        lemma_bound_kept(s, t);
        lemma_new_id(s, t, i);
    }
}

proof fn lemma_new_id(s: EngineState, t: EngineState, idx: int)
    requires
        s.wf(),
        0 <= idx < MAX_ACCOUNTS,
        !s.used[idx],
        t.used == s.used.update(idx, true),
        t.accounts.len() == s.accounts.len(),
        forall|j: int|
            0 <= j < MAX_ACCOUNTS && j != idx ==> #[trigger] t.accounts[j] == s.accounts[j],
        t.accounts[idx].account_id == s.next_account_id,
        t.next_account_id > s.next_account_id,
    ensures
        s.ids_are_distinct() ==> t.ids_are_distinct(),
{
    reveal(EngineState::ids_are_distinct);
    if s.ids_are_distinct() {
        assert forall|i: int| 0 <= i < MAX_ACCOUNTS && t.used[i] implies (
        #[trigger] t.accounts[i]).account_id < t.next_account_id by {
            if i != idx {
                assert(s.accounts[i].account_id < s.next_account_id);
            }
        }
        assert forall|i: int, j: int|
            0 <= i < j < MAX_ACCOUNTS && t.used[i] && t.used[j] implies (
        #[trigger] t.accounts[i]).account_id != (#[trigger] t.accounts[j]).account_id by {
            if i != idx && j != idx {
                assert(s.accounts[i].account_id != s.accounts[j].account_id);
            } else if i != idx {
                assert(s.accounts[i].account_id < s.next_account_id);
            } else {
                assert(s.accounts[j].account_id < s.next_account_id);
            }
        }
    }
}

/// Closing an account keeps the engine sound.
pub proof fn law_closing_keeps_sound(s: EngineState, idx: u16, now: u64, oracle: u64)
    requires
        s.wf(),
    ensures
        s.close_account(idx as int, now, oracle).0.wf(),
        stays_sound(s, s.close_account(idx as int, now, oracle).0),
{
    let i = idx as int;
    let s0 = s.at_slot(now);
    lemma_same_sound(s, s0);
    if s.is_used(i) {
        law_settlement_is_isolated(s0, i, now, oracle);
        let s1 = s0.touch_account_full(i, now, oracle).0;
        lemma_settlement_sound(s0, s1, i);
        if s1.close_settled(i).1 is Ok {
            let s2 = s1.paid_out(s1.accounts[i].capital@ as int);
            lemma_same_sound(s1, s2);
            lemma_free_sound(s2, idx);
        }
    }
}

proof fn lemma_panic_close_sound(s: EngineState, i: int, oracle: u64)
    requires
        s.wf(),
        s.is_used(i),
    ensures
        ({
            let t = s.panic_close(i, oracle).0;
            &&& t.wf()
            &&& t.used == s.used
            &&& stays_sound(s, t)
            &&& t.accounts[i].position_size@ == 0
            &&& forall|j: int|
                0 <= j < MAX_ACCOUNTS && j != i ==> #[trigger] t.accounts[j] == s.accounts[j]
        }),
{
    reveal(EngineState::is_sound);
    let a = s.accounts[i];
    if a.position_size@ != 0 {
        let s1 = s.with_slice_closed(i, a.size(), oracle);
        let t = s.panic_close(i, oracle).0;
        if s.is_sound() {
            lemma_slice_close_counts(s, i, a.size(), oracle);
            lemma_same_ids(s, s1);
        }
        lemma_bound_kept(s, s1);
        assert(settles_only(s1, t, i));
        lemma_settlement_sound(s1, t, i);
    }
}

proof fn lemma_residual_sound(s: EngineState, idx: int)
    requires
        s.wf(),
        s.is_used(idx),
    ensures
        s.with_residual_socialized(idx).0.wf(),
        stays_sound(s, s.with_residual_socialized(idx).0),
{
    let loss = -(s.accounts[idx].pnl@ as int);
    if loss > 0 {
        law_adl_keeps_sound(s, loss, Exempt::Nobody);
        let (s1, r) = s.deleverage(loss, Exempt::Nobody);
        if r is Ok {
            let t = s.with_residual_socialized(idx).0;
            assert(settles_only(s1, t, idx));
            lemma_settlement_sound(s1, t, idx);
        }
    }
}

/// Closing part of a position, with socialization at once, keeps the engine sound, and the
/// exposure of liquidity providers the sum over their positions.
pub proof fn law_close_keeps_sound(s: EngineState, idx: int, size: int, oracle: u64)
    requires
        s.wf(),
        s.is_used(idx),
        0 <= size <= s.accounts[idx].size(),
    ensures
        s.close_slice(idx, size, oracle).0.wf(),
        stays_sound(s, s.close_slice(idx, size, oracle).0),
{
    let profit = max_int(s.accounts[idx].close_pnl(size, oracle), 0);
    let e = Exempt::One(idx as usize);
    let s0 = s.with_slice_closed(idx, size, oracle);
    assert(stays_sound(s, s0)) by {
        reveal(EngineState::is_sound);
        if s.is_sound() {
            lemma_slice_close_counts(s, idx, size, oracle);
            lemma_same_ids(s, s0);
        }
        lemma_bound_kept(s, s0);
    }
    law_adl_keeps_sound(s0, profit, e);
    let (s1, r) = s0.deleverage(profit, e);
    if r is Ok {
        lemma_warmup_frame(s1, idx);
        let s2 = s1.settle_warmup_to_capital(idx).0;
        lemma_settlement_sound(s1, s2, idx);
        lemma_residual_sound(s2, idx);
    }
}

/// No account in the slots below `n` has a position.
#[verifier::opaque]
pub open spec fn flat_below(s: EngineState, n: int) -> bool {
    forall|j: int|
        0 <= j < n && j < MAX_ACCOUNTS && s.used[j] ==> (
        #[trigger] s.accounts[j]).position_size@ == 0
}

proof fn lemma_flat_past_unused(s: EngineState, i: int)
    requires
        flat_below(s, i),
        !s.is_used(i),
    ensures
        flat_below(s, i + 1),
{
    reveal(flat_below);
}

proof fn lemma_panic_step_sound(s: EngineState, i: int, oracle: u64)
    requires
        s.wf(),
        s.is_used(i),
        flat_below(s, i),
    ensures
        ({
            let (s1, r) = s.touch_account(i);
            let s2 = s1.panic_close(i, oracle).0;
            &&& s1.wf() && stays_sound(s, s1)
            &&& s2.wf() && stays_sound(s, s2)
            &&& flat_below(s2, i + 1)
        }),
{
    reveal(flat_below);
    lemma_funding_frame(s, i);
    let s1 = s.touch_account(i).0;
    lemma_settlement_sound(s, s1, i);
    lemma_panic_close_sound(s1, i, oracle);
    let s2 = s1.panic_close(i, oracle).0;
    assert(forall|j: int| 0 <= j < i ==> #[trigger] s2.accounts[j] == s.accounts[j]);
}

proof fn lemma_panic_from_sound(s: EngineState, i: int, oracle: u64, loss: int, mark: int)
    requires
        s.wf(),
        0 <= i <= MAX_ACCOUNTS,
        flat_below(s, i),
    ensures
        ({
            let (t, r) = s.panic_close_from(i, oracle, loss, mark);
            &&& t.wf()
            &&& stays_sound(s, t)
            &&& r is Ok ==> flat_below(t, MAX_ACCOUNTS as int)
        }),
    decreases MAX_ACCOUNTS - i,
{
    if i < MAX_ACCOUNTS {
        if !s.is_used(i) {
            lemma_flat_past_unused(s, i);
            lemma_panic_from_sound(s, i + 1, oracle, loss, mark);
        } else {
            lemma_panic_step_sound(s, i, oracle);
            let s1 = s.touch_account(i).0;
            if s.touch_account(i).1 is Ok {
                let (s2, l, m) = s1.panic_close(i, oracle);
                lemma_panic_from_sound(s2, i + 1, oracle, sat_u(loss + l), sat_i(mark + m));
            }
        }
    }
}

proof fn lemma_warmup_from_sound(s: EngineState, i: int)
    requires
        s.wf(),
        0 <= i <= MAX_ACCOUNTS,
    ensures
        ({
            let t = s.settle_warmup_from(i).0;
            &&& t.wf()
            &&& t.used == s.used
            &&& stays_sound(s, t)
            &&& s.same_totals(t)
            &&& forall|j: int|
                0 <= j < MAX_ACCOUNTS ==> (#[trigger] t.accounts[j]).position_size
                    == s.accounts[j].position_size
        }),
    decreases MAX_ACCOUNTS - i,
{
    if i < MAX_ACCOUNTS {
        if !s.is_used(i) {
            lemma_warmup_from_sound(s, i + 1);
        } else {
            lemma_warmup_frame(s, i);
            let (s1, r) = s.settle_warmup_to_capital(i);
            lemma_settlement_sound(s, s1, i);
            if r is Ok {
                lemma_warmup_from_sound(s1, i + 1);
            }
        }
    }
}

/// Where no position is left, the totals over liquidity providers are right when reset.
proof fn lemma_lp_reset_sound(s: EngineState)
    requires
        s.wf(),
        flat_below(s, MAX_ACCOUNTS as int),
    ensures
        ({
            let t = s.with_lp_totals_reset();
            t.wf() && stays_sound(s, t) && t.counts_lp() && flat_below(t, MAX_ACCOUNTS as int)
        }),
{
    reveal(EngineState::is_sound);
    reveal(EngineState::counts_positions);
    reveal(EngineState::counts_lp);
    let t = s.with_lp_totals_reset();
    assert(s.sizes() =~= t.sizes());
    assert(flat_below(t, MAX_ACCOUNTS as int)) by {
        reveal(flat_below);
    }
    lemma_flat_sums(t, MAX_ACCOUNTS as int);
    lemma_flat_is_bounded(t);
    if s.is_sound() {
        lemma_same_ids(s, t);
    }
}

/// Deleveraging opens no position, and leaves the totals over liquidity providers alone.
proof fn lemma_adl_keeps_flat(s: EngineState, loss: int)
    requires
        s.wf(),
        loss >= 0,
        flat_below(s, MAX_ACCOUNTS as int),
    ensures
        ({
            let t = s.deleverage(loss, Exempt::Nobody).0;
            &&& t.wf()
            &&& stays_sound(s, t)
            &&& flat_below(t, MAX_ACCOUNTS as int)
            &&& t.net_lp_pos == s.net_lp_pos
            &&& t.lp_sum_abs == s.lp_sum_abs
        }),
{
    law_adl_keeps_sound(s, loss, Exempt::Nobody);
    law_adl_takes_only_profit(s, loss, Exempt::Nobody);
    let t = s.deleverage(loss, Exempt::Nobody).0;
    assert(flat_below(t, MAX_ACCOUNTS as int)) by {
        reveal(flat_below);
        assert forall|j: int| 0 <= j < MAX_ACCOUNTS && t.used[j] implies (
        #[trigger] t.accounts[j]).position_size@ == 0 by {
            assert(s.accounts[j].position_size@ == 0);
        }
    }
}

proof fn lemma_reserve_sound(s: EngineState)
    requires
        s.wf(),
    ensures
        stays_sound(s, s.with_reserve()),
{
    if s.is_backed() {
        lemma_reserve_backs(s);
    }
    lemma_same_sound(s, s.with_reserve());
}

/// An emergency settlement keeps the engine sound, and the exposure of liquidity providers
/// the sum over their positions, even where it fails. Where it succeeds, no account has a
/// position, and that exposure is zero.
pub proof fn law_panic_settlement_flattens(s: EngineState, oracle: u64)
    requires
        s.wf(),
    ensures
        ({
            let (t, r) = s.panic_settle_all(oracle);
            &&& t.wf()
            &&& stays_sound(s, t)
            &&& r is Ok ==> flat_below(t, MAX_ACCOUNTS as int) && t.net_lp_pos@ == 0
                && t.lp_sum_abs@ == 0
        }),
{
    let s0 = s.panic_begun();
    lemma_same_sound(s, s0);
    assert(flat_below(s0, 0)) by {
        reveal(flat_below);
    }
    lemma_panic_from_sound(s0, 0, oracle, 0, 0);
    let (closed, r) = s0.panic_close_from(0, oracle, 0, 0);
    if let Ok((loss, mark)) = r {
        let total = sat_u(loss + max_int(mark as int, 0));
        lemma_lp_reset_sound(closed);
        let s1 = closed.with_lp_totals_reset();
        lemma_adl_keeps_flat(s1, total);
        let s2 = s1.deleverage(total, Exempt::Nobody).0;
        lemma_warmup_from_sound(s2, 0);
        let s3 = s2.settle_warmup_from(0).0;
        lemma_reserve_sound(s3);
        if s.panic_settle_all(oracle).1 is Ok {
            let t = s3.with_reserve();
            assert(flat_below(t, MAX_ACCOUNTS as int)) by {
                reveal(flat_below);
                assert forall|j: int| 0 <= j < MAX_ACCOUNTS && t.used[j] implies (
                #[trigger] t.accounts[j]).position_size@ == 0 by {
                    assert(s3.accounts[j].position_size == s2.accounts[j].position_size);
                    assert(s2.accounts[j].position_size@ == 0);
                }
            }
        }
    }
}

proof fn lemma_flat_sums(s: EngineState, n: int)
    requires
        0 <= n <= MAX_ACCOUNTS,
        flat_below(s, MAX_ACCOUNTS as int),
    ensures
        sum_to(s.lp_positions(), n) == 0,
        sum_to(s.lp_sizes(), n) == 0,
    decreases n,
{
    reveal(flat_below);
    if n > 0 {
        lemma_flat_sums(s, n - 1);
        assert(s.used[n - 1] ==> s.accounts[n - 1].position_size@ == 0);
    }
}

proof fn lemma_forced_close_flattens(s: EngineState, i: int, oracle: u64)
    requires
        s.wf(),
        s.is_used(i),
        flat_below(s, i),
    ensures
        s.force_close(i, oracle).0.wf(),
        stays_sound(s, s.force_close(i, oracle).0),
        flat_below(s.force_close(i, oracle).0, i + 1),
{
    law_forced_close_is_isolated(s, i, oracle);
    let t = s.force_close(i, oracle).0;
    lemma_books_sound(s, t, i);
    lemma_flat_next_slot(s, t, i);
}

proof fn lemma_flat_next_slot(s: EngineState, t: EngineState, i: int)
    requires
        flat_below(s, i),
        0 <= i < MAX_ACCOUNTS,
        s.accounts.len() == MAX_ACCOUNTS,
        changes_only(s, t, i),
    ensures
        flat_below(t, i),
        t.accounts[i].position_size@ == 0 ==> flat_below(t, i + 1),
{
    reveal(flat_below);
}

proof fn lemma_touch_keeps_flat(s: EngineState, i: int)
    requires
        s.wf(),
        s.is_used(i),
        flat_below(s, i),
    ensures
        s.touch_account(i).0.wf(),
        s.touch_account(i).0.is_used(i),
        stays_sound(s, s.touch_account(i).0),
        flat_below(s.touch_account(i).0, i),
{
    lemma_funding_frame(s, i);
    let t = s.touch_account(i).0;
    lemma_settlement_sound(s, t, i);
    lemma_flat_next_slot(s, t, i);
}

proof fn lemma_force_close_from_sound(s: EngineState, i: int, oracle: u64, unpaid: int, mark: int)
    requires
        s.wf(),
        0 <= i <= MAX_ACCOUNTS,
        flat_below(s, i),
    ensures
        ({
            let (t, r) = s.force_close_from(i, oracle, unpaid, mark);
            &&& t.wf()
            &&& stays_sound(s, t)
            &&& r is Ok ==> flat_below(t, MAX_ACCOUNTS as int)
        }),
    decreases MAX_ACCOUNTS - i,
{
    if i < MAX_ACCOUNTS {
        if !s.is_used(i) {
            lemma_flat_past_unused(s, i);
            lemma_force_close_from_sound(s, i + 1, oracle, unpaid, mark);
        } else {
            lemma_touch_keeps_flat(s, i);
            let s1 = s.touch_account(i).0;
            lemma_forced_close_flattens(s1, i, oracle);
            if s.touch_account(i).1 is Ok {
                let (s2, (m, d)) = s1.force_close(i, oracle);
                lemma_force_close_from_sound(
                    s2,
                    i + 1,
                    oracle,
                    sat_u(unpaid + d.unpaid_loss),
                    sat_i(mark + m),
                );
            }
        }
    }
}

/// A forced realization of losses keeps the engine sound, and the exposure of liquidity
/// providers the sum over their positions, even where it fails. Where it succeeds, no account
/// has a position, and that exposure is zero.
pub proof fn law_forced_realization_flattens(s: EngineState, oracle: u64)
    requires
        s.wf(),
    ensures
        ({
            let (t, r) = s.force_realize_losses(oracle);
            &&& t.wf()
            &&& stays_sound(s, t)
            &&& r is Ok ==> flat_below(t, MAX_ACCOUNTS as int) && t.net_lp_pos@ == 0
                && t.lp_sum_abs@ == 0
        }),
{
    let s0 = s.in_risk_reduction();
    lemma_same_sound(s, s0);
    assert(flat_below(s0, 0)) by {
        reveal(flat_below);
    }
    lemma_force_close_from_sound(s0, 0, oracle, 0, 0);
    let (closed, r) = s0.force_close_from(0, oracle, 0, 0);
    if let Ok((unpaid, mark)) = r {
        let total = sat_u(unpaid + max_int(mark as int, 0));
        lemma_lp_reset_sound(closed);
        let s1 = closed.with_lp_totals_reset();
        lemma_adl_keeps_flat(s1, total);
        let s2 = s1.deleverage(total, Exempt::Nobody).0;
        lemma_reserve_sound(s2);
        assert(flat_below(s2.with_reserve(), MAX_ACCOUNTS as int)) by {
            reveal(flat_below);
        }
    }
}

/// A new engine is sound.
pub proof fn law_fresh_engine_is_sound(params: RiskParams)
    ensures
        EngineState::fresh(params).is_sound(),
        EngineState::fresh(params).counts_lp(),
        EngineState::fresh(params).bounds_lp(0),
{
    reveal(EngineState::is_sound);
    reveal(EngineState::bounds_lp);
    reveal(EngineState::ids_are_distinct);
    reveal(EngineState::counts_positions);
    reveal(EngineState::counts_lp);
    let s = EngineState::fresh(params);
    lemma_fresh_slab_ok();
    lemma_sum_zero(s.sizes(), MAX_ACCOUNTS as int);
    lemma_sum_zero(s.lp_sizes(), MAX_ACCOUNTS as int);
    lemma_sum_zero(s.lp_positions(), MAX_ACCOUNTS as int);
}

proof fn lemma_deposit_sound(s: EngineState, idx: u16, amount: u128, now: u64)
    requires
        s.wf(),
    ensures
        stays_sound(s, s.deposit(idx as int, amount, now).0),
{
    if s.is_used(idx as int) {
        law_deposit_is_isolated(s, idx as int, amount, now);
        lemma_settlement_sound(s, s.deposit(idx as int, amount, now).0, idx as int);
    } else {
        lemma_same_sound(s, s.at_slot(now));
    }
}

proof fn lemma_withdrawal_sound(s: EngineState, idx: u16, amount: u128, now: u64, oracle: u64)
    requires
        s.wf(),
    ensures
        stays_sound(s, s.withdraw(idx as int, amount, now, oracle).0),
{
    if s.is_used(idx as int) {
        law_withdrawal_is_isolated(s, idx as int, amount, now, oracle);
        lemma_settlement_sound(s, s.withdraw(idx as int, amount, now, oracle).0, idx as int);
    } else {
        lemma_same_sound(s, s.at_slot(now));
    }
}

proof fn lemma_prepayment_sound(s: EngineState, idx: u16, amount: u128, now: u64)
    requires
        s.wf(),
    ensures
        stays_sound(s, s.deposit_fee_credits(idx as int, amount, now).0),
{
    if s.is_used(idx as int) {
        law_fee_credits_are_isolated(s, idx as int, amount, now);
        lemma_settlement_sound(s, s.deposit_fee_credits(idx as int, amount, now).0, idx as int);
    }
}

proof fn lemma_full_settlement_sound(s: EngineState, idx: u16, now: u64, oracle: u64)
    requires
        s.wf(),
    ensures
        stays_sound(s, s.touch_account_full(idx as int, now, oracle).0),
{
    if s.is_used(idx as int) {
        law_settlement_is_isolated(s, idx as int, now, oracle);
        lemma_settlement_sound(s, s.touch_account_full(idx as int, now, oracle).0, idx as int);
    }
}

proof fn lemma_warmup_sound(s: EngineState, idx: u16)
    requires
        s.wf(),
    ensures
        stays_sound(s, s.settle_warmup_to_capital(idx as int).0),
{
    if s.is_used(idx as int) {
        lemma_warmup_frame(s, idx as int);
        lemma_settlement_sound(s, s.settle_warmup_to_capital(idx as int).0, idx as int);
    }
}

proof fn lemma_liquidation_sound(s: EngineState, idx: u16, now: u64, oracle: u64)
    requires
        s.wf(),
    ensures
        stays_sound(s, s.liquidate_at_oracle(idx as int, now, oracle).0),
{
    if s.is_used(idx as int) {
        law_liquidation_keeps_sound(s, idx as int, now, oracle);
    } else {
        lemma_same_sound(s, s.at_slot(now));
    }
}

proof fn lemma_accrual_sound(s: EngineState, now: u64, price: u64, rate: i64)
    requires
        s.wf(),
    ensures
        stays_sound(s, s.accrue_funding(now, price, rate).0),
{
    lemma_same_sound(s, s.accrue_funding(now, price, rate).0);
}

proof fn lemma_top_up_sound(s: EngineState, amount: u128)
    requires
        s.wf(),
    ensures
        s.top_up_insurance_fund(amount as int).wf(),
        stays_sound(s, s.top_up_insurance_fund(amount as int)),
{
    let covered = min_int(amount as int, s.loss_accum@ as int);
    let s1 = EngineState {
        vault: U128::of(sat_u(s.vault@ + amount)),
        loss_accum: U128::of(s.loss_accum@ - covered),
        ..s
    }.with_insurance(sat_u(s.insurance_fund.balance@ + (amount - covered)));
    if s.is_backed() {
        lemma_reserve_backs(s1);
    }
    lemma_same_sound(s, s.top_up_insurance_fund(amount as int));
}

proof fn lemma_operation_sound(s: EngineState, op: Operation)
    requires
        s.wf(),
        op is Open ==> s.next_account_id < u64::MAX,
    ensures
        stays_sound_at(
            s,
            s.crank_cursor as int,
            s.after(op),
            s.after(op).crank_cursor as int,
        ),
{
    let t = s.after(op);
    match op {
        Operation::Open { kind, program, context, payment } => {
            law_opening_keeps_sound(s, kind, program, context, payment);
            assert(t == s.add_account(kind, program, context, payment).0) by {
                reveal(EngineState::after);
            }
        },
        Operation::Deposit { idx, amount, now } => {
            lemma_deposit_sound(s, idx, amount, now);
            assert(t == s.deposit(idx as int, amount, now).0) by {
                reveal(EngineState::after);
            }
        },
        Operation::Withdraw { idx, amount, now, oracle } => {
            lemma_withdrawal_sound(s, idx, amount, now, oracle);
            assert(t == s.withdraw(idx as int, amount, now, oracle).0) by {
                reveal(EngineState::after);
            }
        },
        Operation::Close { idx, now, oracle } => {
            law_closing_keeps_sound(s, idx, now, oracle);
            assert(t == s.close_account(idx as int, now, oracle).0) by {
                reveal(EngineState::after);
            }
        },
        Operation::PrepayFees { idx, amount, now } => {
            lemma_prepayment_sound(s, idx, amount, now);
            assert(t == s.deposit_fee_credits(idx as int, amount, now).0) by {
                reveal(EngineState::after);
            }
        },
        Operation::TopUp { amount } => {
            lemma_top_up_sound(s, amount);
            assert(t == s.top_up_insurance_fund(amount as int)) by {
                reveal(EngineState::after);
            }
        },
        Operation::AccrueFunding { now, price, rate } => {
            lemma_accrual_sound(s, now, price, rate);
            assert(t == s.accrue_funding(now, price, rate).0) by {
                reveal(EngineState::after);
            }
        },
        Operation::Settle { idx, now, oracle } => {
            lemma_full_settlement_sound(s, idx, now, oracle);
            assert(t == s.touch_account_full(idx as int, now, oracle).0) by {
                reveal(EngineState::after);
            }
        },
        Operation::SettleWarmup { idx } => {
            lemma_warmup_sound(s, idx);
            assert(t == s.settle_warmup_to_capital(idx as int).0) by {
                reveal(EngineState::after);
            }
        },
        Operation::Deleverage { loss } => {
            law_adl_keeps_sound(s, loss as int, Exempt::Nobody);
            assert(t == s.deleverage(loss as int, Exempt::Nobody).0) by {
                reveal(EngineState::after);
            }
        },
        Operation::Trade { lp, user, now, oracle, size, answer } => {
            law_trade_is_isolated(s, lp as int, user as int, now, oracle, size, answer);
            assert(t == s.execute_trade(
                lp as int,
                user as int,
                now,
                oracle,
                size,
                answer,
            ).0) by {
                reveal(EngineState::after);
            }
        },
        Operation::Liquidate { idx, now, oracle } => {
            lemma_liquidation_sound(s, idx, now, oracle);
            assert(t == s.liquidate_at_oracle(idx as int, now, oracle).0) by {
                reveal(EngineState::after);
            }
        },
        Operation::Crank { caller, now, oracle, rate, allow_panic } => {
            law_crank_keeps_sound(s, caller as int, now, oracle, rate, allow_panic);
            assert(t == s.keeper_crank(caller as int, now, oracle, rate, allow_panic).0) by {
                reveal(EngineState::after);
            }
        },
        Operation::PanicSettle { oracle } => {
            law_panic_settlement_flattens(s, oracle);
            assert(t == s.panic_settle_all(oracle).0) by {
                reveal(EngineState::after);
            }
        },
        Operation::ForceRealize { oracle } => {
            law_forced_realization_flattens(s, oracle);
            assert(t == s.force_realize_losses(oracle).0) by {
                reveal(EngineState::after);
            }
        },
    }
}

/// Every operation keeps the engine sound, whether it succeeds or fails. Account ids stay
/// distinct as long as they last.
pub proof fn law_operations_keep_sound(s: EngineState, op: Operation)
    requires
        s.is_sound(),
        op is Open ==> s.next_account_id < u64::MAX,
    ensures
        s.after(op).is_sound(),
{
    assert(s.wf()) by {
        reveal(EngineState::is_sound);
    }
    lemma_operation_sound(s, op);
}

/// Every operation keeps the exposure of liquidity providers the sum over their positions,
/// whether it succeeds or fails.
pub proof fn law_operations_count_lp(s: EngineState, op: Operation)
    requires
        s.is_sound(),
        s.counts_lp(),
        op is Open ==> s.next_account_id < u64::MAX,
    ensures
        s.after(op).counts_lp(),
{
    assert(s.wf()) by {
        reveal(EngineState::is_sound);
    }
    lemma_operation_sound(s, op);
}

/// Every operation keeps the positions of liquidity providers within the bound noted, whether
/// it succeeds or fails, and wherever the sweep under way stands.
pub proof fn law_operations_bound_lp(s: EngineState, op: Operation)
    requires
        s.is_sound(),
        s.bounds_lp(s.crank_cursor as int),
        op is Open ==> s.next_account_id < u64::MAX,
    ensures
        s.after(op).bounds_lp(s.after(op).crank_cursor as int),
{
    assert(s.wf()) by {
        reveal(EngineState::is_sound);
    }
    lemma_operation_sound(s, op);
}

/// The maximum noted is at least the position of every liquidity provider.
pub proof fn law_noted_maximum_is_a_bound(s: EngineState, lp: int)
    requires
        s.bounds_lp(s.crank_cursor as int),
        s.is_used(lp),
        s.accounts[lp].kind == AccountKind::LP,
    ensures
        s.accounts[lp].size() <= s.lp_max_abs@,
{
    reveal(EngineState::bounds_lp);
}

/// In risk-reduction-only mode warmups are frozen.
pub proof fn law_mode_freezes_warmups(s: EngineState)
    requires
        s.is_sound(),
        s.risk_reduction_only,
    ensures
        s.warmup_paused,
{
    reveal(EngineState::is_sound);
}

/// Whatever operations follow the creation of an engine, it is sound, the exposure of
/// liquidity providers is the sum over their positions, and none of these is larger than the
/// bound noted.
pub proof fn law_engine_stays_sound(params: RiskParams, ops: Seq<Operation>)
    requires
        forall|k: int|
            0 <= k < ops.len() ==> EngineState::fresh(params).after_all(
                #[trigger] ops.take(k),
            ).next_account_id < u64::MAX,
    ensures
        EngineState::fresh(params).after_all(ops).is_sound(),
        EngineState::fresh(params).after_all(ops).counts_lp(),
        EngineState::fresh(params).after_all(ops).bounds_lp(
            EngineState::fresh(params).after_all(ops).crank_cursor as int,
        ),
    decreases ops.len(),
{
    let s = EngineState::fresh(params);
    if ops.len() == 0 {
        law_fresh_engine_is_sound(params);
    } else {
        let before = ops.drop_last();
        assert(before =~= ops.take(ops.len() - 1));
        assert forall|k: int| 0 <= k < before.len() implies s.after_all(
            #[trigger] before.take(k),
        ).next_account_id < u64::MAX by {
            assert(before.take(k) =~= ops.take(k));
        }
        law_engine_stays_sound(params, before);
        law_operations_keep_sound(s.after_all(before), ops.last());
        law_operations_count_lp(s.after_all(before), ops.last());
        law_operations_bound_lp(s.after_all(before), ops.last());
    }
}

} // verus!
