//! What a crank does to the accounts that it visits and what it reports, told by positions,
//! balances and slots.
use vstd::prelude::*;

use crate::account_laws::{fees_in_range, fund_has_room, law_every_slot_is_charged};
use crate::closing_laws::{law_forced_close_realizes_position, totals_in_range};
use crate::crank::{CrankContext, Tally};
use crate::isolation_laws::{lemma_fees_frame, lemma_forced_touch_frame};
use crate::liquidation_laws::{
    covers, gain, in_bounds, law_covered_account_is_left, law_liquidation_pays_loss_then_fee,
    law_margin_is_a_part_of_value, law_uncovered_account_is_liquidated, nearer_zero,
};
use crate::rounding::magnitude;
use crate::state::EngineState;
use crate::sweep_laws::{law_dust_collection_keeps_budget, law_sweep_keeps_budget};
use crate::types::{Account, AccountKind, CrankOutcome, RiskError, MAX_ACCOUNTS};

verus! {

broadcast use crate::wide::group_wide;

/// What of a profit is neither reserved nor matured at `slot`.
pub open spec fn young_at(a: Account, slot: u64) -> int {
    let vested = if slot > a.warmup_started_at_slot {
        a.warmup_slope_per_step@ * (slot - a.warmup_started_at_slot)
    } else {
        0
    };
    if a.pnl@ > a.reserved_pnl + vested {
        a.pnl@ - a.reserved_pnl - vested
    } else {
        0
    }
}

/// What is pending is taken off the young profit of a visited account: profit to be funded
/// first, unless the account is exempt in this sweep, then unpaid loss; as much as there is.
pub proof fn law_pending_is_taken_off_young_profit(
    s: EngineState,
    idx: int,
    slot: u64,
    epoch: u16,
)
    requires
        s.wf(),
        s.is_used(idx),
    ensures
        ({
            let t = s.sweep_socialize(idx, slot, epoch);
            let a = s.accounts[idx];
            let b = t.accounts[idx];
            let young = young_at(a, slot);
            let funded = s.pending_profit_to_fund@ - t.pending_profit_to_fund@;
            let borne = s.pending_unpaid_loss@ - t.pending_unpaid_loss@;
            &&& b.pnl@ == a.pnl@ - funded - borne
            &&& b == (Account { pnl: b.pnl, ..a })
            &&& 0 <= funded
            &&& 0 <= borne
            &&& funded + borne <= young
            &&& s.pending_exclude_epoch[idx] == epoch ==> funded == 0
            &&& s.pending_exclude_epoch[idx] != epoch ==> funded == young
                || t.pending_profit_to_fund@ == 0
            &&& funded + borne == young || t.pending_unpaid_loss@ == 0
            &&& t == (EngineState {
                accounts: s.accounts.update(idx, b),
                pending_profit_to_fund: t.pending_profit_to_fund,
                pending_unpaid_loss: t.pending_unpaid_loss,
                ..s
            })
        }),
{
    let a = s.accounts[idx];
    let r = a.warmup_slope_per_step@ as int;
    assert(r * 0 == 0) by (nonlinear_arith);
    let n = slot - a.warmup_started_at_slot;
    if n > 0 {
        assert(r * n >= 0) by (nonlinear_arith)
            requires
                r >= 0,
                n > 0,
        ;
    }
}

proof fn lemma_close_keeps_pending(s: EngineState, idx: int, oracle: u64)
    requires
        s.wf(),
        s.is_used(idx),
    ensures
        ({
            let t = s.liquidation_closed(idx, oracle).0;
            &&& t.same_pending(s)
            &&& t.lifetime_liquidations == s.lifetime_liquidations
        }),
{
}

pub proof fn lemma_liquidation_keeps_pending(s: EngineState, idx: int, now: u64, oracle: u64)
    requires
        s.wf(),
        s.is_used(idx),
    ensures
        ({
            let t = s.liquidate_deferred(idx, now, oracle).0;
            &&& t.same_pending(s)
            &&& t.lifetime_liquidations == s.lifetime_liquidations
        }),
{
    let s0 = s.at_slot(now);
    lemma_forced_touch_frame(s0, idx, now, oracle);
    let s1 = s0.touch_account_for_liquidation(idx, now, oracle).0;
    lemma_close_keeps_pending(s1, idx, oracle);
}

/// A liquidation in a sweep: an account that does not cover its margin loses part of its
/// position at least, it is counted, and what its capital could not pay becomes pending.
#[verifier::spinoff_prover]
pub proof fn law_sweep_liquidates_uncovered(
    s: EngineState,
    idx: int,
    now: u64,
    oracle: u64,
    epoch: u16,
)
    requires
        s.wf(),
        s.is_used(idx),
        s.accounts[idx].position_size@ != 0,
        0 < oracle <= 1_000_000_000_000_000,
        s.params.maintenance_margin_bps <= 1_000_000_000,
        s.params.liquidation_fee_bps <= 1_000_000_000,
        s.pending_unpaid_loss@ <= i128::MAX,
        ({
            let (s1, r) = s.at_slot(now).touch_account_for_liquidation(idx, now, oracle);
            &&& r is Ok
            &&& in_bounds(s1.accounts[idx], oracle as int)
            &&& s1.insurance_fund.balance@ <= i128::MAX
            &&& s1.insurance_fund.fee_revenue@ <= i128::MAX
            &&& !covers(
                s1.accounts[idx],
                oracle as int,
                s.params.maintenance_margin_bps as int,
            )
        }),
    ensures
        ({
            let (t, liquidated, failed) = s.sweep_liquidate(idx, now, oracle, epoch);
            let a = s.at_slot(now).touch_account_for_liquidation(idx, now, oracle).0.accounts[idx];
            let short = if a.capital@ + a.pnl@ < 0 {
                -(a.capital@ + a.pnl@)
            } else {
                0
            };
            &&& liquidated == 1
            &&& failed == 0
            &&& nearer_zero(
                t.accounts[idx].position_size@ as int,
                s.accounts[idx].position_size@ as int,
            )
            &&& t.pending_unpaid_loss@ == s.pending_unpaid_loss@ + short
            &&& t.pending_profit_to_fund == s.pending_profit_to_fund
            &&& s.lifetime_liquidations < u64::MAX ==> t.lifetime_liquidations
                == s.lifetime_liquidations + 1
        }),
{
    law_uncovered_account_is_liquidated(s, idx, now, oracle);
    law_liquidation_pays_loss_then_fee(s, idx, now, oracle);
    lemma_liquidation_keeps_pending(s, idx, now, oracle);
    let (s1, r) = s.liquidate_deferred(idx, now, oracle);
    let d = r->Ok_0.1;
    assert(s.sweep_liquidate(idx, now, oracle, epoch) == (
        s1.with_liquidation_booked(idx, d, epoch),
        1int,
        0int,
    ));
}

/// An account that covers its margin is left with its position in a sweep, and not counted.
pub proof fn law_sweep_leaves_covered(
    s: EngineState,
    idx: int,
    now: u64,
    oracle: u64,
    epoch: u16,
)
    requires
        s.wf(),
        s.is_used(idx),
        0 < oracle,
        s.params.maintenance_margin_bps <= 1_000_000_000,
        ({
            let (s1, r) = s.at_slot(now).touch_account_for_liquidation(idx, now, oracle);
            &&& r is Ok
            &&& in_bounds(s1.accounts[idx], oracle as int)
            &&& covers(
                s1.accounts[idx],
                oracle as int,
                s.params.maintenance_margin_bps as int,
            )
        }),
    ensures
        ({
            let (t, liquidated, failed) = s.sweep_liquidate(idx, now, oracle, epoch);
            &&& liquidated == 0
            &&& failed == 0
            &&& t.accounts[idx].position_size == s.accounts[idx].position_size
        }),
{
    law_covered_account_is_left(s, idx, now, oracle);
}

/// A liquidation that fails in a sweep is counted as an error, and only risk is reduced from
/// then on.
pub proof fn law_failed_liquidation_reduces_risk(
    s: EngineState,
    idx: int,
    now: u64,
    oracle: u64,
    epoch: u16,
)
    requires
        s.accounts[idx].position_size@ != 0,
        s.liquidate_deferred(idx, now, oracle).1 is Err,
    ensures
        ({
            let (t, liquidated, failed) = s.sweep_liquidate(idx, now, oracle, epoch);
            &&& liquidated == 0
            &&& failed == 1
            &&& t.risk_reduction_only
            &&& t.warmup_paused
        }),
{
}

/// After a liquidation a visited account keeps its position only if it is worth something and
/// the position is no dust; otherwise it is closed at the oracle price, and what capital cannot
/// pay becomes pending.
pub proof fn law_hopeless_position_is_closed(s: EngineState, idx: int, oracle: u64)
    requires
        s.wf(),
        s.is_used(idx),
        in_bounds(s.accounts[idx], oracle as int),
        totals_in_range(s),
        s.pending_unpaid_loss@ <= i128::MAX,
    ensures
        ({
            let t = s.sweep_hopeless(idx, oracle);
            let a = s.accounts[idx];
            let b = t.accounts[idx];
            let hopeless = a.capital@ + a.pnl@ + gain(a, oracle as int) <= 0 || magnitude(
                a.position_size@ as int,
            ) < s.params.min_liquidation_abs@;
            let unpaid = t.pending_unpaid_loss@ - s.pending_unpaid_loss@;
            &&& a.position_size@ == 0 || !hopeless ==> t == s
            &&& a.position_size@ != 0 && hopeless ==> {
                &&& b.position_size@ == 0
                &&& b.entry_price == oracle
                &&& unpaid >= 0
                &&& unpaid > 0 ==> b.capital@ == 0 && b.pnl@ == 0
                &&& t.pending_profit_to_fund == s.pending_profit_to_fund
                &&& s.lifetime_force_realize_closes < u64::MAX ==> t.lifetime_force_realize_closes
                    == s.lifetime_force_realize_closes + 1
            }
        }),
{
    let a = s.accounts[idx];
    law_margin_is_a_part_of_value(a, oracle as int, 0);
    law_forced_close_realizes_position(s, idx, oracle);
}

/// Where the insurance is at its floor, a visited position is settled and closed. What capital
/// cannot pay becomes pending; a profit is not asked of anybody twice, for settlement has
/// realized it.
pub proof fn law_forced_realization_closes_position(
    s: EngineState,
    idx: int,
    now: u64,
    oracle: u64,
)
    requires
        s.wf(),
        s.is_used(idx),
        ({
            let s1 = s.touch_account_for_force_realize(idx, now, oracle).0;
            &&& in_bounds(s1.accounts[idx], oracle as int)
            &&& totals_in_range(s1)
            &&& s1.wf()
            &&& s1.is_used(idx)
            &&& s1.pending_unpaid_loss@ <= i128::MAX
        }),
    ensures
        ({
            let (s1, r) = s.touch_account_for_force_realize(idx, now, oracle);
            let (t, closed, failed) = s.sweep_force_realize(idx, now, oracle);
            let a = s1.accounts[idx];
            let short = if a.capital@ + a.pnl@ < 0 {
                -(a.capital@ + a.pnl@)
            } else {
                0
            };
            &&& s.accounts[idx].position_size@ == 0 ==> t == s && closed == 0 && failed == 0
            &&& s.accounts[idx].position_size@ != 0 && r is Err ==> closed == 0 && failed == 1
                && t.risk_reduction_only && t.warmup_paused
            &&& s.accounts[idx].position_size@ != 0 && r is Ok && a.position_size@ != 0
                && a.entry_price == oracle ==> {
                &&& closed == 1
                &&& failed == 0
                &&& t.accounts[idx].position_size@ == 0
                &&& t.pending_unpaid_loss@ == s1.pending_unpaid_loss@ + short
                &&& t.pending_profit_to_fund == s1.pending_profit_to_fund
            }
        }),
{
    let s1 = s.touch_account_for_force_realize(idx, now, oracle).0;
    law_forced_close_realizes_position(s1, idx, oracle);
    let n = magnitude(s1.accounts[idx].position_size@ as int);
    assert(0 * n == 0) by (nonlinear_arith);
}

/// The caller of a crank pays its fees for half of the slots since the last charge, rounded up;
/// the others are forgiven.
pub proof fn law_caller_pays_for_half(s: EngineState, caller: int, now: u64)
    requires
        s.wf(),
        s.is_used(caller),
        fees_in_range(s, caller, now),
        fund_has_room(s),
    ensures
        ({
            let a = s.accounts[caller];
            let t = s.caller_charged(caller, now);
            let b = t.accounts[caller];
            let gone = if now > a.last_fee_slot {
                now - a.last_fee_slot
            } else {
                0
            };
            let charged = gone - gone / 2;
            let paid = a.capital@ - b.capital@;
            let owed = s.params.maintenance_fee_per_slot@ * charged - a.fee_credits@;
            &&& b.fee_credits@ == a.fee_credits@ - s.params.maintenance_fee_per_slot@ * charged
                + paid
            &&& gone > 0 ==> b.last_fee_slot == now
            &&& gone == 0 ==> b == a
            &&& gone > 0 && owed <= 0 ==> paid == 0
            &&& gone > 0 && 0 < owed <= a.capital@ ==> paid == owed
            &&& gone > 0 && owed > a.capital@ ==> b.capital@ == 0
            &&& t.insurance_fund.balance@ == s.insurance_fund.balance@ + paid
            &&& t.insurance_fund.fee_revenue@ == s.insurance_fund.fee_revenue@ + paid
            &&& t.vault == s.vault
        }),
{
    let a = s.accounts[caller];
    let s1 = s.with_account(caller, a.half_forgiven(now));
    let f = s.params.maintenance_fee_per_slot@ as int;
    assert(f * 0 == 0) by (nonlinear_arith);
    if now > a.last_fee_slot {
        let gone = now - a.last_fee_slot;
        let charged = gone - gone / 2;
        assert(now - s1.accounts[caller].last_fee_slot == charged);
        assert(0 <= f * charged <= f * gone) by (nonlinear_arith)
            requires
                f >= 0,
                0 <= charged <= gone,
        ;
    }
    law_every_slot_is_charged(s1, caller, now);
}

pub proof fn lemma_visit_ends(s: EngineState, idx: int, slot: u64, epoch: u16)
    requires
        s.wf(),
        s.is_used(idx),
    ensures
        ({
            let t = s.sweep_socialize(idx, slot, epoch).sweep_lp_max(idx);
            &&& t.accounts[idx].position_size == s.accounts[idx].position_size
            &&& t.accounts[idx].kind == s.accounts[idx].kind
            &&& t.lp_max_abs_sweep@ == if s.accounts[idx].kind == AccountKind::LP && magnitude(
                s.accounts[idx].position_size@ as int,
            ) > s.lp_max_abs_sweep@ {
                magnitude(s.accounts[idx].position_size@ as int)
            } else {
                s.lp_max_abs_sweep@ as int
            }
        }),
{
    law_pending_is_taken_off_young_profit(s, idx, slot, epoch);
}

/// Fees are charged at every visit. A visited account that then does not cover its margin
/// loses part of its position at least, unless the crank has liquidated all it may; and one
/// that does cover it keeps it, unless it is hopeless.
pub proof fn law_visit_liquidates_uncovered(s: EngineState, idx: int, c: CrankContext, t: Tally)
    requires
        s.wf(),
        s.is_used(idx),
        !c.force_realize,
        s.accounts[idx].position_size@ != 0,
        0 < c.oracle_price <= 1_000_000_000_000_000,
        s.params.maintenance_margin_bps <= 1_000_000_000,
        s.params.liquidation_fee_bps <= 1_000_000_000,
        s.pending_unpaid_loss@ <= i128::MAX,
        ({
            let (s1, r) = s.with_fees_charged(idx, c.now_slot).at_slot(
                c.now_slot,
            ).touch_account_for_liquidation(idx, c.now_slot, c.oracle_price);
            &&& r is Ok
            &&& in_bounds(s1.accounts[idx], c.oracle_price as int)
            &&& s1.insurance_fund.balance@ <= i128::MAX
            &&& s1.insurance_fund.fee_revenue@ <= i128::MAX
            &&& !covers(
                s1.accounts[idx],
                c.oracle_price as int,
                s.params.maintenance_margin_bps as int,
            )
        }),
    ensures
        ({
            let (z, u) = s.visited(idx, c, t);
            let p = s.accounts[idx].position_size@ as int;
            let q = z.accounts[idx].position_size@ as int;
            &&& t.liquidations < 120 ==> nearer_zero(q, p) && u.liquidations == t.liquidations + 1
                && u.liq_errors == t.liq_errors
            &&& t.liquidations >= 120 ==> q == p && u == t
        }),
{
    let now = c.now_slot;
    let oracle = c.oracle_price;
    lemma_fees_frame(s, idx, now, oracle);
    let s1 = s.with_fees_charged(idx, now);
    assert(s1.accounts[idx].position_size == s.accounts[idx].position_size);
    if t.liquidations < 120 {
        law_sweep_liquidates_uncovered(s1, idx, now, oracle, c.epoch);
        let s2 = s1.sweep_liquidate(idx, now, oracle, c.epoch).0;
        lemma_sweep_keeps(s1, idx, now, oracle, c.epoch);
        let s3 = s2.sweep_hopeless(idx, oracle);
        lemma_hopeless_keeps(s2, idx, oracle);
        lemma_visit_ends(s3, idx, c.effective_slot, c.epoch);
    } else {
        lemma_visit_ends(s1, idx, c.effective_slot, c.epoch);
    }
}

proof fn lemma_sweep_keeps(s: EngineState, idx: int, now: u64, oracle: u64, epoch: u16)
    requires
        s.wf(),
        s.is_used(idx),
    ensures
        s.sweep_liquidate(idx, now, oracle, epoch).0.wf(),
        s.sweep_liquidate(idx, now, oracle, epoch).0.is_used(idx),
{
    lemma_liquidation_keeps_pending(s, idx, now, oracle);
    let s0 = s.at_slot(now);
    lemma_forced_touch_frame(s0, idx, now, oracle);
    let s1 = s0.touch_account_for_liquidation(idx, now, oracle).0;
    lemma_close_keeps_wf(s1, idx, oracle);
}

proof fn lemma_close_keeps_wf(s: EngineState, idx: int, oracle: u64)
    requires
        s.wf(),
        s.is_used(idx),
    ensures
        s.liquidation_closed(idx, oracle).0.wf(),
{
}

proof fn lemma_hopeless_keeps(s: EngineState, idx: int, oracle: u64)
    requires
        s.wf(),
        s.is_used(idx),
    ensures
        ({
            let t = s.sweep_hopeless(idx, oracle);
            &&& t.wf()
            &&& t.is_used(idx)
            &&& t.accounts[idx].position_size@ == 0 || t.accounts[idx].position_size
                == s.accounts[idx].position_size
        }),
{
}

/// Where the insurance is at its floor, a visited position is closed whole once it is settled,
/// unless the crank has closed all it may by force; and nothing is liquidated.
pub proof fn law_visit_at_floor_closes_position(
    s: EngineState,
    idx: int,
    c: CrankContext,
    t: Tally,
)
    requires
        s.wf(),
        s.is_used(idx),
        c.force_realize,
        s.accounts[idx].position_size@ != 0,
        s.with_fees_charged(idx, c.now_slot).in_risk_reduction().touch_account_for_force_realize(
            idx,
            c.now_slot,
            c.oracle_price,
        ).1 is Ok,
    ensures
        ({
            let (z, u) = s.visited(idx, c, t);
            let p = s.accounts[idx].position_size@ as int;
            let q = z.accounts[idx].position_size@ as int;
            &&& t.force_closes < 32 ==> q == 0 && u.force_closes == t.force_closes + 1
                && u.force_errors == t.force_errors && z.risk_reduction_only
            &&& t.force_closes >= 32 ==> q == p && u == t
            &&& u.liquidations == t.liquidations
            &&& u.liq_errors == t.liq_errors
        }),
{
    let now = c.now_slot;
    let oracle = c.oracle_price;
    lemma_fees_frame(s, idx, now, oracle);
    let s1 = s.with_fees_charged(idx, now);
    assert(s1.accounts[idx].position_size == s.accounts[idx].position_size);
    if t.force_closes < 32 {
        let r1 = s1.in_risk_reduction();
        lemma_forced_touch_frame(r1, idx, now, oracle);
        let r2 = r1.touch_account_for_force_realize(idx, now, oracle).0;
        let r3 = r2.force_close(idx, oracle).0;
        assert(r3.wf() && r3.is_used(idx) && r3.accounts[idx].position_size@ == 0);
        let s3 = r1.sweep_force_realize(idx, now, oracle).0;
        assert(s3.wf() && s3.is_used(idx) && s3.accounts[idx].position_size@ == 0);
        assert(r2.risk_reduction_only);
        lemma_visit_ends(s3, idx, c.effective_slot, c.epoch);
    } else {
        lemma_visit_ends(s1, idx, c.effective_slot, c.epoch);
    }
}

/// What a crank reports is so: whether it moved time on, how many of the caller's slots it
/// forgave, whether the insurance is at its floor now, and whether all positions should be
/// settled. It refuses a price that is none or beyond a billion, and leaves the engine alone.
pub proof fn law_crank_reports_what_is(
    s: EngineState,
    caller: int,
    now: u64,
    oracle: u64,
    rate: i64,
    allow_panic: bool,
)
    requires
        s.wf(),
    ensures
        ({
            let (t, r) = s.keeper_crank(caller, now, oracle, rate, allow_panic);
            &&& oracle == 0 || oracle > 1_000_000_000_000_000 ==> t == s && r == Err::<
                CrankOutcome,
                RiskError,
            >(RiskError::Overflow)
            &&& r matches Ok(o) ==> {
                &&& o.advanced == (now > s.last_crank_slot)
                &&& o.slots_forgiven == if s.is_used(caller) && now
                    > s.accounts[caller].last_fee_slot {
                    (now - s.accounts[caller].last_fee_slot) / 2
                } else {
                    0
                }
                &&& o.force_realize_needed == (t.insurance_fund.balance@
                    <= t.params.risk_reduction_threshold@)
                &&& o.panic_needed == (allow_panic && t.insurance_fund.balance@
                    > t.params.risk_reduction_threshold@ && t.total_open_interest@ > 0 && (
                t.loss_accum@ > 0 || t.risk_reduction_only))
                &&& o.last_cursor == t.crank_cursor
                &&& 0 <= o.num_liquidations <= 120
                &&& 0 <= o.force_realize_closed <= 32
                &&& 0 <= o.num_gc_closed <= 32
            }
        }),
{
    let none = Tally { liquidations: 0, liq_errors: 0, force_closes: 0, force_errors: 0 };
    let s1 = s.at_slot(now).sweep_begun(now).accrue_funding(now, oracle, rate).0;
    let s2 = s1.crank_advanced(now).caller_charged(caller, now);
    let c = s2.crank_context(now, oracle);
    law_sweep_keeps_budget(s2, s2.crank_cursor as int, 0, 0, c, none);
    lemma_tally_nonneg(s2, s2.crank_cursor as int, 0, 0, c, none);
    let (s3, stop, u, complete) = s2.swept(s2.crank_cursor as int, 0, 0, c, none);
    let s4 = EngineState { crank_cursor: stop as u16, ..s3 };
    let s5 = if complete {
        s4.sweep_ended(now)
    } else {
        s4
    };
    let s6 = if c.force_realize {
        s5.with_reserve()
    } else {
        s5
    };
    law_dust_collection_keeps_budget(s6);
    assert(s2.crank_run(now, oracle).2 == s6.garbage_collect_dust().1);
}

proof fn lemma_tally_nonneg(
    s: EngineState,
    i: int,
    scanned: int,
    processed: int,
    c: CrankContext,
    t: Tally,
)
    requires
        t.liquidations >= 0,
        t.force_closes >= 0,
    ensures
        s.swept(i, scanned, processed, c, t).2.liquidations >= 0,
        s.swept(i, scanned, processed, c, t).2.force_closes >= 0,
    decreases MAX_ACCOUNTS - scanned,
{
    if processed < 256 && scanned < MAX_ACCOUNTS {
        let (s1, u) = if s.is_used(i) {
            s.visited(i, c, t)
        } else {
            (s, t)
        };
        lemma_visit_tally(s, i, c, t);
        let n = if s.is_used(i) {
            processed + 1
        } else {
            processed
        };
        lemma_tally_nonneg(s1, (i + 1) % 4096, scanned + 1, n, c, u);
    }
}

pub proof fn lemma_visit_tally(s: EngineState, i: int, c: CrankContext, t: Tally)
    ensures
        s.visited(i, c, t).1.liquidations >= t.liquidations,
        s.visited(i, c, t).1.force_closes >= t.force_closes,
{
}

/// A sweep begins where the last one ended: the slot is noted, the count of sweeps moves on by
/// one, round the end, and the search for the largest position starts afresh. Anywhere else a
/// crank goes on with the sweep under way.
pub proof fn law_sweep_begins_where_the_last_ended(s: EngineState, now: u64)
    ensures
        ({
            let t = s.sweep_begun(now);
            &&& s.crank_cursor != s.sweep_start_idx ==> t == s
            &&& s.crank_cursor == s.sweep_start_idx ==> {
                &&& t.last_full_sweep_start_slot == now
                &&& t.pending_epoch == (s.pending_epoch + 1) % 0x1_0000
                &&& t.lp_max_abs_sweep@ == 0
                &&& t == (EngineState {
                    last_full_sweep_start_slot: t.last_full_sweep_start_slot,
                    pending_epoch: t.pending_epoch,
                    lp_max_abs_sweep: t.lp_max_abs_sweep,
                    ..s
                })
            }
        }),
{
}

/// When a sweep is complete the slot is noted, the largest position found in it becomes the
/// bound on the positions of liquidity providers, the next one will begin at the cursor, and
/// what was pending is settled: insurance above floor and reserve pays as much as it can.
pub proof fn law_sweep_ends(s: EngineState, now: u64)
    requires
        s.wf(),
        s.loss_accum@ + s.pending_profit_to_fund@ + s.pending_unpaid_loss@ <= u128::MAX,
        ({
            let above = s.insurance_fund.balance@ - s.params.risk_reduction_threshold@;
            let unbacked = s.warmed_pos_total@ - s.warmed_neg_total@;
            let backed = if unbacked > 0 {
                unbacked
            } else {
                0
            };
            s.warmup_insurance_reserved@ == if above <= 0 {
                0
            } else if backed < above {
                backed
            } else {
                above
            }
        }),
    ensures
        ({
            let t = s.sweep_ended(now);
            let pending = s.pending_profit_to_fund@ + s.pending_unpaid_loss@;
            let free = s.insurance_fund.balance@ - s.params.risk_reduction_threshold@
                - s.warmup_insurance_reserved@;
            let spent = s.insurance_fund.balance@ - t.insurance_fund.balance@;
            &&& t.last_full_sweep_completed_slot == now
            &&& t.lp_max_abs == s.lp_max_abs_sweep
            &&& t.sweep_start_idx == s.crank_cursor
            &&& t.pending_profit_to_fund@ == 0
            &&& t.pending_unpaid_loss@ == 0
            &&& free <= 0 ==> spent == 0
            &&& 0 < free <= pending ==> spent == free
            &&& free > pending ==> spent == pending
            &&& t.loss_accum@ == s.loss_accum@ + pending - spent
            &&& t.accounts == s.accounts
            &&& t.vault == s.vault
        }),
{
}

/// While the insurance is at its floor a crank closes positions by force, and otherwise it
/// liquidates; profit that has warmed up by the present, or by the slot where warmups froze,
/// is not touched.
pub proof fn law_crank_goes_by_floor_and_clock(s: EngineState, now: u64, oracle: u64)
    ensures
        ({
            let c = s.crank_context(now, oracle);
            &&& c.force_realize == (s.insurance_fund.balance@ <= s.params.risk_reduction_threshold@)
            &&& c.now_slot == now
            &&& c.oracle_price == oracle
            &&& c.epoch == s.pending_epoch
            &&& !s.warmup_paused ==> c.effective_slot == s.current_slot
            &&& s.warmup_paused && s.warmup_pause_slot <= s.current_slot ==> c.effective_slot
                == s.warmup_pause_slot
        }),
{
}

/// The caller's fees count as settled unless slots have passed since the last charge and the
/// caller has a position whose maintenance margin it does not cover with them; they are charged
/// all the same.
pub proof fn law_caller_is_told_whether_settled(
    s: EngineState,
    caller: int,
    now: u64,
    oracle: u64,
)
    requires
        s.wf(),
        s.params.maintenance_margin_bps <= 1_000_000_000,
        s.is_used(caller) ==> in_bounds(
            s.caller_charged(caller, now).accounts[caller],
            oracle as int,
        ),
    ensures
        s.caller_settled(caller, now, oracle) <==> !s.is_used(caller) || now
            <= s.accounts[caller].last_fee_slot || s.accounts[caller].position_size@ == 0
            || covers(
            s.caller_charged(caller, now).accounts[caller],
            oracle as int,
            s.params.maintenance_margin_bps as int,
        ),
{
    if s.is_used(caller) {
        let b = s.caller_charged(caller, now).accounts[caller];
        law_margin_is_a_part_of_value(
            b,
            oracle as int,
            s.params.maintenance_margin_bps as int,
        );
        assert(b.position_size == s.accounts[caller].position_size);
    }
}

} // verus!
