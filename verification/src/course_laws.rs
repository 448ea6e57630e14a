//! The course of a crank: which slots it passes, and what that makes of the accounts in them.
use vstd::prelude::*;

use crate::crank::{CrankContext, Tally};
use crate::dust_laws::slots_after;
use crate::funding_laws::law_accrual_covers_every_slot;
use crate::keeper_laws::{
    law_pending_is_taken_off_young_profit, lemma_liquidation_keeps_pending, lemma_visit_ends,
    lemma_visit_tally,
};
use crate::liquidation_laws::{
    covers, in_bounds, law_uncovered_account_is_liquidated, nearer_zero,
};
use crate::math::sat_u;
use crate::rounding::rounded_to_zero;
use crate::state::EngineState;
use crate::types::MAX_ACCOUNTS;

verus! {

broadcast use crate::wide::group_wide;

/// From `s` to `t` no account but that in slot `idx` has changed, and what a crank goes by is
/// the same.
pub open spec fn on_course(s: EngineState, t: EngineState, idx: int) -> bool {
    &&& t.wf()
    &&& t.used == s.used
    &&& t.params == s.params
    &&& t.funding_index_qpb_e6 == s.funding_index_qpb_e6
    &&& t.last_funding_slot == s.last_funding_slot
    &&& t.last_crank_slot == s.last_crank_slot
    &&& t.sweep_start_idx == s.sweep_start_idx
    &&& forall|j: int| 0 <= j < MAX_ACCOUNTS && j != idx ==> #[trigger] t.accounts[j] == s.accounts[j]
}

pub proof fn lemma_touch_on_course(s: EngineState, idx: int, now: u64, oracle: u64)
    requires
        s.wf(),
        s.is_used(idx),
    ensures
        on_course(s, s.touch_account_for_liquidation(idx, now, oracle).0, idx),
        on_course(s, s.touch_account_for_force_realize(idx, now, oracle).0, idx),
        on_course(s, s.with_fees_charged(idx, now), idx),
        s.with_fees_charged(idx, now).accounts[idx].position_size
            == s.accounts[idx].position_size,
{
}

pub proof fn lemma_close_on_course(s: EngineState, idx: int, oracle: u64)
    requires
        s.wf(),
        s.is_used(idx),
    ensures
        on_course(s, s.liquidation_closed(idx, oracle).0, idx),
{
}

pub proof fn lemma_force_on_course(s: EngineState, idx: int, oracle: u64)
    requires
        s.wf(),
        s.is_used(idx),
    ensures
        on_course(s, s.force_close(idx, oracle).0, idx),
        on_course(s, s.sweep_hopeless(idx, oracle), idx),
        ({
            let p = s.sweep_hopeless(idx, oracle).accounts[idx].position_size;
            p@ == 0 || p == s.accounts[idx].position_size
        }),
{
}

pub proof fn lemma_sweep_on_course(s: EngineState, idx: int, now: u64, oracle: u64, epoch: u16)
    requires
        s.wf(),
        s.is_used(idx),
    ensures
        on_course(s, s.sweep_liquidate(idx, now, oracle, epoch).0, idx),
{
    let s0 = s.at_slot(now);
    lemma_touch_on_course(s0, idx, now, oracle);
    let s1 = s0.touch_account_for_liquidation(idx, now, oracle).0;
    lemma_close_on_course(s1, idx, oracle);
}

pub proof fn lemma_realize_on_course(s: EngineState, idx: int, now: u64, oracle: u64)
    requires
        s.wf(),
        s.is_used(idx),
    ensures
        on_course(s, s.sweep_force_realize(idx, now, oracle).0, idx),
{
    lemma_touch_on_course(s, idx, now, oracle);
    let s1 = s.touch_account_for_force_realize(idx, now, oracle).0;
    lemma_force_on_course(s1, idx, oracle);
}

proof fn lemma_end_on_course(s: EngineState, idx: int, slot: u64, epoch: u16)
    requires
        s.wf(),
        s.is_used(idx),
    ensures
        on_course(s, s.sweep_socialize(idx, slot, epoch).sweep_lp_max(idx), idx),
{
    law_pending_is_taken_off_young_profit(s, idx, slot, epoch);
}

/// What a visit does before it takes pending amounts off the account.
#[verifier::opaque]
spec fn acted(s: EngineState, idx: int, c: CrankContext, t: Tally) -> EngineState {
    if !c.force_realize && t.liquidations < 120 {
        s.sweep_liquidate(idx, c.now_slot, c.oracle_price, c.epoch).0.sweep_hopeless(
            idx,
            c.oracle_price,
        )
    } else if c.force_realize && t.force_closes < 32 {
        s.in_risk_reduction().sweep_force_realize(idx, c.now_slot, c.oracle_price).0
    } else {
        s
    }
}

proof fn lemma_act_on_course(s: EngineState, idx: int, c: CrankContext, t: Tally)
    requires
        s.wf(),
        s.is_used(idx),
    ensures
        on_course(s, acted(s, idx, c, t), idx),
{
    reveal(acted);
    let now = c.now_slot;
    let oracle = c.oracle_price;
    if !c.force_realize && t.liquidations < 120 {
        lemma_sweep_on_course(s, idx, now, oracle, c.epoch);
        lemma_force_on_course(s.sweep_liquidate(idx, now, oracle, c.epoch).0, idx, oracle);
    } else if c.force_realize && t.force_closes < 32 {
        lemma_realize_on_course(s.in_risk_reduction(), idx, now, oracle);
    }
}

proof fn lemma_visit_acts(s: EngineState, idx: int, c: CrankContext, t: Tally)
    ensures
        s.visited(idx, c, t).0 == acted(
            s.with_fees_charged(idx, c.now_slot),
            idx,
            c,
            t,
        ).sweep_socialize(idx, c.effective_slot, c.epoch).sweep_lp_max(idx),
{
    reveal(acted);
}

proof fn lemma_visit_on_course(s: EngineState, idx: int, c: CrankContext, t: Tally)
    requires
        s.wf(),
        s.is_used(idx),
    ensures
        on_course(s, s.visited(idx, c, t).0, idx),
{
    lemma_touch_on_course(s, idx, c.now_slot, c.oracle_price);
    let s1 = s.with_fees_charged(idx, c.now_slot);
    lemma_act_on_course(s1, idx, c, t);
    lemma_end_on_course(acted(s1, idx, c, t), idx, c.effective_slot, c.epoch);
    lemma_visit_acts(s, idx, c, t);
}

/// With its fees charged and settled at the oracle price, account `k` does not cover its
/// maintenance margin.
pub open spec fn uncovered(s: EngineState, k: int, now: u64, oracle: u64) -> bool {
    let (s1, r) = s.with_fees_charged(k, now).at_slot(now).touch_account_for_liquidation(
        k,
        now,
        oracle,
    );
    &&& r is Ok
    &&& in_bounds(s1.accounts[k], oracle as int)
    &&& !covers(s1.accounts[k], oracle as int, s.params.maintenance_margin_bps as int)
}

proof fn lemma_uncovered_is_local(s: EngineState, t: EngineState, k: int, now: u64, oracle: u64)
    requires
        s.wf(),
        t.wf(),
        s.is_used(k),
        t.is_used(k),
        s.accounts[k] == t.accounts[k],
        s.params == t.params,
        s.funding_index_qpb_e6 == t.funding_index_qpb_e6,
    ensures
        uncovered(s, k, now, oracle) == uncovered(t, k, now, oracle),
{
    let s1 = s.with_fees_charged(k, now).at_slot(now);
    let t1 = t.with_fees_charged(k, now).at_slot(now);
    assert(s1.accounts[k] == t1.accounts[k]);
}

proof fn lemma_visit_shrinks(s: EngineState, k: int, c: CrankContext, t: Tally)
    requires
        s.wf(),
        s.is_used(k),
        !c.force_realize,
        t.liquidations < 120,
        s.accounts[k].position_size@ != 0,
        0 < c.oracle_price,
        s.params.maintenance_margin_bps <= 1_000_000_000,
        uncovered(s, k, c.now_slot, c.oracle_price),
    ensures
        nearer_zero(
            s.visited(k, c, t).0.accounts[k].position_size@ as int,
            s.accounts[k].position_size@ as int,
        ),
{
    let now = c.now_slot;
    let oracle = c.oracle_price;
    lemma_touch_on_course(s, k, now, oracle);
    let s1 = s.with_fees_charged(k, now);
    law_uncovered_account_is_liquidated(s1, k, now, oracle);
    lemma_sweep_on_course(s1, k, now, oracle, c.epoch);
    let s2 = s1.sweep_liquidate(k, now, oracle, c.epoch).0;
    let d = s1.liquidate_deferred(k, now, oracle);
    assert(s2.accounts[k] == d.0.accounts[k]);
    lemma_force_on_course(s2, k, oracle);
    let s3 = s2.sweep_hopeless(k, oracle);
    lemma_visit_ends(s3, k, c.effective_slot, c.epoch);
}

/// One slot passed: visited if it is taken.
#[verifier::opaque]
spec fn passed(s: EngineState, i: int, c: CrankContext, t: Tally) -> (EngineState, Tally) {
    if s.is_used(i) {
        s.visited(i, c, t)
    } else {
        (s, t)
    }
}

proof fn lemma_passed(s: EngineState, i: int, c: CrankContext, t: Tally)
    requires
        s.wf(),
        0 <= i < MAX_ACCOUNTS,
    ensures
        on_course(s, passed(s, i, c, t).0, i),
        passed(s, i, c, t).1.liquidations >= t.liquidations,
{
    reveal(passed);
    if s.is_used(i) {
        lemma_visit_on_course(s, i, c, t);
        lemma_visit_tally(s, i, c, t);
    }
}

/// The visits of a crank from slot `i` on.
#[verifier::opaque]
spec fn run(
    s: EngineState,
    i: int,
    scanned: int,
    processed: int,
    c: CrankContext,
    t: Tally,
) -> (EngineState, int, Tally, bool) {
    s.swept(i, scanned, processed, c, t)
}

proof fn lemma_swept_step(
    s: EngineState,
    i: int,
    scanned: int,
    processed: int,
    c: CrankContext,
    t: Tally,
)
    requires
        processed < 256,
        0 <= scanned < 4096,
        0 <= i < MAX_ACCOUNTS,
    ensures
        ({
            let (s1, u) = passed(s, i, c, t);
            let next = if i == 4095 {
                0
            } else {
                i + 1
            };
            let n = if s.used[i] {
                processed + 1
            } else {
                processed
            };
            run(s, i, scanned, processed, c, t) == if next == s1.sweep_start_idx {
                (s1, next, u, true)
            } else {
                run(s1, next, scanned + 1, n, c, u)
            }
        }),
{
    reveal(passed);
    reveal(run);
}

proof fn lemma_swept_stops(
    s: EngineState,
    i: int,
    scanned: int,
    processed: int,
    c: CrankContext,
    t: Tally,
)
    requires
        processed >= 256 || scanned >= 4096,
    ensures
        run(s, i, scanned, processed, c, t) == (s, i, t, false),
{
    reveal(run);
}

proof fn lemma_swept_on_course(
    s: EngineState,
    i: int,
    scanned: int,
    processed: int,
    c: CrankContext,
    t: Tally,
    k: int,
)
    requires
        s.wf(),
        0 <= i < MAX_ACCOUNTS,
        0 <= k < MAX_ACCOUNTS,
        0 <= scanned <= 4096,
    ensures
        ({
            let (z, stop, u, complete) = run(s, i, scanned, processed, c, t);
            &&& z.wf()
            &&& z.used == s.used
            &&& z.params == s.params
            &&& z.funding_index_qpb_e6 == s.funding_index_qpb_e6
            &&& z.last_funding_slot == s.last_funding_slot
            &&& z.last_crank_slot == s.last_crank_slot
            &&& z.sweep_start_idx == s.sweep_start_idx
            &&& u.liquidations >= t.liquidations
            &&& slots_after(i, k) + scanned >= 4096 ==> z.accounts[k] == s.accounts[k]
            &&& 0 <= stop < 4096
        }),
    decreases 4096 - scanned,
{
    if processed < 256 && scanned < 4096 {
        lemma_swept_step(s, i, scanned, processed, c, t);
        lemma_passed(s, i, c, t);
        let (s1, u) = passed(s, i, c, t);
        let next = if i == 4095 {
            0
        } else {
            i + 1
        };
        let n = if s.used[i] {
            processed + 1
        } else {
            processed
        };
        if next != s1.sweep_start_idx {
            lemma_swept_on_course(s1, next, scanned + 1, n, c, u, k);
        }
    } else {
        lemma_swept_stops(s, i, scanned, processed, c, t);
    }
}

/// How many of the `n` slots from `i` on, going round, are taken.
pub open spec fn taken_from(used: Seq<bool>, i: int, n: int) -> int
    decreases n,
{
    if n <= 0 {
        0
    } else {
        (if used[i] {
            1int
        } else {
            0
        }) + taken_from(
            used,
            if i == 4095 {
                0
            } else {
                i + 1
            },
            n - 1,
        )
    }
}

proof fn lemma_swept_goes(
    s: EngineState,
    i: int,
    scanned: int,
    processed: int,
    c: CrankContext,
    t: Tally,
) -> (n: int)
    requires
        s.wf(),
        s.sweep_start_idx < MAX_ACCOUNTS,
        0 <= i < MAX_ACCOUNTS,
        0 <= scanned <= 4096,
        processed <= 256,
    ensures
        ({
            let (z, stop, u, complete) = run(s, i, scanned, processed, c, t);
            &&& 0 <= n <= 4096 - scanned
            &&& stop == (i + n) % 4096
            &&& complete ==> stop == s.sweep_start_idx && n > 0
            &&& !complete ==> processed + taken_from(s.used, i, n) == 256 || scanned + n == 4096
            &&& processed + taken_from(s.used, i, n) <= 256
        }),
    decreases 4096 - scanned,
{
    if processed < 256 && scanned < 4096 {
        lemma_swept_step(s, i, scanned, processed, c, t);
        lemma_passed(s, i, c, t);
        let (s1, u) = passed(s, i, c, t);
        let next = if i == 4095 {
            0
        } else {
            i + 1
        };
        let p = if s.used[i] {
            processed + 1
        } else {
            processed
        };
        reveal_with_fuel(taken_from, 2);
        if next != s1.sweep_start_idx {
            let m = lemma_swept_goes(s1, next, scanned + 1, p, c, u);
            assert(s1.used == s.used);
            m + 1
        } else {
            1
        }
    } else {
        lemma_swept_stops(s, i, scanned, processed, c, t);
        0
    }
}

proof fn lemma_swept_shrinks(
    s: EngineState,
    i: int,
    scanned: int,
    processed: int,
    c: CrankContext,
    t: Tally,
    k: int,
)
    requires
        s.wf(),
        s.is_used(k),
        !c.force_realize,
        s.accounts[k].position_size@ != 0,
        0 < c.oracle_price,
        s.params.maintenance_margin_bps <= 1_000_000_000,
        uncovered(s, k, c.now_slot, c.oracle_price),
        0 <= i < MAX_ACCOUNTS,
        0 <= scanned < 4096,
        run(s, i, scanned, processed, c, t).2.liquidations < 120,
        slots_after(i, k) + scanned < 4096,
        ({
            let (z, stop, u, complete) = run(s, i, scanned, processed, c, t);
            slots_after(i, k) < slots_after(i, stop) || (stop == i && complete)
        }),
    ensures
        nearer_zero(
            run(s, i, scanned, processed, c, t).0.accounts[k].position_size@ as int,
            s.accounts[k].position_size@ as int,
        ),
    decreases 4096 - scanned,
{
    if processed < 256 && scanned < 4096 {
        lemma_swept_step(s, i, scanned, processed, c, t);
        lemma_passed(s, i, c, t);
        let (s1, u) = passed(s, i, c, t);
        let next = if i == 4095 {
            0
        } else {
            i + 1
        };
        let p = if s.used[i] {
            processed + 1
        } else {
            processed
        };
        if next != s1.sweep_start_idx {
            lemma_swept_on_course(s1, next, scanned + 1, p, c, u, k);
        }
        if k == i {
            reveal(passed);
            lemma_visit_tally(s, k, c, t);
            lemma_visit_shrinks(s, k, c, t);
        } else {
            lemma_uncovered_is_local(s, s1, k, c.now_slot, c.oracle_price);
            lemma_swept_shrinks(s1, next, scanned + 1, p, c, u, k);
        }
    } else {
        lemma_swept_stops(s, i, scanned, processed, c, t);
    }
}

/// The visits of a crank go on from its cursor, slot by slot and round the end, until the
/// sweep is complete or 256 accounts were visited.
pub proof fn law_crank_passes_slots_in_turn(s: EngineState, c: CrankContext, t: Tally)
    requires
        s.wf(),
        s.sweep_start_idx < MAX_ACCOUNTS,
        s.crank_cursor < MAX_ACCOUNTS,
    ensures
        ({
            let (z, stop, u, complete) = s.swept(s.crank_cursor as int, 0, 0, c, t);
            exists|n: int|
                0 <= n <= 4096 && stop == (s.crank_cursor + n) % 4096 && (complete ==> stop
                    == s.sweep_start_idx) && (!complete ==> n == 4096 || #[trigger] taken_from(
                    s.used,
                    s.crank_cursor as int,
                    n,
                ) == 256) && taken_from(s.used, s.crank_cursor as int, n) <= 256
        }),
{
    reveal(run);
    let n = lemma_swept_goes(s, s.crank_cursor as int, 0, 0, c, t);
    assert(taken_from(s.used, s.crank_cursor as int, n) <= 256);
}

/// Whoever does not cover the maintenance margin, long or short, and in whatever slot, has a
/// smaller position once the visits of a crank have passed that slot, unless the crank
/// liquidated all it may.
pub proof fn law_passed_account_is_liquidated(s: EngineState, c: CrankContext, t: Tally, k: int)
    requires
        s.wf(),
        s.is_used(k),
        s.crank_cursor < MAX_ACCOUNTS,
        !c.force_realize,
        s.accounts[k].position_size@ != 0,
        0 < c.oracle_price,
        s.params.maintenance_margin_bps <= 1_000_000_000,
        uncovered(s, k, c.now_slot, c.oracle_price),
        ({
            let (z, stop, u, complete) = s.swept(s.crank_cursor as int, 0, 0, c, t);
            &&& u.liquidations < 120
            &&& slots_after(s.crank_cursor as int, k) < slots_after(s.crank_cursor as int, stop) || (
            stop == s.crank_cursor && complete)
        }),
    ensures
        nearer_zero(
            s.swept(s.crank_cursor as int, 0, 0, c, t).0.accounts[k].position_size@ as int,
            s.accounts[k].position_size@ as int,
        ),
{
    reveal(run);
    lemma_swept_shrinks(s, s.crank_cursor as int, 0, 0, c, t, k);
}

proof fn lemma_dust_on_course(s: EngineState, i: int, left: int, found: Seq<u16>, loss: int)
    ensures
        ({
            let t = s.dust_scan(i, left, found, loss).0;
            &&& t.funding_index_qpb_e6 == s.funding_index_qpb_e6
            &&& t.last_funding_slot == s.last_funding_slot
            &&& t.last_crank_slot == s.last_crank_slot
            &&& t.params == s.params
        }),
    decreases left,
{
    if left > 0 && found.len() < 32 {
        let more = if s.collectable(i) {
            found.push(i as u16)
        } else {
            found
        };
        lemma_dust_on_course(
            s.dust_examined(i),
            (i + 1) % 4096,
            left - 1,
            more,
            sat_u(loss + s.dust_loss(i)),
        );
    }
}

proof fn lemma_free_on_course(s: EngineState, list: Seq<u16>, k: int)
    ensures
        ({
            let t = s.free_all(list, k);
            &&& t.funding_index_qpb_e6 == s.funding_index_qpb_e6
            &&& t.last_funding_slot == s.last_funding_slot
            &&& t.last_crank_slot == s.last_crank_slot
            &&& t.params == s.params
        }),
    decreases list.len() - k,
{
    if k < list.len() {
        lemma_free_on_course(s.free_slot(list[k] as int), list, k + 1);
    }
}

proof fn lemma_collection_on_course(s: EngineState)
    ensures
        ({
            let t = s.garbage_collect_dust().0;
            &&& t.funding_index_qpb_e6 == s.funding_index_qpb_e6
            &&& t.last_funding_slot == s.last_funding_slot
            &&& t.last_crank_slot == s.last_crank_slot
            &&& t.params == s.params
        }),
{
    let start = s.gc_cursor as int;
    let none = Seq::<u16>::empty();
    lemma_dust_on_course(s, start % 4096, 256, none, 0);
    let (t, list, loss) = s.dust_scan(start % 4096, 256, none, 0);
    let u = EngineState {
        gc_cursor: ((start + 256) % 4096) as u16,
        ..t.with_dust_loss_shared(loss)
    };
    lemma_free_on_course(u, list, 0);
}

/// A crank moves funding on by the rate for every slot since the last accrual, and notes the
/// latest slot that it was run at.
pub proof fn law_crank_accrues_funding(
    s: EngineState,
    caller: int,
    now: u64,
    oracle: u64,
    rate: i64,
    allow_panic: bool,
)
    requires
        s.wf(),
        s.crank_cursor < MAX_ACCOUNTS,
        s.keeper_crank(caller, now, oracle, rate, allow_panic).1 is Ok,
    ensures
        ({
            let t = s.keeper_crank(caller, now, oracle, rate, allow_panic).0;
            let moved = t.funding_index_qpb_e6@ - s.funding_index_qpb_e6@;
            &&& now > s.last_funding_slot ==> rounded_to_zero(
                moved,
                oracle * rate * (now - s.last_funding_slot),
                10_000,
            ) && t.last_funding_slot == now
            &&& now <= s.last_funding_slot ==> moved == 0 && t.last_funding_slot
                == s.last_funding_slot
            &&& t.last_crank_slot == if now > s.last_crank_slot {
                now
            } else {
                s.last_crank_slot
            }
            &&& t.params == s.params
        }),
{
    let none = Tally { liquidations: 0, liq_errors: 0, force_closes: 0, force_errors: 0 };
    let s0 = s.at_slot(now).sweep_begun(now);
    law_accrual_covers_every_slot(s0, now, oracle, rate);
    let s1 = s0.accrue_funding(now, oracle, rate).0.crank_advanced(now);
    assert(s1.wf());
    if s1.is_used(caller) {
        let h = s1.with_account(caller, s1.accounts[caller].half_forgiven(now));
        lemma_touch_on_course(h, caller, now, oracle);
    }
    let s2 = s1.caller_charged(caller, now);
    let c = s2.crank_context(now, oracle);
    let i = s2.crank_cursor as int;
    reveal(run);
    lemma_swept_on_course(s2, i, 0, 0, c, none, 0);
    let (s3, stop, u, complete) = s2.swept(i, 0, 0, c, none);
    let s4 = EngineState { crank_cursor: stop as u16, ..s3 };
    let s5 = if complete {
        s4.sweep_ended(now)
    } else {
        s4
    };
    let s6 = if c.force_realize {
        s5.with_reserve()
    } else {
        s5
    };
    lemma_collection_on_course(s6);
    assert(s.keeper_crank(caller, now, oracle, rate, allow_panic).0
        == s6.garbage_collect_dust().0);
}

proof fn lemma_touch_counts_none(s: EngineState, idx: int, now: u64, oracle: u64)
    requires
        s.wf(),
        s.is_used(idx),
    ensures
        s.with_fees_charged(idx, now).lifetime_liquidations == s.lifetime_liquidations,
        s.touch_account_for_force_realize(idx, now, oracle).0.lifetime_liquidations
            == s.lifetime_liquidations,
        s.sweep_hopeless(idx, oracle).lifetime_liquidations == s.lifetime_liquidations,
        s.force_close(idx, oracle).0.lifetime_liquidations == s.lifetime_liquidations,
{
}

proof fn lemma_visit_counts(s: EngineState, idx: int, c: CrankContext, t: Tally)
    requires
        s.wf(),
        s.is_used(idx),
        s.lifetime_liquidations < u64::MAX,
    ensures
        ({
            let (z, u) = s.visited(idx, c, t);
            &&& z.lifetime_liquidations - s.lifetime_liquidations == u.liquidations
                - t.liquidations
            &&& 0 <= u.liquidations - t.liquidations <= 1
        }),
{
    let now = c.now_slot;
    let oracle = c.oracle_price;
    lemma_touch_on_course(s, idx, now, oracle);
    lemma_touch_counts_none(s, idx, now, oracle);
    let s1 = s.with_fees_charged(idx, now);
    if !c.force_realize && t.liquidations < 120 {
        lemma_liquidation_keeps_pending(s1, idx, now, oracle);
        lemma_sweep_on_course(s1, idx, now, oracle, c.epoch);
        let s2 = s1.sweep_liquidate(idx, now, oracle, c.epoch).0;
        lemma_touch_counts_none(s2, idx, now, oracle);
    } else if c.force_realize && t.force_closes < 32 {
        let r1 = s1.in_risk_reduction();
        lemma_touch_on_course(r1, idx, now, oracle);
        lemma_touch_counts_none(r1, idx, now, oracle);
        let r2 = r1.touch_account_for_force_realize(idx, now, oracle).0;
        lemma_touch_counts_none(r2, idx, now, oracle);
    }
}

proof fn lemma_run_counts(
    s: EngineState,
    i: int,
    scanned: int,
    processed: int,
    c: CrankContext,
    t: Tally,
)
    requires
        s.wf(),
        0 <= i < MAX_ACCOUNTS,
        0 <= scanned <= 4096,
        s.lifetime_liquidations + (4096 - scanned) <= u64::MAX,
    ensures
        ({
            let (z, stop, u, complete) = run(s, i, scanned, processed, c, t);
            z.lifetime_liquidations - s.lifetime_liquidations == u.liquidations - t.liquidations
        }),
    decreases 4096 - scanned,
{
    if processed < 256 && scanned < 4096 {
        lemma_swept_step(s, i, scanned, processed, c, t);
        lemma_passed(s, i, c, t);
        let (s1, u) = passed(s, i, c, t);
        let next = if i == 4095 {
            0
        } else {
            i + 1
        };
        let n = if s.used[i] {
            processed + 1
        } else {
            processed
        };
        assert(s1.lifetime_liquidations - s.lifetime_liquidations == u.liquidations
            - t.liquidations && 0 <= u.liquidations - t.liquidations <= 1) by {
            reveal(passed);
            if s.is_used(i) {
                lemma_visit_counts(s, i, c, t);
            }
        }
        if next != s1.sweep_start_idx {
            lemma_run_counts(s1, next, scanned + 1, n, c, u);
        }
    } else {
        lemma_swept_stops(s, i, scanned, processed, c, t);
    }
}

/// The visits of a crank count every liquidation that they make, once.
pub proof fn law_liquidations_are_counted(s: EngineState, c: CrankContext, t: Tally)
    requires
        s.wf(),
        s.crank_cursor < MAX_ACCOUNTS,
        s.lifetime_liquidations + 4096 <= u64::MAX,
    ensures
        ({
            let (z, stop, u, complete) = s.swept(s.crank_cursor as int, 0, 0, c, t);
            u.liquidations - t.liquidations == z.lifetime_liquidations - s.lifetime_liquidations
        }),
{
    reveal(run);
    lemma_run_counts(s, s.crank_cursor as int, 0, 0, c, t);
}

} // verus!
