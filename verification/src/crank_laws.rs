//! Conservation of funds over a crank: what liquidations and forced closes lose becomes
//! pending, and what is pending is taken off profits, covered by insurance, or accumulated.
//!
//! As elsewhere, each law is stated where no balance is clamped; the predicates whose names
//! end in `exact` say where that is.
use vstd::prelude::*;

use crate::adl::Exempt;
use crate::adl_laws::{law_adl_spares_exempt, law_adl_takes_only_profit};
use crate::close_laws::{
    law_deferred_liquidation_conserves, law_forced_close_conserves,
};
use crate::conservation_laws::{
    law_adl_frees_exactly_the_loss, law_fees_conserve, law_funding_settlement_conserves, law_mark_settlement_conserves,
    lemma_freed_worth, lemma_same_worth, lemma_settled_account, lemma_worth_update,
};
use crate::crank::{CrankContext, Tally};
use crate::dust::{all_used, distance, found_within, lemma_found_next, lemma_freed_next};
use crate::math::{min_int, sat_u};
use crate::slots::lemma_free;
use crate::state::EngineState;
use crate::sweep::next_slot;
use crate::types::{
    AccountKind, ACCOUNTS_PER_CRANK, FORCE_REALIZE_BUDGET_PER_CRANK, GC_CLOSE_BUDGET,
    LIQ_BUDGET_PER_CRANK, MAX_ACCOUNTS,
};

verus! {

broadcast use crate::wide::group_wide;

impl EngineState {
    /// A liquidation of account `idx` in a sweep clamps nothing.
    pub open spec fn sweep_liquidate_exact(self, idx: int, now: u64, oracle: u64) -> bool {
        self.accounts[idx].position_size@ != 0 ==> {
            &&& self.deferred_liquidation_exact(idx, now, oracle)
            &&& self.liquidate_deferred(idx, now, oracle).1 matches Ok((_, d))
                ==> self.pending_unpaid_loss@ + d.unpaid_loss <= u128::MAX
        }
    }

    /// A forced close of account `idx` clamps nothing.
    pub open spec fn force_close_exact(self, idx: int, oracle: u64) -> bool {
        let a = self.accounts[idx];
        &&& a.close_exact(self.funding_index_qpb_e6@ as int, a.size(), oracle)
        &&& self.pending_unpaid_loss@ + self.force_close(idx, oracle).1.1.unpaid_loss <= u128::MAX
    }

    /// Settling account `idx` and closing it by force clamps nothing.
    pub open spec fn sweep_force_realize_exact(self, idx: int, now: u64, oracle: u64) -> bool {
        let (s3, r) = self.touch_account_for_force_realize(idx, now, oracle);
        self.accounts[idx].position_size@ != 0 ==> {
            &&& self.settled_to_fees_exact(idx, now, oracle)
            &&& r is Ok ==> s3.force_close_exact(idx, oracle)
        }
    }

    /// A visit of account `idx` clamps nothing.
    pub open spec fn visit_exact(self, idx: int, c: CrankContext, t: Tally) -> bool {
        let now = c.now_slot;
        let oracle = c.oracle_price;
        let s1 = self.with_fees_charged(idx, now);
        &&& self.fees_exact(idx, now)
        &&& if !c.force_realize && t.liquidations < LIQ_BUDGET_PER_CRANK {
            let s2 = s1.sweep_liquidate(idx, now, oracle, c.epoch).0;
            &&& s1.sweep_liquidate_exact(idx, now, oracle)
            &&& s2.hopeless(idx, oracle) ==> s2.force_close_exact(idx, oracle)
        } else if c.force_realize && t.force_closes < FORCE_REALIZE_BUDGET_PER_CRANK {
            s1.in_risk_reduction().sweep_force_realize_exact(idx, now, oracle)
        } else {
            true
        }
    }

    /// No visit of a sweep clamps anything.
    pub open spec fn sweep_exact(self, i: int, scanned: int, processed: int, c: CrankContext, t: Tally) -> bool
        decreases MAX_ACCOUNTS - scanned,
    {
        if processed >= ACCOUNTS_PER_CRANK || scanned >= MAX_ACCOUNTS {
            true
        } else {
            let (s, u) = if self.is_used(i) {
                self.visited(i, c, t)
            } else {
                (self, t)
            };
            &&& self.is_used(i) ==> self.visit_exact(i, c, t)
            &&& next_slot(i) != s.sweep_start_idx ==> s.sweep_exact(
                next_slot(i),
                scanned + 1,
                if self.is_used(i) {
                    processed + 1
                } else {
                    processed
                },
                c,
                u,
            )
        }
    }
}

/// A liquidation in a sweep conserves value, with what is pending counted in.
pub proof fn law_sweep_liquidation_conserves(
    s: EngineState,
    idx: int,
    now: u64,
    oracle: u64,
    epoch: u16,
)
    requires
        s.wf(),
        s.is_used(idx),
        s.sweep_liquidate_exact(idx, now, oracle),
    ensures
        s.sweep_liquidate(idx, now, oracle, epoch).0.open_surplus(oracle) == s.open_surplus(oracle),
        s.sweep_liquidate(idx, now, oracle, epoch).0.wf(),
        s.sweep_liquidate(idx, now, oracle, epoch).0.is_used(idx),
{
    if s.accounts[idx].position_size@ != 0 {
        law_deferred_liquidation_conserves(s, idx, now, oracle);
        let (t, r) = s.liquidate_deferred(idx, now, oracle);
        lemma_same_worth(t, s.sweep_liquidate(idx, now, oracle, epoch).0, oracle);
    }
}

/// A forced close in a sweep conserves value, with what is pending counted in.
pub proof fn law_hopeless_close_conserves(s: EngineState, idx: int, oracle: u64)
    requires
        s.wf(),
        s.is_used(idx),
        s.hopeless(idx, oracle) ==> s.force_close_exact(idx, oracle),
    ensures
        s.sweep_hopeless(idx, oracle).open_surplus(oracle) == s.open_surplus(oracle),
        s.sweep_hopeless(idx, oracle).wf(),
        s.sweep_hopeless(idx, oracle).is_used(idx),
{
    if s.hopeless(idx, oracle) {
        law_forced_close_conserves(s, idx, oracle);
        lemma_same_worth(s.force_close(idx, oracle).0, s.sweep_hopeless(idx, oracle), oracle);
    }
}

proof fn lemma_touch_for_force_realize(s: EngineState, idx: int, now: u64, oracle: u64)
    requires
        s.wf(),
        s.is_used(idx),
        s.settled_to_fees_exact(idx, now, oracle),
    ensures
        ({
            let (t, r) = s.touch_account_for_force_realize(idx, now, oracle);
            &&& t.surplus(oracle) == s.surplus(oracle)
            &&& t.wf()
            &&& t.is_used(idx)
            &&& t.pending_unpaid_loss == s.pending_unpaid_loss
            &&& t.pending_profit_to_fund == s.pending_profit_to_fund
            &&& r is Ok ==> t.accounts[idx].entry_price == oracle
        }),
{
    law_funding_settlement_conserves(s, idx, oracle);
    let s1 = s.touch_account(idx).0;
    law_mark_settlement_conserves(s1, idx, oracle);
    let s2 = s1.settle_mark_to_oracle(idx, oracle).0;
    law_fees_conserve(s2, idx, now, oracle);
}

/// Settling an account and closing it by force conserves value, with what is pending counted
/// in.
pub proof fn law_forced_realization_conserves(s: EngineState, idx: int, now: u64, oracle: u64)
    requires
        s.wf(),
        s.is_used(idx),
        s.sweep_force_realize_exact(idx, now, oracle),
    ensures
        s.sweep_force_realize(idx, now, oracle).0.open_surplus(oracle) == s.open_surplus(oracle),
        s.sweep_force_realize(idx, now, oracle).0.wf(),
        s.sweep_force_realize(idx, now, oracle).0.is_used(idx),
{
    if s.accounts[idx].position_size@ != 0 {
        lemma_touch_for_force_realize(s, idx, now, oracle);
        let (s1, r) = s.touch_account_for_force_realize(idx, now, oracle);
        if r is Ok {
            law_forced_close_conserves(s1, idx, oracle);
            let a = s1.accounts[idx];
            lemma_settled_account(a, s1.funding_index_qpb_e6@ as int, oracle);
            assert(a.close_pnl(a.size(), oracle) == 0);
            lemma_same_worth(
                s1.force_close(idx, oracle).0,
                s.sweep_force_realize(idx, now, oracle).0,
                oracle,
            );
        } else {
            lemma_same_worth(s1, s1.in_risk_reduction(), oracle);
        }
    }
}

/// Taking pending amounts off a profit conserves value, with what is pending counted in.
pub proof fn law_socialization_conserves(
    s: EngineState,
    idx: int,
    slot: u64,
    epoch: u16,
    oracle: u64,
)
    requires
        s.wf(),
        s.is_used(idx),
    ensures
        s.sweep_socialize(idx, slot, epoch).open_surplus(oracle) == s.open_surplus(oracle),
        s.sweep_socialize(idx, slot, epoch).wf(),
{
    let t = s.sweep_socialize(idx, slot, epoch);
    let a = s.accounts[idx];
    assert(a.warmed_cap(slot) >= 0) by {
        let m = crate::math::monus(slot as int, a.warmup_started_at_slot as int);
        assert(a.warmup_slope_per_step@ * m >= 0) by (nonlinear_arith)
            requires
                m >= 0,
                a.warmup_slope_per_step@ >= 0,
        ;
    }
    assert(0 <= a.unwrapped_pnl(slot) <= crate::math::max_int(a.pnl@ as int, 0));
    lemma_worth_update(s, t, idx, t.accounts[idx], oracle);
}

/// A visit conserves value, with what is pending counted in.
pub proof fn law_visit_conserves(s: EngineState, idx: int, c: CrankContext, t: Tally)
    requires
        s.wf(),
        s.is_used(idx),
        s.visit_exact(idx, c, t),
    ensures
        s.visited(idx, c, t).0.open_surplus(c.oracle_price) == s.open_surplus(c.oracle_price),
        s.visited(idx, c, t).0.wf(),
{
    let now = c.now_slot;
    let oracle = c.oracle_price;
    law_fees_conserve(s, idx, now, oracle);
    let s1 = s.with_fees_charged(idx, now);
    let s3 = if !c.force_realize && t.liquidations < LIQ_BUDGET_PER_CRANK {
        law_sweep_liquidation_conserves(s1, idx, now, oracle, c.epoch);
        let s2 = s1.sweep_liquidate(idx, now, oracle, c.epoch).0;
        law_hopeless_close_conserves(s2, idx, oracle);
        s2.sweep_hopeless(idx, oracle)
    } else if c.force_realize && t.force_closes < FORCE_REALIZE_BUDGET_PER_CRANK {
        let s2 = s1.in_risk_reduction();
        lemma_same_worth(s1, s2, oracle);
        law_forced_realization_conserves(s2, idx, now, oracle);
        s2.sweep_force_realize(idx, now, oracle).0
    } else {
        s1
    };
    law_socialization_conserves(s3, idx, c.effective_slot, c.epoch, oracle);
    let s4 = s3.sweep_socialize(idx, c.effective_slot, c.epoch);
    lemma_same_worth(s4, s4.sweep_lp_max(idx), oracle);
}

/// The visits of a sweep conserve value, with what is pending counted in.
pub proof fn law_sweep_conserves(
    s: EngineState,
    i: int,
    scanned: int,
    processed: int,
    c: CrankContext,
    t: Tally,
)
    requires
        s.wf(),
        s.sweep_exact(i, scanned, processed, c, t),
    ensures
        s.swept(i, scanned, processed, c, t).0.open_surplus(c.oracle_price) == s.open_surplus(
            c.oracle_price,
        ),
        s.swept(i, scanned, processed, c, t).0.wf(),
    decreases MAX_ACCOUNTS - scanned,
{
    if processed < ACCOUNTS_PER_CRANK && scanned < MAX_ACCOUNTS {
        if s.is_used(i) {
            law_visit_conserves(s, i, c, t);
            let (s1, u) = s.visited(i, c, t);
            if next_slot(i) != s1.sweep_start_idx {
                law_sweep_conserves(s1, next_slot(i), scanned + 1, processed + 1, c, u);
            }
        } else if next_slot(i) != s.sweep_start_idx {
            law_sweep_conserves(s, next_slot(i), scanned + 1, processed, c, t);
        }
    }
}

impl EngineState {
    /// What is pending, of either kind.
    pub open spec fn pending_total(self) -> int {
        self.pending_profit_to_fund@ + self.pending_unpaid_loss@
    }

    /// Accumulating what is pending clamps nothing.
    pub open spec fn finalize_exact(self) -> bool {
        self.loss_accum@ + self.pending_total() <= u128::MAX
    }
}

/// Settling pending amounts at the end of a sweep conserves value, with what is pending
/// counted in.
pub proof fn law_finalization_conserves(s: EngineState, oracle: u64)
    requires
        s.wf(),
        s.finalize_exact(),
    ensures
        s.pending_finalized().open_surplus(oracle) == s.open_surplus(oracle),
        s.pending_finalized().wf(),
{
    lemma_same_worth(s, s.pending_finalized(), oracle);
}

/// At the end of a sweep nothing stays pending, of either kind. What was pending is paid by
/// the insurance fund or accumulated as uncovered, to the unit. The fund does not go below
/// its floor for it, and accounts and vault stay as they are. Where anything is accumulated,
/// risk-reduction-only mode is on and warmups are paused.
pub proof fn law_finalization_settles_pending(s: EngineState)
    requires
        s.wf(),
        s.finalize_exact(),
    ensures
        ({
            let t = s.pending_finalized();
            &&& !t.has_pending()
            &&& (s.insurance_fund.balance@ - t.insurance_fund.balance@) + (t.loss_accum@
                - s.loss_accum@) == s.pending_total()
            &&& t.insurance_fund.balance@ <= s.insurance_fund.balance@
            &&& t.insurance_fund.balance@ >= min_int(
                s.insurance_fund.balance@ as int,
                s.params.risk_reduction_threshold@ as int,
            )
            &&& t.loss_accum@ >= s.loss_accum@
            &&& t.loss_accum@ > s.loss_accum@ ==> t.risk_reduction_only && t.warmup_paused
            &&& t.accounts == s.accounts
            &&& t.used == s.used
            &&& t.vault == s.vault
        }),
{
}

impl EngineState {
    /// Examining slot `idx` for dust clamps nothing.
    pub open spec fn dust_exact(self, idx: int) -> bool {
        self.is_used(idx) && self.accounts[idx].kind != AccountKind::LP ==> {
            self.fees_exact(idx, self.current_slot)
        }
    }

    /// Examining slots for dust clamps nothing.
    pub open spec fn dust_scan_exact(self, i: int, left: int, found: Seq<u16>, loss: int) -> bool
        decreases left,
    {
        if left <= 0 || found.len() >= GC_CLOSE_BUDGET {
            true
        } else {
            &&& self.dust_exact(i)
            &&& loss + self.dust_loss(i) <= u128::MAX
            &&& self.dust_examined(i).dust_scan_exact(
                next_slot(i),
                left - 1,
                if self.collectable(i) {
                    found.push(i as u16)
                } else {
                    found
                },
                loss + self.dust_loss(i),
            )
        }
    }

    /// Collecting dust clamps nothing.
    pub open spec fn gc_exact(self) -> bool {
        let i = self.gc_cursor as int % (MAX_ACCOUNTS as int);
        let (t, _, loss) = self.dust_scan(i, ACCOUNTS_PER_CRANK as int, Seq::empty(), 0);
        &&& self.dust_scan_exact(i, ACCOUNTS_PER_CRANK as int, Seq::empty(), 0)
        &&& t.loss_accum@ + loss <= u128::MAX
        &&& t.can_share(loss, Exempt::Nobody) ==> t.deleverage_exact(loss, Exempt::Nobody)
    }
}

/// The listed accounts hold nothing and owe nothing.
pub open spec fn hold_nothing(s: EngineState, list: Seq<u16>) -> bool {
    forall|j: int|
        0 <= j < list.len() ==> {
            let a = s.accounts[(#[trigger] list[j]) as int];
            a.position_size@ == 0 && a.capital@ == 0 && a.pnl@ == 0
        }
}

/// Examining a slot for dust costs the loss that is written off.
proof fn lemma_dust_examined(s: EngineState, i: int, oracle: u64)
    requires
        s.wf(),
        s.dust_exact(i),
    ensures
        ({
            let t = s.dust_examined(i);
            &&& t.open_surplus(oracle) == s.open_surplus(oracle) - s.dust_loss(i)
            &&& t.wf()
            &&& t.used == s.used
            &&& s.dust_loss(i) >= 0
            &&& forall|j: int|
                0 <= j < MAX_ACCOUNTS && j != i ==> #[trigger] t.accounts[j] == s.accounts[j]
            &&& s.collectable(i) ==> s.used[i] && t.accounts[i].position_size@ == 0
                && t.accounts[i].capital@ == 0 && t.accounts[i].pnl@ == 0
        }),
{
    if s.is_used(i) && s.accounts[i].kind != AccountKind::LP {
        let s1 = s.with_fees_charged(i, s.current_slot);
        law_fees_conserve(s, i, s.current_slot, oracle);
        let a = s1.accounts[i];
        if a.is_dust() {
            let index = s1.funding_index_qpb_e6@ as int;
            lemma_settled_account(a, index, oracle);
            let b = a.written_off(s1.funding_index_qpb_e6);
            lemma_settled_account(b, index, oracle);
            lemma_worth_update(s1, s.dust_examined(i), i, b, oracle);
        }
    }
}

proof fn lemma_hold_nothing_next(
    s: EngineState,
    start: int,
    n: int,
    i: int,
    found: Seq<u16>,
    oracle: u64,
)
    requires
        s.wf(),
        s.dust_exact(i),
        0 <= n < MAX_ACCOUNTS,
        i == (start + n) % (MAX_ACCOUNTS as int),
        all_used(s.used, found, 0),
        found_within(start, n, found),
        hold_nothing(s, found),
    ensures
        hold_nothing(s.dust_examined(i), found),
        s.collectable(i) ==> hold_nothing(s.dust_examined(i), found.push(i as u16)),
{
    reveal(all_used);
    reveal(found_within);
    lemma_dust_examined(s, i, oracle);
    assert forall|j: int| 0 <= j < found.len() implies (#[trigger] found[j]) as int != i by {
        if found[j] as int == i {
            assert(distance(start, i) == n) by {
                assert(distance(start, found[j] as int) < n);
            }
        }
    }
}

proof fn lemma_dust_scan(
    s: EngineState,
    start: int,
    n: int,
    left: int,
    i: int,
    found: Seq<u16>,
    loss: int,
    oracle: u64,
)
    requires
        s.wf(),
        0 <= n,
        0 <= loss,
        n + left <= MAX_ACCOUNTS,
        i == (start + n) % (MAX_ACCOUNTS as int),
        all_used(s.used, found, 0),
        found_within(start, n, found),
        hold_nothing(s, found),
        s.dust_scan_exact(i, left, found, loss),
    ensures
        ({
            let (t, list, total) = s.dust_scan(i, left, found, loss);
            &&& t.open_surplus(oracle) + total == s.open_surplus(oracle) + loss
            &&& total >= 0
            &&& t.wf()
            &&& all_used(t.used, list, 0)
            &&& hold_nothing(t, list)
        }),
    decreases left,
{
    if left > 0 && found.len() < GC_CLOSE_BUDGET {
        lemma_dust_examined(s, i, oracle);
        lemma_hold_nothing_next(s, start, n, i, found, oracle);
        lemma_found_next(s.used, start, n, i, found);
        let more = if s.collectable(i) {
            found.push(i as u16)
        } else {
            found
        };
        assert(sat_u(loss + s.dust_loss(i)) == loss + s.dust_loss(i));
        lemma_dust_scan(
            s.dust_examined(i),
            start,
            n + 1,
            left - 1,
            next_slot(i),
            more,
            loss + s.dust_loss(i),
            oracle,
        );
    }
}

/// Sharing the loss that dust accounts leave behind frees exactly that loss, and leaves
/// accounts that hold nothing as they are.
proof fn lemma_dust_loss_shared(s: EngineState, list: Seq<u16>, loss: int, oracle: u64)
    requires
        s.wf(),
        loss >= 0,
        s.loss_accum@ + loss <= u128::MAX,
        s.can_share(loss, Exempt::Nobody) ==> s.deleverage_exact(loss, Exempt::Nobody),
        all_used(s.used, list, 0),
        hold_nothing(s, list),
    ensures
        ({
            let t = s.with_dust_loss_shared(loss);
            &&& t.wf()
            &&& t.used == s.used
            &&& t.open_surplus(oracle) == s.open_surplus(oracle) + loss
            &&& hold_nothing(t, list)
        }),
{
    let t = s.with_dust_loss_shared(loss);
    if s.can_share(loss, Exempt::Nobody) {
        law_adl_frees_exactly_the_loss(s, loss, Exempt::Nobody, oracle);
        law_adl_takes_only_profit(s, loss, Exempt::Nobody);
        assert forall|j: int| 0 <= j < list.len() implies t.accounts[(#[trigger] list[j]) as int]
            == s.accounts[list[j] as int] by {
            reveal(all_used);
            law_adl_spares_exempt(s, loss, Exempt::Nobody, list[j] as int);
        }
    } else {
        lemma_same_worth(s, t, oracle);
    }
}

proof fn lemma_free_all(s: EngineState, list: Seq<u16>, k: int, oracle: u64)
    requires
        s.wf(),
        0 <= k,
        all_used(s.used, list, k),
        forall|j: int|
            k <= j < list.len() ==> {
                let a = s.accounts[(#[trigger] list[j]) as int];
                a.position_size@ == 0 && a.capital@ == 0 && a.pnl@ == 0
            },
    ensures
        s.free_all(list, k).open_surplus(oracle) == s.open_surplus(oracle),
        s.free_all(list, k).wf(),
    decreases list.len() - k,
{
    if k < list.len() {
        let idx = list[k];
        lemma_freed_next(s, list, k);
        lemma_free(s, idx);
        let t = s.free_slot(idx as int);
        lemma_freed_worth(s, t, idx as int, oracle);
        lemma_settled_account(s.accounts[idx as int], s.funding_index_qpb_e6@ as int, oracle);
        assert(forall|j: int| k < j < list.len() ==> #[trigger] list[j] != idx) by {
            reveal(all_used);
        }
        assert(forall|j: int| k < j < list.len() ==> (#[trigger] list[j]) < MAX_ACCOUNTS) by {
            reveal(all_used);
        }
        lemma_free_all(t, list, k + 1, oracle);
    }
}

/// Collecting dust conserves value: the losses that dust accounts leave behind are taken off
/// profits, covered by insurance, or accumulated.
pub proof fn law_dust_collection_conserves(s: EngineState, oracle: u64)
    requires
        s.wf(),
        s.gc_exact(),
    ensures
        s.garbage_collect_dust().0.open_surplus(oracle) == s.open_surplus(oracle),
        s.garbage_collect_dust().0.wf(),
{
    let start = s.gc_cursor as int;
    let i = start % (MAX_ACCOUNTS as int);
    let none = Seq::<u16>::empty();
    assert(all_used(s.used, none, 0)) by {
        reveal(all_used);
    }
    assert(found_within(start, 0, none)) by {
        reveal(found_within);
    }
    lemma_dust_scan(s, start, 0, ACCOUNTS_PER_CRANK as int, i, none, 0, oracle);
    let (t, list, loss) = s.dust_scan(i, ACCOUNTS_PER_CRANK as int, none, 0);
    lemma_dust_loss_shared(t, list, loss, oracle);
    let t1 = t.with_dust_loss_shared(loss);
    let u = EngineState {
        gc_cursor: ((start + ACCOUNTS_PER_CRANK) % (MAX_ACCOUNTS as int)) as u16,
        ..t1
    };
    lemma_same_worth(t1, u, oracle);
    lemma_free_all(u, list, 0, oracle);
}

impl EngineState {
    /// What comes after the visits of a crank clamps nothing.
    pub open spec fn crank_close_exact(self, stop: int, complete: bool, c: CrankContext) -> bool {
        let s1 = EngineState { crank_cursor: stop as u16, ..self };
        let s2 = if complete {
            s1.sweep_ended(c.now_slot)
        } else {
            s1
        };
        &&& complete ==> self.finalize_exact()
        &&& (if c.force_realize {
            s2.with_reserve()
        } else {
            s2
        }).gc_exact()
    }

    /// A crank clamps nothing.
    pub open spec fn crank_exact(self, now: u64, oracle: u64) -> bool {
        let c = self.crank_context(now, oracle);
        let none = Tally { liquidations: 0, liq_errors: 0, force_closes: 0, force_errors: 0 };
        let (s, stop, t, complete) = self.swept(self.crank_cursor as int, 0, 0, c, none);
        &&& self.sweep_exact(self.crank_cursor as int, 0, 0, c, none)
        &&& s.crank_close_exact(stop, complete, c)
    }

    /// Charging the caller of a crank clamps nothing.
    pub open spec fn caller_exact(self, caller: int, now: u64) -> bool {
        self.is_used(caller) ==> self.with_account(
            caller,
            self.accounts[caller].half_forgiven(now),
        ).fees_exact(caller, now)
    }
}

proof fn lemma_crank_closed(s: EngineState, stop: int, complete: bool, c: CrankContext)
    requires
        s.wf(),
        0 <= stop < MAX_ACCOUNTS,
        s.crank_close_exact(stop, complete, c),
    ensures
        s.crank_closed(stop, complete, c).0.open_surplus(c.oracle_price) == s.open_surplus(
            c.oracle_price,
        ),
{
    let oracle = c.oracle_price;
    let s1 = EngineState { crank_cursor: stop as u16, ..s };
    lemma_same_worth(s, s1, oracle);
    let s2 = if complete {
        law_finalization_conserves(s1, oracle);
        lemma_same_worth(s1.pending_finalized(), s1.sweep_ended(c.now_slot), oracle);
        s1.sweep_ended(c.now_slot)
    } else {
        s1
    };
    lemma_same_worth(s2, s2.with_reserve(), oracle);
    if c.force_realize {
        law_dust_collection_conserves(s2.with_reserve(), oracle);
    } else {
        law_dust_collection_conserves(s2, oracle);
    }
}

proof fn lemma_sweep_stops_in_slab(
    s: EngineState,
    i: int,
    scanned: int,
    processed: int,
    c: CrankContext,
    t: Tally,
)
    requires
        0 <= i < MAX_ACCOUNTS,
    ensures
        0 <= s.swept(i, scanned, processed, c, t).1 < MAX_ACCOUNTS,
    decreases MAX_ACCOUNTS - scanned,
{
    if processed < ACCOUNTS_PER_CRANK && scanned < MAX_ACCOUNTS {
        let (s1, u) = if s.is_used(i) {
            s.visited(i, c, t)
        } else {
            (s, t)
        };
        let n = if s.is_used(i) {
            processed + 1
        } else {
            processed
        };
        lemma_sweep_stops_in_slab(s1, next_slot(i), scanned + 1, n, c, u);
    }
}

/// The visits of a crank and what comes after them conserve value, with what is pending
/// counted in.
pub proof fn law_crank_run_conserves(s: EngineState, now: u64, oracle: u64)
    requires
        s.wf(),
        s.crank_exact(now, oracle),
    ensures
        s.crank_run(now, oracle).0.open_surplus(oracle) == s.open_surplus(oracle),
{
    let c = s.crank_context(now, oracle);
    let none = Tally { liquidations: 0, liq_errors: 0, force_closes: 0, force_errors: 0 };
    let i = s.crank_cursor as int;
    law_sweep_conserves(s, i, 0, 0, c, none);
    lemma_sweep_stops_in_slab(s, i, 0, 0, c, none);
    let (s1, stop, t, complete) = s.swept(i, 0, 0, c, none);
    lemma_crank_closed(s1, stop, complete, c);
}

/// Charging the caller of a crank conserves value.
pub proof fn law_caller_charge_conserves(s: EngineState, caller: int, now: u64, oracle: u64)
    requires
        s.wf(),
        s.caller_exact(caller, now),
    ensures
        s.caller_charged(caller, now).open_surplus(oracle) == s.open_surplus(oracle),
        s.caller_charged(caller, now).wf(),
{
    if s.is_used(caller) {
        let b = s.accounts[caller].half_forgiven(now);
        let s1 = s.with_account(caller, b);
        lemma_worth_update(s, s1, caller, b, oracle);
        law_fees_conserve(s1, caller, now, oracle);
    }
}

/// Once funding has accrued, a crank conserves value, with what is pending counted in.
pub proof fn law_crank_conserves(
    s: EngineState,
    caller: int,
    now: u64,
    oracle: u64,
    rate: i64,
    allow_panic: bool,
)
    requires
        s.wf(),
        s.keeper_crank(caller, now, oracle, rate, allow_panic).1 is Ok,
        ({
            let s2 = s.at_slot(now).sweep_begun(now).accrue_funding(
                now,
                oracle,
                rate,
            ).0.crank_advanced(now);
            s2.caller_exact(caller, now) && s2.caller_charged(caller, now).crank_exact(now, oracle)
        }),
    ensures
        s.keeper_crank(caller, now, oracle, rate, allow_panic).0.open_surplus(oracle) == s.at_slot(
            now,
        ).sweep_begun(now).accrue_funding(now, oracle, rate).0.open_surplus(oracle),
{
    let s1 = s.at_slot(now).sweep_begun(now).accrue_funding(now, oracle, rate).0;
    let s2 = s1.crank_advanced(now);
    lemma_same_worth(s1, s2, oracle);
    law_caller_charge_conserves(s2, caller, now, oracle);
    law_crank_run_conserves(s2.caller_charged(caller, now), now, oracle);
}

} // verus!
