//! The keeper crank: the permissionless entry point that advances the engine.
use vstd::prelude::*;

use crate::math::{min_int, min_u128, monus, sat_u};
use crate::state::{EngineState, RiskEngine};
use crate::sweep::next_slot;
use crate::types::{
    Account, CrankOutcome, RiskError, ACCOUNTS_PER_CRANK, FORCE_REALIZE_BUDGET_PER_CRANK,
    LIQ_BUDGET_PER_CRANK, MAX_ACCOUNTS, MAX_ORACLE_PRICE,
};
use crate::wide::U128;

verus! {

broadcast use crate::wide::group_wide;

/// What a crank has done so far.
pub struct CrankTally {
    pub liquidations: u16,
    pub liq_errors: u16,
    pub force_closes: u16,
    pub force_errors: u16,
}

/// The same as unlimited numbers.
pub struct Tally {
    pub liquidations: int,
    pub liq_errors: int,
    pub force_closes: int,
    pub force_errors: int,
}

impl View for CrankTally {
    type V = Tally;

    open spec fn view(&self) -> Tally {
        Tally {
            liquidations: self.liquidations as int,
            liq_errors: self.liq_errors as int,
            force_closes: self.force_closes as int,
            force_errors: self.force_errors as int,
        }
    }
}

/// What stays fixed during a crank.
#[derive(Clone, Copy)]
pub struct CrankContext {
    /// Present slot
    pub now_slot: u64,
    /// Oracle price
    pub oracle_price: u64,
    /// Number of the sweep
    pub epoch: u16,
    /// Slot up to which warmup has progressed
    pub effective_slot: u64,
    /// Whether the insurance was at the floor when the crank began
    pub force_realize: bool,
}

impl Account {
    /// Half of the slots since the last fee charge.
    pub open spec fn forgiven(self, now: u64) -> int {
        monus(now as int, self.last_fee_slot as int) / 2
    }

    /// The account with half of the slots since the last fee charge forgiven.
    pub open spec fn half_forgiven(self, now: u64) -> Account {
        Account { last_fee_slot: (self.last_fee_slot + self.forgiven(now)) as u64, ..self }
    }
}

impl EngineState {
    /// The start of a sweep noted, if the cursor is where the last one ended.
    pub open spec fn sweep_begun(self, now: u64) -> EngineState {
        if self.crank_cursor == self.sweep_start_idx {
            EngineState {
                last_full_sweep_start_slot: now,
                pending_epoch: if self.pending_epoch == u16::MAX {
                    0
                } else {
                    (self.pending_epoch + 1) as u16
                },
                lp_max_abs_sweep: U128::of(0),
                ..self
            }
        } else {
            self
        }
    }

    /// The slot of the last crank advanced to `now`.
    pub open spec fn crank_advanced(self, now: u64) -> EngineState {
        EngineState {
            last_crank_slot: if now > self.last_crank_slot {
                now
            } else {
                self.last_crank_slot
            },
            ..self
        }
    }

    /// The caller's fees charged, with half of the slots forgiven.
    pub open spec fn caller_charged(self, caller: int, now: u64) -> EngineState {
        if self.is_used(caller) {
            self.with_account(caller, self.accounts[caller].half_forgiven(now)).with_fees_charged(
                caller,
                now,
            )
        } else {
            self
        }
    }

    /// Whether the caller's fees were settled: not where the account is below maintenance
    /// margin with them, though they are charged all the same.
    pub open spec fn caller_settled(self, caller: int, now: u64, oracle: u64) -> bool {
        self.is_used(caller) ==> self.with_account(
            caller,
            self.accounts[caller].half_forgiven(now),
        ).settle_maintenance_fee(caller, now, oracle).1 is Ok
    }

    /// One account visited: fees are charged; then, while the budgets last, it is liquidated,
    /// or closed by force where the insurance is at the floor; then pending amounts are taken
    /// off its unmatured profit.
    pub open spec fn visited(self, idx: int, c: CrankContext, t: Tally) -> (EngineState, Tally) {
        let s1 = self.with_fees_charged(idx, c.now_slot);
        let (s3, u) = if !c.force_realize && t.liquidations < LIQ_BUDGET_PER_CRANK {
            let (s2, l, e) = s1.sweep_liquidate(idx, c.now_slot, c.oracle_price, c.epoch);
            (
                s2.sweep_hopeless(idx, c.oracle_price),
                Tally {
                    liquidations: t.liquidations + l,
                    liq_errors: t.liq_errors + e,
                    ..t
                },
            )
        } else if c.force_realize && t.force_closes < FORCE_REALIZE_BUDGET_PER_CRANK {
            let (s2, n, e) = s1.in_risk_reduction().sweep_force_realize(
                idx,
                c.now_slot,
                c.oracle_price,
            );
            (
                s2,
                Tally {
                    force_closes: t.force_closes + n,
                    force_errors: t.force_errors + e,
                    ..t
                },
            )
        } else {
            (s1, t)
        };
        (s3.sweep_socialize(idx, c.effective_slot, c.epoch).sweep_lp_max(idx), u)
    }

    /// Slots visited in turn from slot `i` on, until enough accounts were processed, all slots
    /// were scanned, or the sweep is complete. Yields the state, where it stopped, what was
    /// done, and whether the sweep is complete.
    pub open spec fn swept(self, i: int, scanned: int, processed: int, c: CrankContext, t: Tally) -> (
        EngineState,
        int,
        Tally,
        bool,
    )
        decreases MAX_ACCOUNTS - scanned,
    {
        if processed >= ACCOUNTS_PER_CRANK || scanned >= MAX_ACCOUNTS {
            (self, i, t, false)
        } else {
            let (s, u) = if self.is_used(i) {
                self.visited(i, c, t)
            } else {
                (self, t)
            };
            if next_slot(i) == s.sweep_start_idx {
                (s, next_slot(i), u, true)
            } else {
                s.swept(
                    next_slot(i),
                    scanned + 1,
                    if self.is_used(i) {
                        processed + 1
                    } else {
                        processed
                    },
                    c,
                    u,
                )
            }
        }
    }

    /// Insurance spent on pending profit.
    pub open spec fn pending_profit_covered(self) -> EngineState {
        let spend = min_int(self.spendable_unreserved(), self.pending_profit_to_fund@ as int);
        if self.pending_profit_to_fund@ == 0 {
            self
        } else {
            EngineState {
                pending_profit_to_fund: U128::of(self.pending_profit_to_fund@ - spend),
                ..self
            }.with_insurance(self.insurance_fund.balance@ - spend).with_reserve()
        }
    }

    /// Insurance spent on pending loss.
    pub open spec fn pending_loss_covered(self) -> EngineState {
        let spend = min_int(self.spendable_unreserved(), self.pending_unpaid_loss@ as int);
        EngineState {
            pending_unpaid_loss: U128::of(self.pending_unpaid_loss@ - spend),
            ..self
        }.with_insurance(self.insurance_fund.balance@ - spend)
    }

    /// Pending amounts covered from insurance that may be spent, profit first.
    pub open spec fn pending_covered(self) -> EngineState {
        if self.spendable_unreserved() > 0 {
            self.pending_profit_covered().pending_loss_covered().with_reserve()
        } else {
            self
        }
    }

    /// Pending amounts that nothing covered accumulated as uncovered.
    pub open spec fn pending_accumulated(self) -> EngineState {
        if !self.has_pending() {
            self
        } else {
            EngineState {
                loss_accum: U128::of(
                    sat_u(
                        self.loss_accum@ + self.pending_profit_to_fund@ + self.pending_unpaid_loss@,
                    ),
                ),
                pending_profit_to_fund: U128::of(0),
                pending_unpaid_loss: U128::of(0),
                ..self
            }.in_risk_reduction()
        }
    }

    /// Pending amounts settled at the end of a sweep: nothing is pending afterwards.
    pub open spec fn pending_finalized(self) -> EngineState {
        if !self.has_pending() {
            self
        } else {
            self.pending_covered().pending_accumulated()
        }
    }

    /// The end of a sweep noted.
    pub open spec fn sweep_ended(self, now: u64) -> EngineState {
        let s = self.pending_finalized();
        EngineState {
            last_full_sweep_completed_slot: now,
            lp_max_abs: s.lp_max_abs_sweep,
            sweep_start_idx: s.crank_cursor,
            ..s
        }
    }

    /// What comes after the visits: the end of the sweep, if it is complete, and the dust
    /// collection. Yields the state and the number of accounts collected.
    pub open spec fn crank_closed(self, stop: int, complete: bool, c: CrankContext) -> (
        EngineState,
        int,
    ) {
        let s1 = EngineState { crank_cursor: stop as u16, ..self };
        let s2 = if complete {
            s1.sweep_ended(c.now_slot)
        } else {
            s1
        };
        (if c.force_realize {
            s2.with_reserve()
        } else {
            s2
        }).garbage_collect_dust()
    }

    /// The context of a crank.
    pub open spec fn crank_context(self, now: u64, oracle: u64) -> CrankContext {
        CrankContext {
            now_slot: now,
            oracle_price: oracle,
            epoch: self.pending_epoch,
            effective_slot: self.effective_slot(),
            force_realize: self.at_floor(),
        }
    }

    /// The visits of a crank and what comes after them.
    pub open spec fn crank_run(self, now: u64, oracle: u64) -> (EngineState, Tally, int, bool) {
        let c = self.crank_context(now, oracle);
        let (s, stop, t, complete) = self.swept(
            self.crank_cursor as int,
            0,
            0,
            c,
            Tally { liquidations: 0, liq_errors: 0, force_closes: 0, force_errors: 0 },
        );
        let (z, collected) = s.crank_closed(stop, complete, c);
        (z, t, collected, complete)
    }

    /// Whether a global settlement is called for.
    pub open spec fn panic_called_for(self) -> bool {
        !self.at_floor() && (self.loss_accum@ != 0 || self.risk_reduction_only)
            && self.total_open_interest@ != 0
    }

    pub open spec fn keeper_crank(
        self,
        caller: int,
        now: u64,
        oracle: u64,
        rate: i64,
        allow_panic: bool,
    ) -> (EngineState, Result<CrankOutcome, RiskError>) {
        if oracle == 0 || oracle > MAX_ORACLE_PRICE {
            (self, Err(RiskError::Overflow))
        } else {
            match self.at_slot(now).sweep_begun(now).accrue_funding(now, oracle, rate) {
                (s1, Err(e)) => (s1, Err(e)),
                (s1, Ok(_)) => {
                    let s2 = s1.crank_advanced(now);
                    let (s3, t, collected, complete) = s2.caller_charged(caller, now).crank_run(
                        now,
                        oracle,
                    );
                    (
                        s3,
                        Ok(
                            CrankOutcome {
                                advanced: now > s1.last_crank_slot,
                                slots_forgiven: if s2.is_used(caller) {
                                    s2.accounts[caller].forgiven(now) as u64
                                } else {
                                    0
                                },
                                caller_settle_ok: s2.caller_settled(caller, now, oracle),
                                force_realize_needed: s3.at_floor(),
                                panic_needed: s3.panic_called_for() && allow_panic,
                                num_liquidations: t.liquidations as u32,
                                num_liq_errors: t.liq_errors as u16,
                                num_gc_closed: collected as u32,
                                force_realize_closed: t.force_closes as u16,
                                force_realize_errors: t.force_errors as u16,
                                last_cursor: s3.crank_cursor,
                                sweep_complete: complete,
                            },
                        ),
                    )
                },
            }
        }
    }
}

impl RiskEngine {
    /// Charges the caller's fees, with half of the slots forgiven; returns how many were, and
    /// whether the account is not below maintenance margin with the fees.
    fn charge_caller(&mut self, caller_idx: u16, now_slot: u64, oracle_price: u64) -> (r: (
        u64,
        bool,
    ))
        requires
            old(self).wf(),
        ensures
            final(self)@ == old(self)@.caller_charged(caller_idx as int, now_slot),
            r.1 == old(self)@.caller_settled(caller_idx as int, now_slot, oracle_price),
            r.0 == (if old(self)@.is_used(caller_idx as int) {
                old(self)@.accounts[caller_idx as int].forgiven(now_slot)
            } else {
                0
            }),
            final(self).wf(),
    {
        if (caller_idx as usize) >= MAX_ACCOUNTS || !self.is_used(caller_idx as usize) {
            return (0, true);
        }
        let last_fee: u64 = self.accounts[caller_idx as usize].last_fee_slot;
        let forgive: u64 = now_slot.saturating_sub(last_fee) / 2;
        self.accounts[caller_idx as usize].last_fee_slot = last_fee + forgive;
        let settled: bool = match self.settle_maintenance_fee(caller_idx, now_slot, oracle_price) {
            Ok(_) => true,
            Err(_) => false,
        };
        (forgive, settled)
    }

    /// Visits one account.
    fn visit(&mut self, idx: usize, ctx: CrankContext, tally: CrankTally) -> (r: CrankTally)
        requires
            old(self).wf(),
            old(self)@.is_used(idx as int),
            tally.liq_errors < u16::MAX,
            tally.force_errors < u16::MAX,
        ensures
            final(self)@ == old(self)@.visited(idx as int, ctx, tally@).0,
            r@ == old(self)@.visited(idx as int, ctx, tally@).1,
            r.liq_errors <= tally.liq_errors + 1,
            r.force_errors <= tally.force_errors + 1,
            final(self).wf(),
    {
        let mut tally: CrankTally = tally;
        match self.settle_maintenance_fee_best_effort_for_crank(idx as u16, ctx.now_slot) {
            _ => {},
        }
        if !ctx.force_realize && tally.liquidations < LIQ_BUDGET_PER_CRANK {
            let (l, e): (u16, u16) = self.sweep_liquidate(
                idx,
                ctx.now_slot,
                ctx.oracle_price,
                ctx.epoch,
            );
            self.sweep_hopeless(idx, ctx.oracle_price);
            tally.liquidations = tally.liquidations + l;
            tally.liq_errors = tally.liq_errors + e;
        } else if ctx.force_realize && tally.force_closes < FORCE_REALIZE_BUDGET_PER_CRANK {
            self.enter_risk_reduction_only_mode();
            let (n, e): (u16, u16) = self.sweep_force_realize(
                idx,
                ctx.now_slot,
                ctx.oracle_price,
            );
            tally.force_closes = tally.force_closes + n;
            tally.force_errors = tally.force_errors + e;
        }
        self.sweep_socialize(idx, ctx.effective_slot, ctx.epoch);
        self.sweep_lp_max(idx);
        tally
    }

    /// Visits accounts in turn; returns where it stopped, what was done, and whether the sweep
    /// is complete.
    fn visit_accounts(&mut self, ctx: CrankContext) -> (r: (usize, CrankTally, bool))
        requires
            old(self).wf(),
        ensures
            ({
                let w = old(self)@.swept(
                    old(self)@.crank_cursor as int,
                    0,
                    0,
                    ctx,
                    (Tally { liquidations: 0, liq_errors: 0, force_closes: 0, force_errors: 0 }),
                );
                final(self)@ == w.0 && r.0 == w.1 && r.1@ == w.2 && r.2 == w.3
            }),
            r.0 < MAX_ACCOUNTS,
            final(self).wf(),
    {
        let mut tally: CrankTally = CrankTally {
            liquidations: 0,
            liq_errors: 0,
            force_closes: 0,
            force_errors: 0,
        };
        let mut idx: usize = self.crank_cursor as usize;
        let mut accounts_processed: u16 = 0;
        let mut slots_scanned: usize = 0;
        let ghost all = self@.swept(idx as int, 0, 0, ctx, tally@);
        while accounts_processed < ACCOUNTS_PER_CRANK && slots_scanned < MAX_ACCOUNTS
            invariant
                self.wf(),
                idx < MAX_ACCOUNTS,
                slots_scanned <= MAX_ACCOUNTS,
                accounts_processed <= slots_scanned,
                accounts_processed <= ACCOUNTS_PER_CRANK,
                tally.liq_errors <= slots_scanned,
                tally.force_errors <= slots_scanned,
                self@.swept(
                    idx as int,
                    slots_scanned as int,
                    accounts_processed as int,
                    ctx,
                    tally@,
                ) == all,
                all == old(self)@.swept(
                    old(self)@.crank_cursor as int,
                    0,
                    0,
                    ctx,
                    (Tally { liquidations: 0, liq_errors: 0, force_closes: 0, force_errors: 0 }),
                ),
            decreases MAX_ACCOUNTS - slots_scanned,
        {
            slots_scanned += 1;
            if self.is_used(idx) {
                accounts_processed += 1;
                tally = self.visit(idx, ctx, tally);
            }
            idx = Self::next_index(idx);
            if idx == self.sweep_start_idx as usize {
                return (idx, tally, true);
            }
        }
        (idx, tally, false)
    }

    /// Settles pending amounts at the end of a sweep: the insurance fund covers what it may
    /// spend, and the rest is accumulated as uncovered. Nothing is pending afterwards.
    pub fn finalize_pending_after_window(&mut self)
        requires
            old(self).wf(),
        ensures
            final(self)@ == old(self)@.pending_finalized(),
            !final(self)@.has_pending(),
            final(self).wf(),
    {
        if self.pending_profit_to_fund.is_zero() && self.pending_unpaid_loss.is_zero() {
            return;
        }
        self.cover_pending();
        if !self.pending_profit_to_fund.is_zero() || !self.pending_unpaid_loss.is_zero() {
            self.loss_accum = self.loss_accum.saturating_add_u128(
                self.pending_profit_to_fund,
            ).saturating_add_u128(self.pending_unpaid_loss);
            self.pending_profit_to_fund = U128::zero();
            self.pending_unpaid_loss = U128::zero();
            self.enter_risk_reduction_only_mode();
        }
    }

    /// Covers pending amounts from insurance that may be spent, profit first.
    fn cover_pending(&mut self)
        requires
            old(self).wf(),
        ensures
            final(self)@ == old(self)@.pending_covered(),
            final(self).wf(),
    {
        let spendable: u128 = self.insurance_spendable_unreserved();
        if spendable == 0 {
            return;
        }
        if !self.pending_profit_to_fund.is_zero() {
            let spend_profit: u128 = min_u128(spendable, self.pending_profit_to_fund.get());
            self.insurance_fund.balance = self.insurance_fund.balance.saturating_sub(spend_profit);
            self.pending_profit_to_fund = self.pending_profit_to_fund.saturating_sub(spend_profit);
            self.recompute_warmup_insurance_reserved();
        }
        assert(self@ =~= old(self)@.pending_profit_covered());
        let spendable_after: u128 = self.insurance_spendable_unreserved();
        let spend_loss: u128 = min_u128(spendable_after, self.pending_unpaid_loss.get());
        self.insurance_fund.balance = self.insurance_fund.balance.saturating_sub(spend_loss);
        self.pending_unpaid_loss = self.pending_unpaid_loss.saturating_sub(spend_loss);
        self.recompute_warmup_insurance_reserved();
    }

    /// Ends a sweep if it is complete, and collects dust; returns how many accounts were
    /// collected.
    fn close_crank(&mut self, stop: usize, sweep_complete: bool, ctx: CrankContext) -> (r: u32)
        requires
            old(self).wf(),
            stop < MAX_ACCOUNTS,
        ensures
            final(self)@ == old(self)@.crank_closed(stop as int, sweep_complete, ctx).0,
            r == old(self)@.crank_closed(stop as int, sweep_complete, ctx).1,
            final(self).wf(),
    {
        self.crank_cursor = stop as u16;
        if sweep_complete {
            self.finalize_pending_after_window();
            self.last_full_sweep_completed_slot = ctx.now_slot;
            self.lp_max_abs = self.lp_max_abs_sweep;
            self.sweep_start_idx = self.crank_cursor;
        }
        if ctx.force_realize {
            self.recompute_warmup_insurance_reserved();
        }
        self.garbage_collect_dust()
    }

    /// Notes the start of a sweep, if the cursor is where the last one ended.
    fn begin_sweep(&mut self, now_slot: u64)
        requires
            old(self).wf(),
        ensures
            final(self)@ == old(self)@.sweep_begun(now_slot),
            final(self).wf(),
    {
        if self.crank_cursor == self.sweep_start_idx {
            self.last_full_sweep_start_slot = now_slot;
            self.pending_epoch = self.pending_epoch.wrapping_add(1);
            self.lp_max_abs_sweep = U128::zero();
        }
    }

    /// Advances the engine: accrues funding, settles the caller's fees at half price, visits
    /// the next accounts of the sweep, and collects dust.
    pub fn keeper_crank(
        &mut self,
        caller_idx: u16,
        now_slot: u64,
        oracle_price: u64,
        funding_rate_bps_per_slot: i64,
        allow_panic: bool,
    ) -> (r: Result<CrankOutcome, RiskError>)
        requires
            old(self).wf(),
        ensures
            final(self)@ == old(self)@.keeper_crank(
                caller_idx as int,
                now_slot,
                oracle_price,
                funding_rate_bps_per_slot,
                allow_panic,
            ).0,
            r == old(self)@.keeper_crank(
                caller_idx as int,
                now_slot,
                oracle_price,
                funding_rate_bps_per_slot,
                allow_panic,
            ).1,
            final(self).wf(),
    {
        if oracle_price == 0 || oracle_price > MAX_ORACLE_PRICE {
            return Err(RiskError::Overflow);
        }
        self.current_slot = now_slot;
        self.begin_sweep(now_slot);
        self.accrue_funding(now_slot, oracle_price, funding_rate_bps_per_slot)?;
        let advanced: bool = now_slot > self.last_crank_slot;
        if advanced {
            self.last_crank_slot = now_slot;
        }
        let (slots_forgiven, caller_settle_ok): (u64, bool) = self.charge_caller(
            caller_idx,
            now_slot,
            oracle_price,
        );
        let ctx: CrankContext = CrankContext {
            now_slot,
            oracle_price,
            epoch: self.pending_epoch,
            effective_slot: self.effective_warmup_slot(),
            force_realize: self.force_realize_active(),
        };
        let (stop, tally, sweep_complete): (usize, CrankTally, bool) = self.visit_accounts(ctx);
        let num_gc_closed: u32 = self.close_crank(stop, sweep_complete, ctx);
        let force_realize_needed: bool = self.force_realize_active();
        let panic_needed: bool = !force_realize_needed && (!self.loss_accum.is_zero()
            || self.risk_reduction_only) && allow_panic && !self.total_open_interest.is_zero();
        Ok(
            CrankOutcome {
                advanced,
                slots_forgiven,
                caller_settle_ok,
                force_realize_needed,
                panic_needed,
                num_liquidations: tally.liquidations as u32,
                num_liq_errors: tally.liq_errors,
                num_gc_closed,
                force_realize_closed: tally.force_closes,
                force_realize_errors: tally.force_errors,
                last_cursor: self.crank_cursor,
                sweep_complete,
            },
        )
    }
}

} // verus!
