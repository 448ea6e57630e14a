//! What a sweep does to the accounts that it visits: liquidation, forced closes, and bounded
//! socialization of pending profit and loss.
use vstd::prelude::*;

use crate::math::{clamp_pos_i128, max_int, min_int, min_u128, sat_u, u128_as_i128};
use crate::state::{EngineState, RiskEngine};
use crate::types::{AccountKind, DeferredAdl, FORCE_REALIZE_BUDGET_PER_CRANK, MAX_ACCOUNTS};
use crate::wide::U128;

verus! {

broadcast use crate::wide::group_wide;

/// Mask that wraps an index into the slab.
pub const ACCOUNT_IDX_MASK: usize = 4095;

/// The slot after `i`, with the first after the last.
pub open spec fn next_slot(i: int) -> int {
    (i + 1) % (MAX_ACCOUNTS as int)
}

/// A counter one higher, up to its limit.
pub open spec fn count_up(n: u64) -> u64 {
    if n == u64::MAX {
        n
    } else {
        (n + 1) as u64
    }
}

pub open spec fn abs_int(v: int) -> int {
    if v < 0 {
        -v
    } else {
        v
    }
}

impl EngineState {
    /// Pending loss increased by `loss`.
    pub open spec fn with_pending_loss(self, loss: int) -> EngineState {
        EngineState {
            pending_unpaid_loss: U128::of(sat_u(self.pending_unpaid_loss@ + loss)),
            ..self
        }
    }

    /// A liquidation of account `idx` booked: profit and loss become pending, and an account
    /// with a profit is exempt from funding it in this sweep.
    pub open spec fn with_liquidation_booked(self, idx: int, d: DeferredAdl, epoch: u16) -> EngineState {
        EngineState {
            lifetime_liquidations: count_up(self.lifetime_liquidations),
            pending_profit_to_fund: U128::of(
                sat_u(self.pending_profit_to_fund@ + d.profit_to_fund),
            ),
            pending_exclude_epoch: if d.excluded {
                self.pending_exclude_epoch.update(idx, epoch)
            } else {
                self.pending_exclude_epoch
            },
            ..self
        }.with_pending_loss(d.unpaid_loss as int)
    }

    /// Liquidation of account `idx` in a sweep. Yields the state, the number of liquidations
    /// and that of errors.
    pub open spec fn sweep_liquidate(self, idx: int, now: u64, oracle: u64, epoch: u16) -> (
        EngineState,
        int,
        int,
    ) {
        if self.accounts[idx].position_size@ == 0 {
            (self, 0, 0)
        } else {
            match self.liquidate_deferred(idx, now, oracle) {
                (s, Ok((true, d))) => (s.with_liquidation_booked(idx, d, epoch), 1, 0),
                (s, Ok((false, _))) => (s, 0, 0),
                (s, Err(_)) => (s.in_risk_reduction(), 0, 1),
            }
        }
    }

    /// Whether account `idx` has a position but no equity, or only a dust position.
    pub open spec fn hopeless(self, idx: int, oracle: u64) -> bool {
        let a = self.accounts[idx];
        a.position_size@ != 0 && (a.equity_mtm(oracle as int) == 0 || abs_int(
            a.position_size@ as int,
        ) < self.params.min_liquidation_abs@)
    }

    /// The position of account `idx` closed by force if it is hopeless.
    pub open spec fn sweep_hopeless(self, idx: int, oracle: u64) -> EngineState {
        if self.hopeless(idx, oracle) {
            let (s, (_, d)) = self.force_close(idx, oracle);
            EngineState {
                lifetime_force_realize_closes: count_up(s.lifetime_force_realize_closes),
                ..s
            }.with_pending_loss(d.unpaid_loss as int)
        } else {
            self
        }
    }

    /// The position of account `idx` settled and closed by force. Both its unpaid loss and its
    /// profit become pending loss. Yields the state, the number of closes and that of errors.
    pub open spec fn sweep_force_realize(self, idx: int, now: u64, oracle: u64) -> (
        EngineState,
        int,
        int,
    ) {
        if self.accounts[idx].position_size@ == 0 {
            (self, 0, 0)
        } else {
            match self.touch_account_for_force_realize(idx, now, oracle) {
                (s1, Err(_)) => (s1.in_risk_reduction(), 0, 1),
                (s1, Ok(_)) => {
                    let (s2, (mark, d)) = s1.force_close(idx, oracle);
                    (
                        EngineState {
                            lifetime_force_realize_closes: count_up(
                                s2.lifetime_force_realize_closes,
                            ),
                            ..s2
                        }.with_pending_loss(d.unpaid_loss as int).with_pending_loss(
                            max_int(mark as int, 0),
                        ),
                        1,
                        0,
                    )
                },
            }
        }
    }

    /// What account `idx` contributes to pending profit: nothing if it is exempt in this sweep.
    pub open spec fn profit_take(self, idx: int, slot: u64, epoch: u16) -> int {
        if self.pending_exclude_epoch[idx] == epoch {
            0
        } else {
            min_int(
                self.accounts[idx].unwrapped_pnl(slot),
                self.pending_profit_to_fund@ as int,
            )
        }
    }

    /// What account `idx` contributes to pending loss.
    pub open spec fn loss_take(self, idx: int, slot: u64, epoch: u16) -> int {
        min_int(
            self.accounts[idx].unwrapped_pnl(slot) - self.profit_take(idx, slot, epoch),
            self.pending_unpaid_loss@ as int,
        )
    }

    /// Pending profit and loss taken off the unmatured profit of account `idx`.
    pub open spec fn sweep_socialize(self, idx: int, slot: u64, epoch: u16) -> EngineState {
        let t1 = self.profit_take(idx, slot, epoch);
        let t2 = self.loss_take(idx, slot, epoch);
        EngineState {
            pending_profit_to_fund: U128::of(self.pending_profit_to_fund@ - t1),
            pending_unpaid_loss: U128::of(self.pending_unpaid_loss@ - t2),
            ..self
        }.with_account(idx, self.accounts[idx].profit_cut(t1 + t2))
    }

    /// The largest position of a liquidity provider noted for the current sweep.
    pub open spec fn sweep_lp_max(self, idx: int) -> EngineState {
        let a = self.accounts[idx];
        if a.kind == AccountKind::LP {
            EngineState {
                lp_max_abs_sweep: U128::of(
                    max_int(
                        self.lp_max_abs_sweep@ as int,
                        abs_int(a.position_size@ as int),
                    ),
                ),
                ..self
            }
        } else {
            self
        }
    }

    /// Pending amounts socialized over `len` slots from slot `i` on.
    pub open spec fn socialize_window(self, i: int, len: int, slot: u64, epoch: u16) -> EngineState
        decreases len,
    {
        if len <= 0 || !self.has_pending() {
            self
        } else {
            (if self.is_used(i) {
                self.sweep_socialize(i, slot, epoch)
            } else {
                self
            }).socialize_window(next_slot(i), len - 1, slot, epoch)
        }
    }

    /// Positions closed by force over `len` slots from slot `i` on, up to the budget. Yields
    /// the state, the number of closes and that of errors.
    pub open spec fn force_realize_window(
        self,
        i: int,
        len: int,
        now: u64,
        oracle: u64,
        closed: int,
        errors: int,
    ) -> (EngineState, int, int)
        decreases len,
    {
        if len <= 0 || closed >= FORCE_REALIZE_BUDGET_PER_CRANK {
            (self, closed, errors)
        } else if !self.is_used(i) {
            self.force_realize_window(next_slot(i), len - 1, now, oracle, closed, errors)
        } else {
            let (s, c, e) = self.sweep_force_realize(i, now, oracle);
            s.force_realize_window(next_slot(i), len - 1, now, oracle, closed + c, errors + e)
        }
    }

    /// Accounts liquidated over `len` slots from slot `i` on, up to `max_liqs` of them. Yields
    /// the state and the numbers of accounts checked, of liquidations and of errors.
    pub open spec fn liquidate_window(
        self,
        i: int,
        len: int,
        now: u64,
        oracle: u64,
        max_liqs: int,
        n: (int, int, int),
    ) -> (EngineState, (int, int, int))
        decreases len,
    {
        if len <= 0 || n.1 >= max_liqs {
            (self, n)
        } else if !self.is_used(i) {
            self.liquidate_window(next_slot(i), len - 1, now, oracle, max_liqs, n)
        } else {
            let (s, l, e) = self.sweep_liquidate(i, now, oracle, self.pending_epoch);
            s.sweep_hopeless(i, oracle).liquidate_window(
                next_slot(i),
                len - 1,
                now,
                oracle,
                max_liqs,
                (n.0 + 1, n.1 + l, n.2 + e),
            )
        }
    }
}

impl RiskEngine {
    /// The slot after `idx`, with the first after the last.
    pub(crate) fn next_index(idx: usize) -> (r: usize)
        requires
            idx < MAX_ACCOUNTS,
        ensures
            r == next_slot(idx as int),
    {
        if idx + 1 == MAX_ACCOUNTS {
            0
        } else {
            idx + 1
        }
    }

    /// An index wrapped into the slab.
    pub(crate) fn wrap_index(idx: usize) -> (r: usize)
        ensures
            r == idx as int % (MAX_ACCOUNTS as int),
            r < MAX_ACCOUNTS,
    {
        assert(idx & 4095 == idx % 4096) by (bit_vector);
        idx & ACCOUNT_IDX_MASK
    }

    /// Liquidates an account in a sweep; returns the number of liquidations and of errors.
    pub(crate) fn sweep_liquidate(
        &mut self,
        idx: usize,
        now_slot: u64,
        oracle_price: u64,
        epoch: u16,
    ) -> (r: (u16, u16))
        requires
            old(self).wf(),
            idx < MAX_ACCOUNTS,
        ensures
            final(self)@ == old(self)@.sweep_liquidate(
                idx as int,
                now_slot,
                oracle_price,
                epoch,
            ).0,
            r.0 == old(self)@.sweep_liquidate(idx as int, now_slot, oracle_price, epoch).1,
            r.1 == old(self)@.sweep_liquidate(idx as int, now_slot, oracle_price, epoch).2,
            final(self).wf(),
    {
        if self.accounts[idx].position_size.is_zero() {
            return (0, 0);
        }
        match self.liquidate_at_oracle_deferred_adl(idx as u16, now_slot, oracle_price) {
            Ok((true, deferred)) => {
                self.lifetime_liquidations = self.lifetime_liquidations.saturating_add(1);
                self.pending_profit_to_fund = self.pending_profit_to_fund.saturating_add(
                    deferred.profit_to_fund,
                );
                self.pending_unpaid_loss = self.pending_unpaid_loss.saturating_add(
                    deferred.unpaid_loss,
                );
                if deferred.excluded {
                    self.pending_exclude_epoch[idx] = epoch;
                }
                (1, 0)
            },
            Ok((false, _)) => (0, 0),
            Err(_) => {
                self.enter_risk_reduction_only_mode();
                (0, 1)
            },
        }
    }

    /// Closes by force a position without equity or of dust size.
    pub(crate) fn sweep_hopeless(&mut self, idx: usize, oracle_price: u64)
        requires
            old(self).wf(),
            idx < MAX_ACCOUNTS,
        ensures
            final(self)@ == old(self)@.sweep_hopeless(idx as int, oracle_price),
            final(self).wf(),
    {
        if self.accounts[idx].position_size.is_zero() {
            return;
        }
        let equity: u128 = self.account_equity_mtm_at_oracle(&self.accounts[idx], oracle_price);
        let abs_pos: u128 = self.accounts[idx].position_size.unsigned_abs();
        let is_dust: bool = abs_pos < self.params.min_liquidation_abs.get();
        if equity == 0 || is_dust {
            match self.force_close_position_deferred(idx, oracle_price) {
                Ok((_, deferred)) => {
                    self.lifetime_force_realize_closes =
                    self.lifetime_force_realize_closes.saturating_add(1);
                    self.pending_unpaid_loss = self.pending_unpaid_loss.saturating_add(
                        deferred.unpaid_loss,
                    );
                },
                Err(_) => {},
            }
        }
    }

    /// Settles an account and closes its position by force; returns the number of closes and
    /// of errors.
    pub(crate) fn sweep_force_realize(&mut self, idx: usize, now_slot: u64, oracle_price: u64) -> (r:
        (u16, u16))
        requires
            old(self).wf(),
            idx < MAX_ACCOUNTS,
        ensures
            final(self)@ == old(self)@.sweep_force_realize(idx as int, now_slot, oracle_price).0,
            r.0 == old(self)@.sweep_force_realize(idx as int, now_slot, oracle_price).1,
            r.1 == old(self)@.sweep_force_realize(idx as int, now_slot, oracle_price).2,
            final(self).wf(),
    {
        if self.accounts[idx].position_size.is_zero() {
            return (0, 0);
        }
        if self.touch_account_for_force_realize(idx as u16, now_slot, oracle_price).is_err() {
            self.enter_risk_reduction_only_mode();
            return (0, 1);
        }
        match self.force_close_position_deferred(idx, oracle_price) {
            Ok((mark_pnl, deferred)) => {
                self.lifetime_force_realize_closes =
                self.lifetime_force_realize_closes.saturating_add(1);
                self.pending_unpaid_loss = self.pending_unpaid_loss.saturating_add(
                    deferred.unpaid_loss,
                );
                self.pending_unpaid_loss = self.pending_unpaid_loss.saturating_add(
                    clamp_pos_i128(mark_pnl),
                );
                (1, 0)
            },
            Err(_) => (0, 1),
        }
    }

    /// Takes pending profit and loss off the unmatured profit of an account.
    pub(crate) fn sweep_socialize(&mut self, idx: usize, effective_slot: u64, epoch: u16)
        requires
            old(self).wf(),
            idx < MAX_ACCOUNTS,
        ensures
            final(self)@ == old(self)@.sweep_socialize(idx as int, effective_slot, epoch),
            final(self).wf(),
    {
        let unwrapped: u128 = self.compute_unwrapped_pnl_at(&self.accounts[idx], effective_slot);
        let profit_take: u128 = if self.pending_exclude_epoch[idx] != epoch {
            min_u128(unwrapped, self.pending_profit_to_fund.get())
        } else {
            0
        };
        let loss_take: u128 = min_u128(unwrapped - profit_take, self.pending_unpaid_loss.get());
        self.accounts[idx].pnl = self.accounts[idx].pnl.saturating_sub(
            u128_as_i128(profit_take + loss_take),
        );
        self.pending_profit_to_fund = self.pending_profit_to_fund.saturating_sub(profit_take);
        self.pending_unpaid_loss = self.pending_unpaid_loss.saturating_sub(loss_take);
    }

    /// Notes the position of a liquidity provider for the current sweep.
    pub(crate) fn sweep_lp_max(&mut self, idx: usize)
        requires
            old(self).wf(),
            idx < MAX_ACCOUNTS,
        ensures
            final(self)@ == old(self)@.sweep_lp_max(idx as int),
            final(self).wf(),
    {
        if self.accounts[idx].is_lp() {
            let abs_pos: u128 = self.accounts[idx].position_size.unsigned_abs();
            self.lp_max_abs_sweep = self.lp_max_abs_sweep.max(U128::new(abs_pos));
        }
    }

    /// Liquidates over a window of slots; returns the numbers of accounts checked, of
    /// liquidations and of errors.
    pub fn scan_and_liquidate_window(
        &mut self,
        now_slot: u64,
        oracle_price: u64,
        start: usize,
        max_checks: u16,
        max_liqs: u16,
    ) -> (r: (u16, u16, u16))
        requires
            old(self).wf(),
        ensures
            ({
                let w = old(self)@.liquidate_window(
                    start as int % (MAX_ACCOUNTS as int),
                    min_int(max_checks as int, MAX_ACCOUNTS as int),
                    now_slot,
                    oracle_price,
                    max_liqs as int,
                    (0, 0, 0),
                );
                final(self)@ == w.0 && r.0 == w.1.0 && r.1 == w.1.1 && r.2 == w.1.2
            }),
            final(self).wf(),
    {
        let mut checked: u16 = 0;
        let mut liquidated: u16 = 0;
        let mut errors: u16 = 0;
        let mut left: usize = if max_checks as usize > MAX_ACCOUNTS {
            MAX_ACCOUNTS
        } else {
            max_checks as usize
        };
        let mut idx: usize = Self::wrap_index(start);
        let ghost all = old(self)@.liquidate_window(
            idx as int,
            left as int,
            now_slot,
            oracle_price,
            max_liqs as int,
            (0, 0, 0),
        );
        while left > 0 && liquidated < max_liqs
            invariant
                self.wf(),
                idx < MAX_ACCOUNTS,
                left <= MAX_ACCOUNTS,
                checked + left <= MAX_ACCOUNTS,
                liquidated <= checked,
                errors <= checked,
                self@.liquidate_window(
                    idx as int,
                    left as int,
                    now_slot,
                    oracle_price,
                    max_liqs as int,
                    (checked as int, liquidated as int, errors as int),
                ) == all,
            decreases left,
        {
            if self.is_used(idx) {
                checked += 1;
                let epoch: u16 = self.pending_epoch;
                let (l, e): (u16, u16) = self.sweep_liquidate(idx, now_slot, oracle_price, epoch);
                self.sweep_hopeless(idx, oracle_price);
                liquidated += l;
                errors += e;
            }
            idx = Self::next_index(idx);
            left -= 1;
        }
        (checked, liquidated, errors)
    }

    /// Closes positions by force over a window of slots while the insurance is at the floor;
    /// returns the numbers of closes and of errors, the latter up to the limit of its type.
    pub fn force_realize_step_window(
        &mut self,
        now_slot: u64,
        oracle_price: u64,
        start: usize,
        len: usize,
    ) -> (r: (u16, u16))
        requires
            old(self).wf(),
        ensures
            ({
                let s0 = old(self)@.at_slot(now_slot);
                let w = s0.in_risk_reduction().force_realize_window(
                    start as int % (MAX_ACCOUNTS as int),
                    len as int,
                    now_slot,
                    oracle_price,
                    0,
                    0,
                );
                if s0.at_floor() {
                    final(self)@ == w.0.with_reserve() && r.0 == w.1 && r.1 == min_int(
                        w.2,
                        u16::MAX as int,
                    )
                } else {
                    final(self)@ == s0 && r.0 == 0 && r.1 == 0
                }
            }),
            final(self).wf(),
    {
        self.current_slot = now_slot;
        if !self.force_realize_active() {
            return (0, 0);
        }
        self.enter_risk_reduction_only_mode();
        let mut closed: u16 = 0;
        let mut errors: u16 = 0;
        let mut left: usize = len;
        let mut idx: usize = Self::wrap_index(start);
        let ghost mut count: int = 0;
        let ghost all = self@.force_realize_window(
            idx as int,
            left as int,
            now_slot,
            oracle_price,
            0,
            0,
        );
        while left > 0 && closed < FORCE_REALIZE_BUDGET_PER_CRANK
            invariant
                self.wf(),
                idx < MAX_ACCOUNTS,
                closed <= FORCE_REALIZE_BUDGET_PER_CRANK,
                count >= 0,
                errors == min_int(count, u16::MAX as int),
                self@.force_realize_window(
                    idx as int,
                    left as int,
                    now_slot,
                    oracle_price,
                    closed as int,
                    count,
                ) == all,
            decreases left,
        {
            if self.is_used(idx) {
                let (c, e): (u16, u16) = self.sweep_force_realize(idx, now_slot, oracle_price);
                closed += c;
                errors = errors.saturating_add(e);
                proof {
                    count = count + e;
                }
            }
            idx = Self::next_index(idx);
            left -= 1;
        }
        self.recompute_warmup_insurance_reserved();
        (closed, errors)
    }

    /// Socializes pending profit and loss over a window of slots.
    pub fn socialization_step(&mut self, start: usize, len: usize)
        requires
            old(self).wf(),
        ensures
            final(self)@ == old(self)@.socialize_window(
                start as int % (MAX_ACCOUNTS as int),
                len as int,
                old(self)@.effective_slot(),
                old(self)@.pending_epoch,
            ),
            final(self).wf(),
    {
        let epoch: u16 = self.pending_epoch;
        let effective_slot: u64 = self.effective_warmup_slot();
        let mut left: usize = len;
        let mut idx: usize = Self::wrap_index(start);
        let ghost all = self@.socialize_window(idx as int, left as int, effective_slot, epoch);
        while left > 0 && !(self.pending_profit_to_fund.is_zero()
            && self.pending_unpaid_loss.is_zero())
            invariant
                self.wf(),
                idx < MAX_ACCOUNTS,
                self@.socialize_window(idx as int, left as int, effective_slot, epoch) == all,
            decreases left,
        {
            if self.is_used(idx) {
                self.sweep_socialize(idx, effective_slot, epoch);
            }
            idx = Self::next_index(idx);
            left -= 1;
        }
    }
}

} // verus!
