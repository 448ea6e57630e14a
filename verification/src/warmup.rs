//! Warmup: profit becomes capital only over time, and only as far as paid losses and the
//! insurance fund back it.
use vstd::prelude::*;

use crate::math::{
    add_u128, clamp_pos_i128, max_int, min_int, min_u128, min_u64, monus, mul_u128,
    neg_i128_to_u128, sat_i, sat_u, sub_u128, u128_as_i128, wrap_i,
};
use crate::state::{EngineState, RiskEngine};
use crate::types::{Account, RiskError, MAX_ACCOUNTS};
use crate::wide::{I128, U128};

verus! {

broadcast use crate::wide::group_wide;

impl Account {
    /// Profit that is not reserved.
    pub open spec fn available_pnl(self) -> int {
        monus(max_int(self.pnl@ as int, 0), self.reserved_pnl as int)
    }

    /// How much has matured by `slot`.
    pub open spec fn warmed_cap(self, slot: u64) -> int {
        sat_u(
            self.warmup_slope_per_step@ * monus(slot as int, self.warmup_started_at_slot as int),
        )
    }

    /// Profit that has matured by `slot`.
    pub open spec fn matured_pnl(self, slot: u64) -> int {
        min_int(self.available_pnl(), self.warmed_cap(slot))
    }

    /// Profit that is neither reserved nor matured at `slot`; it is what haircuts apply to.
    pub open spec fn unwrapped_pnl(self, slot: u64) -> int {
        self.available_pnl() - self.matured_pnl(slot)
    }

    /// Part of a loss that the capital can pay.
    pub open spec fn payable_loss(self) -> int {
        if self.pnl@ < 0 {
            min_int(-(self.pnl@ as int), self.capital@ as int)
        } else {
            0
        }
    }

    /// The account after its capital has paid what it can of its loss.
    pub open spec fn loss_paid(self) -> Account {
        Account {
            capital: U128::of(self.capital@ - self.payable_loss()),
            pnl: I128::of(sat_i(self.pnl@ + wrap_i(self.payable_loss()))),
            ..self
        }
    }

    /// The account after `x` of its profit became capital.
    pub open spec fn profit_converted(self, x: int) -> Account {
        Account {
            pnl: I128::of(sat_i(self.pnl@ - wrap_i(x))),
            capital: U128::of(sat_u(self.capital@ + x)),
            ..self
        }
    }
}

/// Rate at which a profit vests: evenly over the period, but at least one unit per slot;
/// at once where there is no period.
pub open spec fn warmup_slope(pnl: int, period: int) -> int {
    let profit = max_int(pnl, 0);
    if period == 0 {
        profit
    } else if profit > 0 {
        max_int(1, profit / period)
    } else {
        0
    }
}

impl EngineState {
    /// The slot up to which warmup has progressed.
    pub open spec fn effective_slot(self) -> u64 {
        if self.warmup_paused && self.warmup_pause_slot < self.current_slot {
            self.warmup_pause_slot
        } else {
            self.current_slot
        }
    }

    /// The vesting rate of account `idx` set anew from its profit; its clock restarts unless
    /// warmup is paused.
    pub open spec fn update_warmup_slope(self, idx: int) -> (EngineState, Result<(), RiskError>) {
        if !self.is_used(idx) {
            (self, Err(RiskError::AccountNotFound))
        } else {
            let a = self.accounts[idx];
            (
                self.with_account(
                    idx,
                    Account {
                        warmup_slope_per_step: U128::of(
                            warmup_slope(a.pnl@ as int, self.params.warmup_period_slots as int),
                        ),
                        warmup_started_at_slot: if self.warmup_paused {
                            a.warmup_started_at_slot
                        } else {
                            self.current_slot
                        },
                        ..a
                    },
                ),
                Ok(()),
            )
        }
    }

    /// A loss of account `idx` paid from its capital, as far as that goes.
    pub open spec fn with_loss_paid(self, idx: int) -> EngineState {
        let a = self.accounts[idx];
        EngineState {
            warmed_neg_total: U128::of(sat_u(self.warmed_neg_total@ + a.payable_loss())),
            ..self
        }.with_account(idx, a.loss_paid())
    }

    /// Profit that account `idx` may convert now: what has matured, as far as the budget
    /// goes.
    pub open spec fn convertible(self, idx: int) -> int {
        min_int(
            self.accounts[idx].matured_pnl(self.effective_slot()),
            self.warmup_budget(),
        )
    }

    /// Matured profit of account `idx` turned into capital.
    pub open spec fn with_profit_converted(self, idx: int) -> EngineState {
        let x = self.convertible(idx);
        EngineState {
            warmed_pos_total: U128::of(sat_u(self.warmed_pos_total@ + x)),
            ..self
        }.with_account(idx, self.accounts[idx].profit_converted(x))
    }

    /// The clock of account `idx` moved to the present, and the reserve brought up to date.
    pub open spec fn with_warmup_marked(self, idx: int) -> EngineState {
        self.with_account(
            idx,
            Account {
                warmup_started_at_slot: self.effective_slot(),
                ..self.accounts[idx]
            },
        ).with_reserve()
    }

    /// Losses of account `idx` are paid from its capital at once, and matured profit becomes
    /// capital as far as the budget goes. No profit is converted, and the account's clock
    /// stands still, while anything is waiting to be socialized.
    pub open spec fn settle_warmup_to_capital(self, idx: int) -> (
        EngineState,
        Result<(), RiskError>,
    ) {
        if !self.is_used(idx) {
            (self, Err(RiskError::AccountNotFound))
        } else {
            let paid = self.with_loss_paid(idx);
            let a = paid.accounts[idx];
            let gain = a.pnl@ > 0 && a.warmed_cap(self.effective_slot()) > 0;
            if gain && self.has_pending() {
                (paid, Err(RiskError::Unauthorized))
            } else if gain {
                (paid.with_profit_converted(idx).with_warmup_marked(idx), Ok(()))
            } else {
                (paid.with_warmup_marked(idx), Ok(()))
            }
        }
    }
}

impl Account {
    /// Pays what the capital can pay of a loss; returns what was paid.
    pub(crate) fn pay_loss(&mut self) -> (r: u128)
        ensures
            *final(self) == old(self).loss_paid(),
            r == old(self).payable_loss(),
    {
        let pnl: i128 = self.pnl.get();
        if pnl >= 0 {
            return 0;
        }
        let pay: u128 = min_u128(neg_i128_to_u128(pnl), self.capital.get());
        self.pnl = self.pnl.saturating_add(u128_as_i128(pay));
        self.capital = U128::new(sub_u128(self.capital.get(), pay));
        pay
    }
}

impl RiskEngine {
    /// The slot up to which warmup has progressed: the present, or the slot where it was
    /// paused.
    pub fn effective_warmup_slot(&self) -> (r: u64)
        ensures
            r == self@.effective_slot(),
    {
        if self.warmup_paused {
            min_u64(self.current_slot, self.warmup_pause_slot)
        } else {
            self.current_slot
        }
    }

    /// Profit of an account that may be withdrawn after warmup.
    pub fn withdrawable_pnl(&self, account: &Account) -> (r: u128)
        ensures
            r == account.matured_pnl(self@.effective_slot()),
    {
        let positive_pnl: u128 = clamp_pos_i128(account.pnl.get());
        let available_pnl: u128 = sub_u128(positive_pnl, account.reserved_pnl as u128);
        let effective_slot: u64 = self.effective_warmup_slot();
        let elapsed_slots: u64 = effective_slot.saturating_sub(account.warmup_started_at_slot);
        let warmed_up_cap: u128 = mul_u128(
            account.warmup_slope_per_step.get(),
            elapsed_slots as u128,
        );
        min_u128(available_pnl, warmed_up_cap)
    }

    /// Profit of an account that has matured by the given slot.
    pub fn compute_withdrawable_pnl_at(&self, account: &Account, effective_slot: u64) -> (r: u128)
        ensures
            r == account.matured_pnl(effective_slot),
    {
        if !account.pnl.is_positive() {
            return 0;
        }
        let positive_pnl: u128 = account.pnl.get() as u128;
        let available_pnl: u128 = sub_u128(positive_pnl, account.reserved_pnl as u128);
        let elapsed_slots: u64 = effective_slot.saturating_sub(account.warmup_started_at_slot);
        let warmed_up_cap: u128 = mul_u128(
            account.warmup_slope_per_step.get(),
            elapsed_slots as u128,
        );
        min_u128(available_pnl, warmed_up_cap)
    }

    /// Profit of an account that has matured by now.
    pub fn compute_withdrawable_pnl(&self, account: &Account) -> (r: u128)
        ensures
            r == account.matured_pnl(self@.effective_slot()),
    {
        self.compute_withdrawable_pnl_at(account, self.effective_warmup_slot())
    }

    /// Profit of an account that is neither reserved nor matured at the given slot.
    pub fn compute_unwrapped_pnl_at(&self, account: &Account, effective_slot: u64) -> (r: u128)
        ensures
            r == account.unwrapped_pnl(effective_slot),
    {
        if !account.pnl.is_positive() {
            return 0;
        }
        let positive_pnl: u128 = account.pnl.get() as u128;
        let reserved: u128 = account.reserved_pnl as u128;
        let withdrawable: u128 = self.compute_withdrawable_pnl_at(account, effective_slot);
        sub_u128(sub_u128(positive_pnl, reserved), withdrawable)
    }

    /// Profit of an account that is neither reserved nor matured now.
    pub fn compute_unwrapped_pnl(&self, account: &Account) -> (r: u128)
        ensures
            r == account.unwrapped_pnl(self@.effective_slot()),
    {
        self.compute_unwrapped_pnl_at(account, self.effective_warmup_slot())
    }

    /// Sets the vesting rate of an account from its profit.
    pub fn update_warmup_slope(&mut self, idx: u16) -> (r: Result<(), RiskError>)
        requires
            old(self).wf(),
        ensures
            final(self)@ == old(self)@.update_warmup_slope(idx as int).0,
            r == old(self)@.update_warmup_slope(idx as int).1,
            final(self).wf(),
    {
        if !self.is_used(idx as usize) {
            return Err(RiskError::AccountNotFound);
        }
        let account: &mut Account = &mut self.accounts[idx as usize];
        let positive_pnl: u128 = clamp_pos_i128(account.pnl.get());
        let slope: u128 = if self.params.warmup_period_slots > 0 {
            let base: u128 = positive_pnl / (self.params.warmup_period_slots as u128);
            if positive_pnl > 0 {
                if base > 1 {
                    base
                } else {
                    1
                }
            } else {
                0
            }
        } else {
            positive_pnl
        };
        account.warmup_slope_per_step = U128::new(slope);
        if !self.warmup_paused {
            account.warmup_started_at_slot = self.current_slot;
        }
        Ok(())
    }

    /// Pays what the capital can pay of a loss of account `i`.
    pub(crate) fn pay_loss_from_capital(&mut self, i: usize)
        requires
            old(self).wf(),
            i < MAX_ACCOUNTS,
        ensures
            final(self)@ == old(self)@.with_loss_paid(i as int),
            final(self).wf(),
    {
        let paid: u128 = self.accounts[i].pay_loss();
        self.warmed_neg_total = U128::new(add_u128(self.warmed_neg_total.get(), paid));
    }

    /// Converts matured profit of account `i` to capital within the warmup budget.
    fn convert_profit(&mut self, i: usize, cap: u128)
        requires
            old(self).wf(),
            i < MAX_ACCOUNTS,
            cap == old(self)@.accounts[i as int].warmed_cap(old(self)@.effective_slot()),
        ensures
            final(self)@ == old(self)@.with_profit_converted(i as int),
            final(self).wf(),
    {
        let positive_pnl: u128 = clamp_pos_i128(self.accounts[i].pnl.get());
        let reserved: u128 = self.accounts[i].reserved_pnl as u128;
        let avail: u128 = sub_u128(positive_pnl, reserved);
        let budget: u128 = self.warmup_budget_remaining();
        let x: u128 = min_u128(cap, min_u128(avail, budget));
        if x > 0 {
            let account: &mut Account = &mut self.accounts[i];
            account.pnl = account.pnl.saturating_sub(u128_as_i128(x));
            account.capital = U128::new(add_u128(account.capital.get(), x));
            self.warmed_pos_total = U128::new(add_u128(self.warmed_pos_total.get(), x));
        }
        proof {
            assert(final(self)@ =~= old(self)@.with_profit_converted(i as int));
        }
    }

    /// Pays a loss from capital at once, and converts matured profit to capital within the
    /// warmup budget.
    pub fn settle_warmup_to_capital(&mut self, idx: u16) -> (r: Result<(), RiskError>)
        requires
            old(self).wf(),
        ensures
            final(self)@ == old(self)@.settle_warmup_to_capital(idx as int).0,
            r == old(self)@.settle_warmup_to_capital(idx as int).1,
            final(self).wf(),
    {
        if !self.is_used(idx as usize) {
            return Err(RiskError::AccountNotFound);
        }
        let i: usize = idx as usize;
        let effective_slot: u64 = self.effective_warmup_slot();
        let elapsed: u64 = effective_slot.saturating_sub(self.accounts[i].warmup_started_at_slot);
        let cap: u128 = mul_u128(
            self.accounts[i].warmup_slope_per_step.get(),
            elapsed as u128,
        );
        self.pay_loss_from_capital(i);
        if self.accounts[i].pnl.get() > 0 && cap > 0 {
            self.require_no_pending_socialization()?;
            self.convert_profit(i, cap);
        }
        self.accounts[i].warmup_started_at_slot = effective_slot;
        self.recompute_warmup_insurance_reserved();
        Ok(())
    }
}

} // verus!
