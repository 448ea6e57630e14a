//! The insurance fund, the warmup budget that it backs, and risk-reduction-only mode.
use vstd::prelude::*;

use crate::math::{add_u128, min_int, min_u128, monus, sat_u, sub_u128};
use crate::state::{EngineState, RiskEngine};
use crate::types::{InsuranceFund, OpClass, RiskError, RiskParams};
use crate::wide::U128;

verus! {

broadcast use crate::wide::group_wide;

impl EngineState {
    /// Insurance above the floor.
    pub open spec fn spendable_raw(self) -> int {
        monus(
            self.insurance_fund.balance@ as int,
            self.params.risk_reduction_threshold@ as int,
        )
    }

    /// Insurance above the floor that backs no converted profit.
    pub open spec fn spendable_unreserved(self) -> int {
        monus(self.spendable_raw(), self.warmup_insurance_reserved@ as int)
    }

    /// How much more profit may be converted to capital.
    pub open spec fn warmup_budget(self) -> int {
        monus(
            sat_u(self.warmed_neg_total@ + self.spendable_unreserved()),
            self.warmed_pos_total@ as int,
        )
    }

    /// The reserve that converted profit calls for: the part of it that no paid loss covers,
    /// as far as the insurance above the floor goes.
    pub open spec fn reserve_needed(self) -> int {
        min_int(
            monus(self.warmed_pos_total@ as int, self.warmed_neg_total@ as int),
            self.spendable_raw(),
        )
    }

    /// The state with the reserve set to what is needed.
    pub open spec fn with_reserve(self) -> EngineState {
        EngineState { warmup_insurance_reserved: U128::of(self.reserve_needed()), ..self }
    }

    /// Fees of `amount` paid into the insurance fund.
    pub open spec fn with_fee_income(self, amount: int) -> EngineState {
        EngineState {
            insurance_fund: InsuranceFund {
                balance: U128::of(sat_u(self.insurance_fund.balance@ + amount)),
                fee_revenue: U128::of(sat_u(self.insurance_fund.fee_revenue@ + amount)),
            },
            ..self
        }
    }

    /// The insurance balance changed to `balance`.
    pub open spec fn with_insurance(self, balance: int) -> EngineState {
        EngineState {
            insurance_fund: InsuranceFund {
                balance: U128::of(balance),
                ..self.insurance_fund
            },
            ..self
        }
    }

    /// Risk-reduction-only mode entered; warmup is frozen at the slot where it first was.
    pub open spec fn in_risk_reduction(self) -> EngineState {
        EngineState {
            risk_reduction_only: true,
            warmup_paused: true,
            warmup_pause_slot: if self.warmup_paused {
                self.warmup_pause_slot
            } else {
                self.current_slot
            },
            ..self
        }
    }

    /// Whether nothing is left to cover and the insurance is at the floor or above.
    pub open spec fn is_safe(self) -> bool {
        self.loss_accum@ == 0 && self.insurance_fund.balance@
            >= self.params.risk_reduction_threshold@
    }

    /// Risk-reduction-only mode left, if the engine is safe.
    pub open spec fn out_of_risk_reduction_if_safe(self) -> EngineState {
        if self.is_safe() {
            EngineState {
                risk_reduction_only: false,
                risk_reduction_mode_withdrawn: U128::of(0),
                warmup_paused: false,
                ..self
            }
        } else {
            self
        }
    }

    /// Whether profit or loss is still waiting to be socialized.
    pub open spec fn has_pending(self) -> bool {
        self.pending_profit_to_fund@ != 0 || self.pending_unpaid_loss@ != 0
    }

    /// Whether the insurance is at the floor or below.
    pub open spec fn at_floor(self) -> bool {
        self.insurance_fund.balance@ <= self.params.risk_reduction_threshold@
    }

    /// `amount` added to the vault; it covers accumulated losses first, and the rest goes to
    /// the insurance fund.
    pub open spec fn top_up_insurance_fund(self, amount: int) -> EngineState {
        let covered = min_int(amount, self.loss_accum@ as int);
        EngineState {
            vault: U128::of(sat_u(self.vault@ + amount)),
            loss_accum: U128::of(self.loss_accum@ - covered),
            ..self
        }.with_insurance(
            sat_u(self.insurance_fund.balance@ + (amount - covered)),
        ).with_reserve().out_of_risk_reduction_if_safe()
    }
}

impl RiskEngine {
    /// Blocks risk-increasing operations in risk-reduction-only mode.
    pub fn enforce_op(&self, op: OpClass) -> (r: Result<(), RiskError>)
        ensures
            r == (if self.risk_reduction_only && op == OpClass::RiskIncrease {
                Err::<(), RiskError>(RiskError::RiskReductionOnlyMode)
            } else {
                Ok(())
            }),
    {
        if !self.risk_reduction_only {
            return Ok(());
        }
        match op {
            OpClass::RiskIncrease => Err(RiskError::RiskReductionOnlyMode),
            OpClass::RiskNeutral | OpClass::RiskReduce => Ok(()),
        }
    }

    /// Enters risk-reduction-only mode and freezes warmups.
    pub fn enter_risk_reduction_only_mode(&mut self)
        ensures
            final(self)@ == old(self)@.in_risk_reduction(),
            old(self).wf() ==> final(self).wf(),
    {
        self.risk_reduction_only = true;
        if !self.warmup_paused {
            self.warmup_paused = true;
            self.warmup_pause_slot = self.current_slot;
        }
    }

    /// Leaves risk-reduction-only mode if all losses are covered and the insurance is back
    /// at the threshold.
    pub fn exit_risk_reduction_only_mode_if_safe(&mut self)
        ensures
            final(self)@ == old(self)@.out_of_risk_reduction_if_safe(),
            old(self).wf() ==> final(self).wf(),
    {
        if self.loss_accum.is_zero() {
            if self.insurance_fund.balance.get() >= self.params.risk_reduction_threshold.get() {
                self.risk_reduction_only = false;
                self.risk_reduction_mode_withdrawn = U128::zero();
                self.warmup_paused = false;
            }
        }
    }

    /// Sets the insurance floor.
    pub fn set_risk_reduction_threshold(&mut self, new_threshold: u128)
        ensures
            final(self)@ == (EngineState {
                params: RiskParams {
                    risk_reduction_threshold: U128::of(new_threshold as int),
                    ..old(self).params
                },
                ..old(self)@
            }),
            old(self).wf() ==> final(self).wf(),
    {
        self.params.risk_reduction_threshold = U128::new(new_threshold);
    }

    /// The insurance floor.
    pub fn risk_reduction_threshold(&self) -> (r: u128)
        ensures
            r == self.params.risk_reduction_threshold@,
    {
        self.params.risk_reduction_threshold.get()
    }

    /// Whether the insurance is at the threshold or below.
    pub fn force_realize_active(&self) -> (r: bool)
        ensures
            r == self@.at_floor(),
    {
        self.insurance_fund.balance.get() <= self.params.risk_reduction_threshold.get()
    }

    /// Insurance above the floor, before reservations.
    pub fn insurance_spendable_raw(&self) -> (r: u128)
        ensures
            r == self@.spendable_raw(),
    {
        let floor: u128 = self.params.risk_reduction_threshold.get();
        if self.insurance_fund.balance.get() > floor {
            self.insurance_fund.balance.get() - floor
        } else {
            0
        }
    }

    /// Insurance that may be spent: above the floor and not reserved.
    pub fn insurance_spendable_unreserved(&self) -> (r: u128)
        ensures
            r == self@.spendable_unreserved(),
    {
        self.insurance_spendable_raw().saturating_sub(self.warmup_insurance_reserved.get())
    }

    /// How much more profit may be converted to capital.
    pub fn warmup_budget_remaining(&self) -> (r: u128)
        ensures
            r == self@.warmup_budget(),
    {
        let rhs: u128 = add_u128(
            self.warmed_neg_total.get(),
            self.insurance_spendable_unreserved(),
        );
        sub_u128(rhs, self.warmed_pos_total.get())
    }

    /// Sets the reserve to what converted profit and the insurance balance call for.
    pub fn recompute_warmup_insurance_reserved(&mut self)
        ensures
            final(self)@ == old(self)@.with_reserve(),
            old(self).wf() ==> final(self).wf(),
    {
        let raw: u128 = self.insurance_spendable_raw();
        let needed: u128 = sub_u128(self.warmed_pos_total.get(), self.warmed_neg_total.get());
        self.warmup_insurance_reserved = U128::new(min_u128(needed, raw));
    }

    /// Pays `amount` of fees into the insurance fund.
    pub(crate) fn book_fee_income(&mut self, amount: u128)
        ensures
            final(self)@ == old(self)@.with_fee_income(amount as int),
            old(self).wf() ==> final(self).wf(),
    {
        self.insurance_fund.balance = self.insurance_fund.balance + amount;
        self.insurance_fund.fee_revenue = self.insurance_fund.fee_revenue + amount;
    }

    /// Refuses while profit or loss is waiting to be socialized.
    pub fn require_no_pending_socialization(&self) -> (r: Result<(), RiskError>)
        ensures
            r == (if self@.has_pending() {
                Err::<(), RiskError>(RiskError::Unauthorized)
            } else {
                Ok(())
            }),
    {
        if !self.pending_profit_to_fund.is_zero() || !self.pending_unpaid_loss.is_zero() {
            return Err(RiskError::Unauthorized);
        }
        Ok(())
    }

    /// Adds funds that cover accumulated losses and then replenish the insurance. Tells
    /// whether risk-reduction-only mode was left.
    pub fn top_up_insurance_fund(&mut self, amount: u128) -> (r: Result<bool, RiskError>)
        ensures
            final(self)@ == old(self)@.top_up_insurance_fund(amount as int),
            r == Ok::<bool, RiskError>(
                old(self)@.risk_reduction_only && !final(self)@.risk_reduction_only,
            ),
            old(self).wf() ==> final(self).wf(),
    {
        self.enforce_op(OpClass::RiskReduce)?;
        self.vault = U128::new(add_u128(self.vault.get(), amount));
        if !self.loss_accum.is_zero() {
            let loss_coverage: u128 = min_u128(amount, self.loss_accum.get());
            self.loss_accum = U128::new(sub_u128(self.loss_accum.get(), loss_coverage));
            let remaining: u128 = sub_u128(amount, loss_coverage);
            self.insurance_fund.balance = U128::new(
                add_u128(self.insurance_fund.balance.get(), remaining),
            );
        } else {
            self.insurance_fund.balance = U128::new(
                add_u128(self.insurance_fund.balance.get(), amount),
            );
        }
        self.recompute_warmup_insurance_reserved();
        let was_in_mode: bool = self.risk_reduction_only;
        self.exit_risk_reduction_only_mode_if_safe();
        Ok(was_in_mode && !self.risk_reduction_only)
    }

    /// Net position of the liquidity providers.
    pub fn get_net_lp_pos(&self) -> (r: i128)
        ensures
            r == self.net_lp_pos@,
    {
        self.net_lp_pos.get()
    }

    /// Sum of the absolute positions of the liquidity providers.
    pub fn get_lp_sum_abs(&self) -> (r: u128)
        ensures
            r == self.lp_sum_abs@,
    {
        self.lp_sum_abs.get()
    }

    /// Upper bound on the absolute positions of the liquidity providers.
    pub fn get_lp_max_abs(&self) -> (r: u128)
        ensures
            r == self.lp_max_abs@,
    {
        self.lp_max_abs.get()
    }

    /// Risk units of the liquidity providers: the largest position plus an eighth of the sum.
    pub fn compute_lp_risk_units(&self) -> (r: u128)
        ensures
            r == sat_u(self.lp_max_abs@ + self.lp_sum_abs@ / 8),
    {
        add_u128(self.lp_max_abs.get(), self.lp_sum_abs.get() / 8)
    }

    /// Advances the current slot.
    pub fn advance_slot(&mut self, slots: u64)
        ensures
            final(self)@ == (EngineState {
                current_slot: min_int(old(self).current_slot + slots, u64::MAX as int) as u64,
                ..old(self)@
            }),
            old(self).wf() ==> final(self).wf(),
    {
        self.current_slot = self.current_slot.saturating_add(slots);
    }
}

} // verus!
