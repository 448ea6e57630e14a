//! Settlement of all positions at once: the emergency settlement, and the forced realization
//! of losses when the insurance is at the floor.
use vstd::prelude::*;

use crate::adl::Exempt;
use crate::math::{
    abs_u128, add_u128, clamp_neg_i128, clamp_pos_i128, max_int, sat_add_i128, sat_i, sat_u,
};
use crate::state::{EngineState, RiskEngine};
use crate::types::{Account, DeferredAdl, OpClass, RiskError, MAX_ACCOUNTS, MAX_ORACLE_PRICE};
use crate::wide::{I128, U128};

verus! {

broadcast use crate::wide::group_wide;

impl Account {
    /// The account with a negative profit set to zero.
    pub open spec fn loss_dropped(self) -> Account {
        if self.pnl@ < 0 {
            Account { pnl: I128::of(0), ..self }
        } else {
            self
        }
    }
}

impl EngineState {
    /// The totals over liquidity providers reset, once no position is left.
    pub open spec fn with_lp_totals_reset(self) -> EngineState {
        EngineState {
            net_lp_pos: I128::of(0),
            lp_sum_abs: U128::of(0),
            lp_max_abs: U128::of(0),
            ..self
        }
    }

    /// The position of account `idx` closed at the oracle price, and a loss dropped from the
    /// account. Yields the state, the loss and the mark profit.
    pub open spec fn panic_close(self, idx: int, oracle: u64) -> (EngineState, int, int) {
        let a = self.accounts[idx];
        if a.position_size@ == 0 {
            (self, 0, 0)
        } else {
            let s = self.with_slice_closed(idx, a.size(), oracle);
            let b = s.accounts[idx];
            (
                s.with_account(idx, b.loss_dropped()),
                max_int(-(b.pnl@ as int), 0),
                a.close_pnl(a.size(), oracle),
            )
        }
    }

    /// Funding settled and positions closed from slot `i` on. Yields the state, and the loss
    /// and mark profit summed up, or the first failure.
    pub open spec fn panic_close_from(self, i: int, oracle: u64, loss: int, mark: int) -> (
        EngineState,
        Result<(u128, i128), RiskError>,
    )
        decreases MAX_ACCOUNTS - i,
    {
        if i >= MAX_ACCOUNTS {
            (self, Ok((loss as u128, mark as i128)))
        } else if !self.is_used(i) {
            self.panic_close_from(i + 1, oracle, loss, mark)
        } else {
            match self.touch_account(i) {
                (s1, Err(e)) => (s1, Err(e)),
                (s1, Ok(_)) => {
                    let (s2, l, m) = s1.panic_close(i, oracle);
                    s2.panic_close_from(i + 1, oracle, sat_u(loss + l), sat_i(mark + m))
                },
            }
        }
    }

    /// Warmup settled from slot `i` on, up to the first failure.
    pub open spec fn settle_warmup_from(self, i: int) -> (EngineState, Result<(), RiskError>)
        decreases MAX_ACCOUNTS - i,
    {
        if i >= MAX_ACCOUNTS {
            (self, Ok(()))
        } else if !self.is_used(i) {
            self.settle_warmup_from(i + 1)
        } else {
            match self.settle_warmup_to_capital(i) {
                (s1, Err(e)) => (s1, Err(e)),
                (s1, Ok(_)) => s1.settle_warmup_from(i + 1),
            }
        }
    }

    /// How a settlement of all positions begins: warmup is frozen, and nothing is pending any
    /// more.
    pub open spec fn panic_begun(self) -> EngineState {
        EngineState {
            pending_profit_to_fund: U128::of(0),
            pending_unpaid_loss: U128::of(0),
            ..self.in_risk_reduction()
        }
    }

    /// All positions closed at the oracle price; the losses, and what the mark profits do not
    /// cancel out to, are socialized; then warmup is settled.
    pub open spec fn panic_settle_all(self, oracle: u64) -> (EngineState, Result<(), RiskError>) {
        if oracle == 0 || oracle > MAX_ORACLE_PRICE {
            (self, Err(RiskError::Overflow))
        } else {
            match self.panic_begun().panic_close_from(0, oracle, 0, 0) {
                (s1, Err(e)) => (s1, Err(e)),
                (s1, Ok((loss, mark))) => match s1.with_lp_totals_reset().deleverage(
                    sat_u(loss + max_int(mark as int, 0)),
                    Exempt::Nobody,
                ) {
                    (s2, Err(e)) => (s2, Err(e)),
                    (s2, Ok(_)) => match s2.settle_warmup_from(0) {
                        (s3, Err(e)) => (s3, Err(e)),
                        (s3, Ok(_)) => (s3.with_reserve(), Ok(())),
                    },
                },
            }
        }
    }

    /// Funding settled and positions closed by force from slot `i` on. Yields the state, and
    /// the unpaid loss and mark profit summed up, or the first failure.
    pub open spec fn force_close_from(self, i: int, oracle: u64, unpaid: int, mark: int) -> (
        EngineState,
        Result<(u128, i128), RiskError>,
    )
        decreases MAX_ACCOUNTS - i,
    {
        if i >= MAX_ACCOUNTS {
            (self, Ok((unpaid as u128, mark as i128)))
        } else if !self.is_used(i) {
            self.force_close_from(i + 1, oracle, unpaid, mark)
        } else {
            match self.touch_account(i) {
                (s1, Err(e)) => (s1, Err(e)),
                (s1, Ok(_)) => {
                    let (s2, (m, d)) = s1.force_close(i, oracle);
                    s2.force_close_from(
                        i + 1,
                        oracle,
                        sat_u(unpaid + d.unpaid_loss),
                        sat_i(mark + m),
                    )
                },
            }
        }
    }

    /// All positions closed by force while the insurance is at the floor: losses are paid from
    /// capital, and what capital cannot pay is socialized as far as that succeeds.
    pub open spec fn force_realize_losses(self, oracle: u64) -> (
        EngineState,
        Result<(), RiskError>,
    ) {
        if oracle == 0 || oracle > MAX_ORACLE_PRICE {
            (self, Err(RiskError::Overflow))
        } else if !self.at_floor() {
            (self, Err(RiskError::Unauthorized))
        } else {
            match self.in_risk_reduction().force_close_from(0, oracle, 0, 0) {
                (s1, Err(e)) => (s1, Err(e)),
                (s1, Ok((unpaid, mark))) => (
                    s1.with_lp_totals_reset().deleverage(
                        sat_u(unpaid + max_int(mark as int, 0)),
                        Exempt::Nobody,
                    ).0.with_reserve(),
                    Ok(()),
                ),
            }
        }
    }
}

impl Account {
    /// Sets a negative profit to zero; returns the loss.
    fn drop_loss(&mut self) -> (r: u128)
        ensures
            *final(self) == old(self).loss_dropped(),
            r == max_int(-(old(self).pnl@ as int), 0),
    {
        let loss: u128 = clamp_neg_i128(self.pnl.get());
        if self.pnl.is_negative() {
            self.pnl = I128::zero();
        }
        loss
    }
}

impl RiskEngine {
    fn reset_lp_totals(&mut self)
        requires
            old(self).wf(),
        ensures
            final(self)@ == old(self)@.with_lp_totals_reset(),
            final(self).wf(),
    {
        self.net_lp_pos = I128::zero();
        self.lp_sum_abs = U128::zero();
        self.lp_max_abs = U128::zero();
    }

    /// Closes one position for good; returns the loss dropped and the mark profit.
    fn panic_close(&mut self, idx: usize, oracle_price: u64) -> (r: (u128, i128))
        requires
            old(self).wf(),
            idx < MAX_ACCOUNTS,
        ensures
            final(self)@ == old(self)@.panic_close(idx as int, oracle_price).0,
            r.0 == old(self)@.panic_close(idx as int, oracle_price).1,
            r.1 == old(self)@.panic_close(idx as int, oracle_price).2,
            final(self).wf(),
    {
        if self.accounts[idx].position_size.is_zero() {
            return (0, 0);
        }
        let abs_pos: u128 = abs_u128(self.accounts[idx].position_size.get());
        let mark_pnl: i128 = self.close_slice_at_oracle(idx, abs_pos, oracle_price);
        let loss: u128 = self.accounts[idx].drop_loss();
        (loss, mark_pnl)
    }

    /// Settles funding of all accounts and closes all positions; returns the losses and mark
    /// profits summed up.
    fn panic_close_all(&mut self, oracle_price: u64) -> (r: Result<(u128, i128), RiskError>)
        requires
            old(self).wf(),
        ensures
            final(self)@ == old(self)@.panic_close_from(0, oracle_price, 0, 0).0,
            r == old(self)@.panic_close_from(0, oracle_price, 0, 0).1,
            final(self).wf(),
    {
        let mut total_loss: u128 = 0;
        let mut total_mark_pnl: i128 = 0;
        let mut idx: u16 = 0;
        while (idx as usize) < MAX_ACCOUNTS
            invariant
                self.wf(),
                idx <= MAX_ACCOUNTS,
                self@.panic_close_from(
                    idx as int,
                    oracle_price,
                    total_loss as int,
                    total_mark_pnl as int,
                ) == old(self)@.panic_close_from(0, oracle_price, 0, 0),
            decreases MAX_ACCOUNTS - idx,
        {
            if self.is_used(idx as usize) {
                self.touch_account(idx)?;
                let (loss, mark_pnl): (u128, i128) = self.panic_close(idx as usize, oracle_price);
                total_loss = add_u128(total_loss, loss);
                total_mark_pnl = sat_add_i128(total_mark_pnl, mark_pnl);
            }
            idx += 1;
        }
        Ok((total_loss, total_mark_pnl))
    }

    /// Settles warmup of all accounts.
    fn settle_all_warmup(&mut self) -> (r: Result<(), RiskError>)
        requires
            old(self).wf(),
        ensures
            final(self)@ == old(self)@.settle_warmup_from(0).0,
            r == old(self)@.settle_warmup_from(0).1,
            final(self).wf(),
    {
        let mut idx: u16 = 0;
        while (idx as usize) < MAX_ACCOUNTS
            invariant
                self.wf(),
                idx <= MAX_ACCOUNTS,
                self@.settle_warmup_from(idx as int) == old(self)@.settle_warmup_from(0),
            decreases MAX_ACCOUNTS - idx,
        {
            if self.is_used(idx as usize) {
                self.settle_warmup_to_capital(idx)?;
            }
            idx += 1;
        }
        Ok(())
    }

    /// Settles all positions at the oracle price at once, socializes the losses, and settles
    /// warmup.
    pub fn panic_settle_all(&mut self, oracle_price: u64) -> (r: Result<(), RiskError>)
        requires
            old(self).wf(),
        ensures
            final(self)@ == old(self)@.panic_settle_all(oracle_price).0,
            r == old(self)@.panic_settle_all(oracle_price).1,
            final(self).wf(),
    {
        if oracle_price == 0 || oracle_price > MAX_ORACLE_PRICE {
            return Err(RiskError::Overflow);
        }
        self.enforce_op(OpClass::RiskReduce)?;
        self.enter_risk_reduction_only_mode();
        self.pending_profit_to_fund = U128::zero();
        self.pending_unpaid_loss = U128::zero();
        let (losses, total_mark_pnl): (u128, i128) = self.panic_close_all(oracle_price)?;
        self.reset_lp_totals();
        let total_loss: u128 = add_u128(losses, clamp_pos_i128(total_mark_pnl));
        self.apply_adl(total_loss)?;
        self.settle_all_warmup()?;
        self.recompute_warmup_insurance_reserved();
        Ok(())
    }

    /// Settles funding of all accounts and closes all positions by force; returns the unpaid
    /// losses and mark profits summed up.
    fn force_close_all(&mut self, oracle_price: u64) -> (r: Result<(u128, i128), RiskError>)
        requires
            old(self).wf(),
        ensures
            final(self)@ == old(self)@.force_close_from(0, oracle_price, 0, 0).0,
            r == old(self)@.force_close_from(0, oracle_price, 0, 0).1,
            final(self).wf(),
    {
        let mut unpaid_total: u128 = 0;
        let mut total_mark_pnl: i128 = 0;
        let mut idx: u16 = 0;
        while (idx as usize) < MAX_ACCOUNTS
            invariant
                self.wf(),
                idx <= MAX_ACCOUNTS,
                self@.force_close_from(
                    idx as int,
                    oracle_price,
                    unpaid_total as int,
                    total_mark_pnl as int,
                ) == old(self)@.force_close_from(0, oracle_price, 0, 0),
            decreases MAX_ACCOUNTS - idx,
        {
            if self.is_used(idx as usize) {
                self.touch_account(idx)?;
                let (mark_pnl, deferred): (i128, DeferredAdl) = self.force_close_position_deferred(
                    idx as usize,
                    oracle_price,
                )?;
                total_mark_pnl = sat_add_i128(total_mark_pnl, mark_pnl);
                unpaid_total = add_u128(unpaid_total, deferred.unpaid_loss);
            }
            idx += 1;
        }
        Ok((unpaid_total, total_mark_pnl))
    }

    /// Closes all positions by force while the insurance is at the floor, so that paid losses
    /// make room for profits to be converted.
    pub fn force_realize_losses(&mut self, oracle_price: u64) -> (r: Result<(), RiskError>)
        requires
            old(self).wf(),
        ensures
            final(self)@ == old(self)@.force_realize_losses(oracle_price).0,
            r == old(self)@.force_realize_losses(oracle_price).1,
            final(self).wf(),
    {
        if oracle_price == 0 || oracle_price > MAX_ORACLE_PRICE {
            return Err(RiskError::Overflow);
        }
        self.enforce_op(OpClass::RiskReduce)?;
        if self.insurance_fund.balance.get() > self.params.risk_reduction_threshold.get() {
            return Err(RiskError::Unauthorized);
        }
        self.enter_risk_reduction_only_mode();
        let (unpaid, total_mark_pnl): (u128, i128) = self.force_close_all(oracle_price)?;
        self.reset_lp_totals();
        let unpaid_total: u128 = add_u128(unpaid, clamp_pos_i128(total_mark_pnl));
        match self.apply_adl(unpaid_total) {
            _ => {},
        }
        self.recompute_warmup_insurance_reserved();
        Ok(())
    }
}

} // verus!
