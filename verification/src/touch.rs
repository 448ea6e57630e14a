//! Settlement of single accounts: mark-to-market and the combined touches.
use vstd::prelude::*;

use crate::math::{fits_i, sat_add_i128, sat_i};
use crate::state::{EngineState, RiskEngine};
use crate::types::{Account, RiskError, MAX_ACCOUNTS};
use crate::wide::I128;

verus! {

broadcast use crate::wide::group_wide;

impl Account {
    /// The account with its mark profit realized and the oracle price as its new entry;
    /// nothing where that is out of range.
    pub open spec fn mark_settled(self, oracle: u64) -> Option<Account> {
        match self.mark(oracle as int) {
            Some(m) if fits_i(self.pnl@ + m) => Some(
                Account { pnl: I128::of(self.pnl@ + m), entry_price: oracle, ..self },
            ),
            _ => None,
        }
    }

    /// The same with the realized profit clamped; nothing where the mark itself is out of
    /// range.
    pub open spec fn mark_settled_clamped(self, oracle: u64) -> Option<Account> {
        match self.mark(oracle as int) {
            Some(m) => Some(
                Account { pnl: I128::of(sat_i(self.pnl@ + m)), entry_price: oracle, ..self },
            ),
            None => None,
        }
    }
}

impl EngineState {
    pub open spec fn settle_mark_to_oracle(self, idx: int, oracle: u64) -> (
        EngineState,
        Result<(), RiskError>,
    ) {
        if !self.is_used(idx) {
            (self, Err(RiskError::AccountNotFound))
        } else {
            match self.accounts[idx].mark_settled(oracle) {
                Some(a) => (self.with_account(idx, a), Ok(())),
                None => (self, Err(RiskError::Overflow)),
            }
        }
    }

    pub open spec fn settle_mark_to_oracle_best_effort(self, idx: int, oracle: u64) -> (
        EngineState,
        Result<(), RiskError>,
    ) {
        if !self.is_used(idx) {
            (self, Err(RiskError::AccountNotFound))
        } else {
            match self.accounts[idx].mark_settled_clamped(oracle) {
                Some(a) => (self.with_account(idx, a), Ok(())),
                None => (self, Err(RiskError::Overflow)),
            }
        }
    }

    /// Funding, mark and fees settled, with the margin check of the fee settlement.
    pub open spec fn settled_to_fees(self, idx: int, now: u64, oracle: u64) -> (
        EngineState,
        Result<(), RiskError>,
    ) {
        match self.touch_account(idx) {
            (s1, Err(e)) => (s1, Err(e)),
            (s1, Ok(_)) => match s1.settle_mark_to_oracle(idx, oracle) {
                (s2, Err(e)) => (s2, Err(e)),
                (s2, Ok(_)) => match s2.settle_maintenance_fee(idx, now, oracle) {
                    (s3, Err(e)) => (s3, Err(e)),
                    (s3, Ok(_)) => (s3, Ok(())),
                },
            },
        }
    }

    /// Everything settled in turn: funding, mark, fees, warmup and fee debt; then the
    /// maintenance margin is checked.
    pub open spec fn touch_account_full(self, idx: int, now: u64, oracle: u64) -> (
        EngineState,
        Result<(), RiskError>,
    ) {
        match self.settled_to_fees(idx, now, oracle) {
            (s1, Err(e)) => (s1, Err(e)),
            (s1, Ok(_)) => match s1.settle_warmup_to_capital(idx) {
                (s2, Err(e)) => (s2, Err(e)),
                (s2, Ok(_)) => {
                    let s3 = s2.with_fee_debt_paid(idx);
                    if s3.undercollateralized(idx, oracle) {
                        (s3, Err(RiskError::Undercollateralized))
                    } else {
                        (s3, Ok(()))
                    }
                },
            },
        }
    }

    /// Funding and fees settled, with the margin check.
    pub open spec fn touch_account_for_crank(self, idx: int, now: u64, oracle: u64) -> (
        EngineState,
        Result<(), RiskError>,
    ) {
        match self.touch_account(idx) {
            (s1, Err(e)) => (s1, Err(e)),
            (s1, Ok(_)) => match s1.settle_maintenance_fee(idx, now, oracle) {
                (s2, Err(e)) => (s2, Err(e)),
                (s2, Ok(_)) => (s2, Ok(())),
            },
        }
    }

    /// Funding, mark and fees settled without a margin check.
    pub open spec fn touch_account_for_force_realize(self, idx: int, now: u64, oracle: u64) -> (
        EngineState,
        Result<(), RiskError>,
    ) {
        match self.touch_account(idx) {
            (s1, Err(e)) => (s1, Err(e)),
            (s1, Ok(_)) => match s1.settle_mark_to_oracle(idx, oracle) {
                (s2, Err(e)) => (s2, Err(e)),
                (s2, Ok(_)) => (s2.with_fees_charged(idx, now), Ok(())),
            },
        }
    }

    /// Funding, mark and fees settled without a margin check, with a realized profit that is
    /// out of range clamped.
    pub open spec fn touch_account_for_liquidation(self, idx: int, now: u64, oracle: u64) -> (
        EngineState,
        Result<(), RiskError>,
    ) {
        match self.touch_account(idx) {
            (s1, Err(e)) => (s1, Err(e)),
            (s1, Ok(_)) => match s1.settle_mark_to_oracle_best_effort(idx, oracle) {
                (s2, Err(e)) => (s2, Err(e)),
                (s2, Ok(_)) => (s2.with_fees_charged(idx, now), Ok(())),
            },
        }
    }
}

impl Account {
    /// Realizes the mark profit at the oracle price.
    fn settle_mark(&mut self, oracle_price: u64) -> (r: Result<(), RiskError>)
        ensures
            match old(self).mark_settled(oracle_price) {
                Some(a) => *final(self) == a && r == Ok::<(), RiskError>(()),
                None => *final(self) == *old(self) && r == Err::<(), RiskError>(
                    RiskError::Overflow,
                ),
            },
    {
        if self.position_size.is_zero() {
            self.entry_price = oracle_price;
            return Ok(());
        }
        let mark: i128 = RiskEngine::mark_pnl_for_position(
            self.position_size.get(),
            self.entry_price,
            oracle_price,
        )?;
        match self.pnl.get().checked_add(mark) {
            Some(p) => {
                self.pnl = I128::new(p);
            },
            None => return Err(RiskError::Overflow),
        }
        self.entry_price = oracle_price;
        Ok(())
    }

    /// Realizes the mark profit at the oracle price, clamped to the range of the profit.
    fn settle_mark_clamped(&mut self, oracle_price: u64) -> (r: Result<(), RiskError>)
        ensures
            match old(self).mark_settled_clamped(oracle_price) {
                Some(a) => *final(self) == a && r == Ok::<(), RiskError>(()),
                None => *final(self) == *old(self) && r == Err::<(), RiskError>(
                    RiskError::Overflow,
                ),
            },
    {
        if self.position_size.is_zero() {
            self.entry_price = oracle_price;
            return Ok(());
        }
        let mark: i128 = RiskEngine::mark_pnl_for_position(
            self.position_size.get(),
            self.entry_price,
            oracle_price,
        )?;
        self.pnl = I128::new(sat_add_i128(self.pnl.get(), mark));
        self.entry_price = oracle_price;
        Ok(())
    }
}

impl RiskEngine {
    /// Realizes the mark profit of an account at the oracle price. Its mark profit at that
    /// price is zero afterwards.
    pub fn settle_mark_to_oracle(&mut self, idx: u16, oracle_price: u64) -> (r: Result<
        (),
        RiskError,
    >)
        requires
            old(self).wf(),
        ensures
            final(self)@ == old(self)@.settle_mark_to_oracle(idx as int, oracle_price).0,
            r == old(self)@.settle_mark_to_oracle(idx as int, oracle_price).1,
            final(self).wf(),
    {
        if idx as usize >= MAX_ACCOUNTS || !self.is_used(idx as usize) {
            return Err(RiskError::AccountNotFound);
        }
        self.accounts[idx as usize].settle_mark(oracle_price)
    }

    /// Realizes the mark profit without failing on an overflow of the realized profit.
    pub fn settle_mark_to_oracle_best_effort(&mut self, idx: u16, oracle_price: u64) -> (r: Result<
        (),
        RiskError,
    >)
        requires
            old(self).wf(),
        ensures
            final(self)@ == old(self)@.settle_mark_to_oracle_best_effort(
                idx as int,
                oracle_price,
            ).0,
            r == old(self)@.settle_mark_to_oracle_best_effort(idx as int, oracle_price).1,
            final(self).wf(),
    {
        if idx as usize >= MAX_ACCOUNTS || !self.is_used(idx as usize) {
            return Err(RiskError::AccountNotFound);
        }
        self.accounts[idx as usize].settle_mark_clamped(oracle_price)
    }

    /// Settles funding, mark, fees and warmup, sweeps fee debt, and checks the maintenance
    /// margin.
    pub fn touch_account_full(&mut self, idx: u16, now_slot: u64, oracle_price: u64) -> (r: Result<
        (),
        RiskError,
    >)
        requires
            old(self).wf(),
        ensures
            final(self)@ == old(self)@.touch_account_full(idx as int, now_slot, oracle_price).0,
            r == old(self)@.touch_account_full(idx as int, now_slot, oracle_price).1,
            final(self).wf(),
    {
        self.touch_account(idx)?;
        self.settle_mark_to_oracle(idx, oracle_price)?;
        self.settle_maintenance_fee(idx, now_slot, oracle_price)?;
        self.settle_warmup_to_capital(idx)?;
        self.pay_fee_debt_from_capital(idx);
        if self.is_undercollateralized(idx, oracle_price) {
            return Err(RiskError::Undercollateralized);
        }
        Ok(())
    }

    /// Settles funding and fees.
    pub fn touch_account_for_crank(&mut self, idx: u16, now_slot: u64, oracle_price: u64) -> (r:
        Result<(), RiskError>)
        requires
            old(self).wf(),
        ensures
            final(self)@ == old(self)@.touch_account_for_crank(
                idx as int,
                now_slot,
                oracle_price,
            ).0,
            r == old(self)@.touch_account_for_crank(idx as int, now_slot, oracle_price).1,
            final(self).wf(),
    {
        self.touch_account(idx)?;
        self.settle_maintenance_fee(idx, now_slot, oracle_price)?;
        Ok(())
    }

    /// Settles funding, mark and fees; does not stall on margin checks.
    pub fn touch_account_for_force_realize(
        &mut self,
        idx: u16,
        now_slot: u64,
        oracle_price: u64,
    ) -> (r: Result<(), RiskError>)
        requires
            old(self).wf(),
        ensures
            final(self)@ == old(self)@.touch_account_for_force_realize(
                idx as int,
                now_slot,
                oracle_price,
            ).0,
            r == old(self)@.touch_account_for_force_realize(idx as int, now_slot, oracle_price).1,
            final(self).wf(),
    {
        self.touch_account(idx)?;
        self.settle_mark_to_oracle(idx, oracle_price)?;
        self.settle_maintenance_fee_best_effort_for_crank(idx, now_slot)?;
        Ok(())
    }

    /// Settles funding, mark and fees ahead of a liquidation; does not stall on margin
    /// checks or extreme profits.
    pub fn touch_account_for_liquidation(
        &mut self,
        idx: u16,
        now_slot: u64,
        oracle_price: u64,
    ) -> (r: Result<(), RiskError>)
        requires
            old(self).wf(),
        ensures
            final(self)@ == old(self)@.touch_account_for_liquidation(
                idx as int,
                now_slot,
                oracle_price,
            ).0,
            r == old(self)@.touch_account_for_liquidation(idx as int, now_slot, oracle_price).1,
            final(self).wf(),
    {
        self.touch_account(idx)?;
        self.settle_mark_to_oracle_best_effort(idx, oracle_price)?;
        self.settle_maintenance_fee_best_effort_for_crank(idx, now_slot)?;
        Ok(())
    }
}

} // verus!
