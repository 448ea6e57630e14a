//! Maintenance fees: they accrue per slot, use up prepaid credits, and are then owed from
//! capital.
use vstd::prelude::*;

use crate::math::{
    clamp_neg_i128, max_int, min_int, min_u128, monus, mul_u128, sat_i, sat_u, u128_as_i128, wrap_i,
};
use crate::state::{EngineState, RiskEngine};
use crate::types::{Account, RiskError, MAX_ACCOUNTS};
use crate::wide::{I128, U128};

verus! {

broadcast use crate::wide::group_wide;

impl Account {
    /// Fees that accrue up to slot `now`.
    pub open spec fn fee_due(self, per_slot: int, now: u64) -> int {
        sat_u(per_slot * monus(now as int, self.last_fee_slot as int))
    }

    /// The account with fees accrued up to slot `now`, taken from its credits.
    pub open spec fn fees_accrued(self, per_slot: int, now: u64) -> Account {
        if now <= self.last_fee_slot {
            self
        } else {
            Account {
                fee_credits: I128::of(sat_i(self.fee_credits@ - wrap_i(self.fee_due(per_slot, now)))),
                last_fee_slot: now,
                ..self
            }
        }
    }

    /// Fees owed.
    pub open spec fn fee_debt(self) -> int {
        max_int(-(self.fee_credits@ as int), 0)
    }

    /// The account after `amount` of its fee debt was paid.
    pub open spec fn credited(self, amount: int) -> Account {
        Account { fee_credits: I128::of(sat_i(self.fee_credits@ + wrap_i(amount))), ..self }
    }

    /// The part of the fees owed that the capital can pay.
    pub open spec fn payable_debt(self) -> int {
        min_int(self.fee_debt(), self.capital@ as int)
    }

    /// The account after its capital paid what it can of the fees owed.
    pub open spec fn debt_paid(self) -> Account {
        Account {
            capital: U128::of(self.capital@ - self.payable_debt()),
            ..self.credited(self.payable_debt())
        }
    }
}

impl EngineState {
    pub open spec fn fee_per_slot(self) -> int {
        self.params.maintenance_fee_per_slot@ as int
    }

    /// What account `idx` pays into the insurance fund when charged up to slot `now`.
    pub open spec fn fee_paid(self, idx: int, now: u64) -> int {
        let a = self.accounts[idx];
        if now <= a.last_fee_slot {
            0
        } else {
            a.fees_accrued(self.fee_per_slot(), now).payable_debt()
        }
    }

    /// Account `idx` charged fees up to slot `now`. Within one slot nothing is charged twice.
    pub open spec fn with_fees_charged(self, idx: int, now: u64) -> EngineState {
        let a = self.accounts[idx];
        if now <= a.last_fee_slot {
            self
        } else {
            self.with_account(
                idx,
                a.fees_accrued(self.fee_per_slot(), now).debt_paid(),
            ).with_fee_income(self.fee_paid(idx, now))
        }
    }

    /// Fees owed by account `idx` paid from its capital, as far as that goes.
    pub open spec fn with_fee_debt_paid(self, idx: int) -> EngineState {
        let a = self.accounts[idx];
        self.with_account(idx, a.debt_paid()).with_fee_income(a.payable_debt())
    }

    /// Whether account `idx` has a position and is not above the maintenance margin.
    pub open spec fn undercollateralized(self, idx: int, oracle: u64) -> bool {
        self.accounts[idx].below_margin(
            oracle as int,
            self.params.maintenance_margin_bps as int,
        )
    }

    /// Fees charged, with a check of the maintenance margin if any slot has passed. Yields the
    /// fees that fell due.
    pub open spec fn settle_maintenance_fee(self, idx: int, now: u64, oracle: u64) -> (
        EngineState,
        Result<u128, RiskError>,
    ) {
        let charged = self.with_fees_charged(idx, now);
        if !self.is_used(idx) {
            (self, Err(RiskError::Unauthorized))
        } else if now > self.accounts[idx].last_fee_slot && charged.undercollateralized(
            idx,
            oracle,
        ) {
            (charged, Err(RiskError::Undercollateralized))
        } else {
            (charged, Ok(self.accounts[idx].fee_due(self.fee_per_slot(), now) as u128))
        }
    }

    /// Fees charged without a margin check.
    pub open spec fn settle_maintenance_fee_best_effort(self, idx: int, now: u64) -> (
        EngineState,
        Result<u128, RiskError>,
    ) {
        if !self.is_used(idx) {
            (self, Err(RiskError::Unauthorized))
        } else {
            (self.with_fees_charged(idx, now), Ok(self.fee_paid(idx, now) as u128))
        }
    }

    /// Prepaid credits added to account `idx`; the insurance fund has them as revenue now.
    pub open spec fn deposit_fee_credits(self, idx: int, amount: u128, now: u64) -> (
        EngineState,
        Result<(), RiskError>,
    ) {
        if !self.is_used(idx) {
            (self, Err(RiskError::Unauthorized))
        } else {
            (
                EngineState {
                    current_slot: now,
                    vault: U128::of(sat_u(self.vault@ + amount)),
                    ..self
                }.with_fee_income(amount as int).with_account(
                    idx,
                    self.accounts[idx].credited(amount as int),
                ),
                Ok(()),
            )
        }
    }
}

impl Account {
    /// Fees that accrue up to `now_slot`: nothing where no slot has passed since the last
    /// charge.
    pub(crate) fn fees_due(&self, per_slot: u128, now_slot: u64) -> (r: u128)
        ensures
            r == self.fee_due(per_slot as int, now_slot),
            now_slot <= self.last_fee_slot ==> r == 0,
    {
        assert(per_slot * 0 == 0) by (nonlinear_arith);
        mul_u128(per_slot, now_slot.saturating_sub(self.last_fee_slot) as u128)
    }

    /// Takes the fees accrued since the last charge from the credits.
    pub(crate) fn accrue_fees(&mut self, per_slot: u128, now_slot: u64)
        ensures
            *final(self) == old(self).fees_accrued(per_slot as int, now_slot),
    {
        if now_slot > self.last_fee_slot {
            let due: u128 = self.fees_due(per_slot, now_slot);
            self.last_fee_slot = now_slot;
            self.fee_credits = self.fee_credits.saturating_sub(u128_as_i128(due));
        }
    }

    /// Notes that `amount` of the fees owed was paid.
    pub(crate) fn credit_fees(&mut self, amount: u128)
        ensures
            *final(self) == old(self).credited(amount as int),
    {
        self.fee_credits = self.fee_credits.saturating_add(u128_as_i128(amount));
    }

    /// Pays fees owed from capital; returns what was paid.
    pub(crate) fn pay_fee_debt(&mut self) -> (r: u128)
        ensures
            *final(self) == old(self).debt_paid(),
            r == old(self).payable_debt(),
    {
        let owed: u128 = clamp_neg_i128(self.fee_credits.get());
        let pay: u128 = min_u128(owed, self.capital.get());
        self.capital = self.capital.saturating_sub(pay);
        self.credit_fees(pay);
        pay
    }
}

impl RiskEngine {
    /// Charges fees up to `now_slot`; returns what was paid into the insurance fund.
    fn charge_fees(&mut self, idx: u16, now_slot: u64) -> (r: u128)
        requires
            old(self).wf(),
            idx < MAX_ACCOUNTS,
        ensures
            final(self)@ == old(self)@.with_fees_charged(idx as int, now_slot),
            r == old(self)@.fee_paid(idx as int, now_slot),
            final(self).wf(),
    {
        if now_slot <= self.accounts[idx as usize].last_fee_slot {
            return 0;
        }
        let per_slot: u128 = self.params.maintenance_fee_per_slot.get();
        let account: &mut Account = &mut self.accounts[idx as usize];
        account.accrue_fees(per_slot, now_slot);
        let paid: u128 = account.pay_fee_debt();
        self.book_fee_income(paid);
        paid
    }

    /// Settles maintenance fees for an account; returns the fees that fell due, whatever of
    /// them was paid. Fails where the account is below maintenance margin afterwards.
    pub fn settle_maintenance_fee(&mut self, idx: u16, now_slot: u64, oracle_price: u64) -> (r:
        Result<u128, RiskError>)
        requires
            old(self).wf(),
        ensures
            final(self)@ == old(self)@.settle_maintenance_fee(
                idx as int,
                now_slot,
                oracle_price,
            ).0,
            r == old(self)@.settle_maintenance_fee(idx as int, now_slot, oracle_price).1,
            final(self).wf(),
    {
        if idx as usize >= MAX_ACCOUNTS || !self.is_used(idx as usize) {
            return Err(RiskError::Unauthorized);
        }
        let per_slot: u128 = self.params.maintenance_fee_per_slot.get();
        let due: u128 = self.accounts[idx as usize].fees_due(per_slot, now_slot);
        if now_slot <= self.accounts[idx as usize].last_fee_slot {
            return Ok(0);
        }
        self.charge_fees(idx, now_slot);
        if self.is_undercollateralized(idx, oracle_price) {
            return Err(RiskError::Undercollateralized);
        }
        Ok(due)
    }

    /// Whether an account has a position and is not above the maintenance margin.
    pub(crate) fn is_undercollateralized(&self, idx: u16, oracle_price: u64) -> (r: bool)
        requires
            self.wf(),
            idx < MAX_ACCOUNTS,
        ensures
            r == self@.undercollateralized(idx as int, oracle_price),
    {
        let account: &Account = &self.accounts[idx as usize];
        !account.position_size.is_zero() && !self.is_above_maintenance_margin_mtm(
            account,
            oracle_price,
        )
    }

    /// Settles maintenance fees for an account without a margin check.
    pub fn settle_maintenance_fee_best_effort_for_crank(&mut self, idx: u16, now_slot: u64) -> (r:
        Result<u128, RiskError>)
        requires
            old(self).wf(),
        ensures
            final(self)@ == old(self)@.settle_maintenance_fee_best_effort(idx as int, now_slot).0,
            r == old(self)@.settle_maintenance_fee_best_effort(idx as int, now_slot).1,
            final(self).wf(),
    {
        if idx as usize >= MAX_ACCOUNTS || !self.is_used(idx as usize) {
            return Err(RiskError::Unauthorized);
        }
        Ok(self.charge_fees(idx, now_slot))
    }

    /// Pays fees owed from the capital of an account.
    pub fn pay_fee_debt_from_capital(&mut self, idx: u16)
        requires
            old(self).wf(),
            idx < MAX_ACCOUNTS,
        ensures
            final(self)@ == old(self)@.with_fee_debt_paid(idx as int),
            final(self).wf(),
    {
        let paid: u128 = self.accounts[idx as usize].pay_fee_debt();
        self.book_fee_income(paid);
    }

    /// Prepays maintenance fees for an account, with funds already in the vault's custody.
    pub fn deposit_fee_credits(&mut self, idx: u16, amount: u128, now_slot: u64) -> (r: Result<
        (),
        RiskError,
    >)
        requires
            old(self).wf(),
        ensures
            final(self)@ == old(self)@.deposit_fee_credits(idx as int, amount, now_slot).0,
            r == old(self)@.deposit_fee_credits(idx as int, amount, now_slot).1,
            final(self).wf(),
    {
        if idx as usize >= MAX_ACCOUNTS || !self.is_used(idx as usize) {
            return Err(RiskError::Unauthorized);
        }
        self.current_slot = now_slot;
        self.vault = self.vault + amount;
        self.book_fee_income(amount);
        self.accounts[idx as usize].credit_fees(amount);
        Ok(())
    }

    /// Adds fee credits without any booking in the vault or the insurance fund.
    pub fn add_fee_credits(&mut self, idx: u16, amount: u128) -> (r: Result<(), RiskError>)
        requires
            old(self).wf(),
        ensures
            final(self)@ == (if old(self)@.is_used(idx as int) {
                old(self)@.with_account(
                    idx as int,
                    old(self)@.accounts[idx as int].credited(amount as int),
                )
            } else {
                old(self)@
            }),
            r == (if old(self)@.is_used(idx as int) {
                Ok::<(), RiskError>(())
            } else {
                Err(RiskError::Unauthorized)
            }),
            final(self).wf(),
    {
        if idx as usize >= MAX_ACCOUNTS || !self.is_used(idx as usize) {
            return Err(RiskError::Unauthorized);
        }
        self.accounts[idx as usize].credit_fees(amount);
        Ok(())
    }
}

} // verus!
