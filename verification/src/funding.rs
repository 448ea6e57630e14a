//! Funding: a global index accrues in constant time, and accounts settle against it lazily.
use vstd::prelude::*;

use crate::math::{div_trunc_i128, fits_i, lemma_tdiv_fits, tdiv};
use crate::state::{EngineState, RiskEngine};
use crate::types::{Account, OpClass, RiskError, MAX_ACCOUNTS, MAX_ORACLE_PRICE};
use crate::wide::I128;

verus! {

broadcast use crate::wide::group_wide;

/// Largest funding rate, in basis points per slot.
pub const MAX_FUNDING_RATE: i64 = 10_000;

/// Largest number of slots that one accrual may cover.
pub const MAX_FUNDING_SLOTS: u64 = 31_536_000;

/// What a position owes for a move of the funding index: rounded up where the account pays,
/// toward zero where it receives.
pub open spec fn funding_payment(pos: int, delta: int) -> int {
    if pos * delta > 0 {
        (pos * delta + 999_999) / 1_000_000
    } else {
        tdiv(pos * delta, 1_000_000)
    }
}

/// Whether the payment can be computed in range.
pub open spec fn funding_in_range(pos: int, delta: int) -> bool {
    fits_i(pos * delta) && fits_i(pos * delta + 999_999)
}

impl Account {
    /// What the account owes when settled against `index`.
    pub open spec fn funding_due(self, index: int) -> int {
        funding_payment(self.position_size@ as int, index - self.funding_index@)
    }

    /// The account settled against the global index; nothing where a step is out of range.
    pub open spec fn funding_settled(self, index: int) -> Option<Account> {
        let delta = index - self.funding_index@;
        if !fits_i(delta) || !funding_in_range(self.position_size@ as int, delta) || !fits_i(
            self.pnl@ - self.funding_due(index),
        ) {
            None
        } else {
            Some(
                Account {
                    pnl: I128::of(self.pnl@ - self.funding_due(index)),
                    funding_index: I128::of(index),
                    ..self
                },
            )
        }
    }
}

impl EngineState {
    /// Growth of the funding index over `dt` slots.
    pub open spec fn funding_delta(price: int, rate: int, dt: int) -> int {
        tdiv(price * rate * dt, 10_000)
    }

    /// The funding index brought up to `now`.
    pub open spec fn accrue_funding(self, now: u64, price: u64, rate: i64) -> (
        EngineState,
        Result<(), RiskError>,
    ) {
        let dt = now - self.last_funding_slot;
        let index = self.funding_index_qpb_e6@ + Self::funding_delta(
            price as int,
            rate as int,
            dt,
        );
        if dt <= 0 {
            (self, Ok(()))
        } else if price == 0 || price > MAX_ORACLE_PRICE || rate > MAX_FUNDING_RATE || rate
            < -MAX_FUNDING_RATE || dt > MAX_FUNDING_SLOTS || !fits_i(index) {
            (self, Err(RiskError::Overflow))
        } else {
            (
                EngineState {
                    funding_index_qpb_e6: I128::of(index),
                    last_funding_slot: now,
                    ..self
                },
                Ok(()),
            )
        }
    }

    /// Account `idx` settled against the funding index.
    pub open spec fn touch_account(self, idx: int) -> (EngineState, Result<(), RiskError>) {
        if !self.is_used(idx) {
            (self, Err(RiskError::AccountNotFound))
        } else {
            match self.accounts[idx].funding_settled(self.funding_index_qpb_e6@ as int) {
                Some(a) => (self.with_account(idx, a), Ok(())),
                None => (self, Err(RiskError::Overflow)),
            }
        }
    }

    /// The accounts from slot `i` on settled in order, up to the first that cannot be.
    pub open spec fn settle_funding_from(self, i: int) -> (EngineState, Result<(), RiskError>)
        decreases MAX_ACCOUNTS - i,
    {
        if i >= MAX_ACCOUNTS {
            (self, Ok(()))
        } else if !self.is_used(i) {
            self.settle_funding_from(i + 1)
        } else {
            match self.touch_account(i) {
                (s, Ok(_)) => s.settle_funding_from(i + 1),
                (s, Err(e)) => (s, Err(e)),
            }
        }
    }
}

impl RiskEngine {
    /// Accrues funding up to `now_slot`.
    pub fn accrue_funding(
        &mut self,
        now_slot: u64,
        oracle_price: u64,
        funding_rate_bps_per_slot: i64,
    ) -> (r: Result<(), RiskError>)
        ensures
            final(self)@ == old(self)@.accrue_funding(
                now_slot,
                oracle_price,
                funding_rate_bps_per_slot,
            ).0,
            r == old(self)@.accrue_funding(now_slot, oracle_price, funding_rate_bps_per_slot).1,
            old(self).wf() ==> final(self).wf(),
    {
        self.enforce_op(OpClass::RiskNeutral)?;
        let dt: u64 = now_slot.saturating_sub(self.last_funding_slot);
        if dt == 0 {
            return Ok(());
        }
        if oracle_price == 0 || oracle_price > MAX_ORACLE_PRICE {
            return Err(RiskError::Overflow);
        }
        if funding_rate_bps_per_slot > MAX_FUNDING_RATE || funding_rate_bps_per_slot
            < -MAX_FUNDING_RATE {
            return Err(RiskError::Overflow);
        }
        if dt > MAX_FUNDING_SLOTS {
            return Err(RiskError::Overflow);
        }
        let price: i128 = oracle_price as i128;
        let rate: i128 = funding_rate_bps_per_slot as i128;
        let dt_i: i128 = dt as i128;
        proof {
            let bound = MAX_ORACLE_PRICE * MAX_FUNDING_RATE;
            assert(-bound <= price * rate <= bound) by (nonlinear_arith)
                requires
                    0 <= price <= MAX_ORACLE_PRICE,
                    -MAX_FUNDING_RATE <= rate <= MAX_FUNDING_RATE,
                    bound == MAX_ORACLE_PRICE * MAX_FUNDING_RATE,
            ;
            let q = price * rate;
            assert(fits_i(q * dt_i)) by (nonlinear_arith)
                requires
                    -bound <= q <= bound,
                    0 <= dt_i <= MAX_FUNDING_SLOTS,
                    bound == 1_000_000_000_000_000 * 10_000,
            ;
        }
        let delta: i128 = div_trunc_i128(price * rate * dt_i, 10_000);
        match self.funding_index_qpb_e6.checked_add(delta) {
            Some(index) => {
                self.funding_index_qpb_e6 = index;
            },
            None => {
                return Err(RiskError::Overflow);
            },
        }
        self.last_funding_slot = now_slot;
        Ok(())
    }

    /// Settles an account against the global funding index.
    pub fn settle_account_funding(account: &mut Account, global_funding_index: I128) -> (r: Result<
        (),
        RiskError,
    >)
        ensures
            match old(account).funding_settled(global_funding_index@ as int) {
                Some(a) => *final(account) == a && r == Ok::<(), RiskError>(()),
                None => *final(account) == *old(account) && r == Err::<(), RiskError>(
                    RiskError::Overflow,
                ),
            },
    {
        let delta_f: i128 = match global_funding_index.get().checked_sub(
            account.funding_index.get(),
        ) {
            Some(d) => d,
            None => return Err(RiskError::Overflow),
        };
        proof {
            let pos = account.position_size@ as int;
            assert(pos * 0 == 0 && 0 * delta_f == 0) by (nonlinear_arith);
        }
        if delta_f != 0 && !account.position_size.is_zero() {
            let raw: i128 = match account.position_size.get().checked_mul(delta_f) {
                Some(p) => p,
                None => return Err(RiskError::Overflow),
            };
            proof {
                lemma_tdiv_fits(raw as int, 1_000_000);
            }
            let payment: i128 = if raw > 0 {
                match raw.checked_add(999_999) {
                    Some(p) => p / 1_000_000,
                    None => return Err(RiskError::Overflow),
                }
            } else {
                div_trunc_i128(raw, 1_000_000)
            };
            match account.pnl.get().checked_sub(payment) {
                Some(p) => {
                    account.pnl = I128::new(p);
                },
                None => return Err(RiskError::Overflow),
            }
        }
        account.funding_index = global_funding_index;
        Ok(())
    }

    /// Settles funding for an account.
    pub fn touch_account(&mut self, idx: u16) -> (r: Result<(), RiskError>)
        requires
            old(self).wf(),
        ensures
            final(self)@ == old(self)@.touch_account(idx as int).0,
            r == old(self)@.touch_account(idx as int).1,
            final(self).wf(),
    {
        self.enforce_op(OpClass::RiskNeutral)?;
        if !self.is_used(idx as usize) {
            return Err(RiskError::AccountNotFound);
        }
        let index: I128 = self.funding_index_qpb_e6;
        Self::settle_account_funding(&mut self.accounts[idx as usize], index)
    }

    /// Settles funding for all accounts.
    pub fn settle_all_funding(&mut self) -> (r: Result<(), RiskError>)
        requires
            old(self).wf(),
        ensures
            final(self)@ == old(self)@.settle_funding_from(0).0,
            r == old(self)@.settle_funding_from(0).1,
            final(self).wf(),
    {
        let mut idx: u16 = 0;
        while (idx as usize) < MAX_ACCOUNTS
            invariant
                self.wf(),
                idx <= MAX_ACCOUNTS,
                self@.settle_funding_from(idx as int) == old(self)@.settle_funding_from(0),
            decreases MAX_ACCOUNTS - idx,
        {
            if self.is_used(idx as usize) {
                self.touch_account(idx)?;
            }
            idx += 1;
        }
        Ok(())
    }
}

} // verus!
