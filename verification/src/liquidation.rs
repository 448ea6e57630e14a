//! Liquidation of accounts below maintenance margin.
use vstd::prelude::*;

use crate::adl::Exempt;
use crate::margin::{
    bps_of, bps_of_exec, liquidation_close, liquidation_target_bps, notional, notional_exec,
};
use crate::math::{add_u128, min_int, min_u128, sat_u};
use crate::state::{EngineState, RiskEngine};
use crate::types::{
    ClosedOutcome, DeferredAdl, RiskError, RiskParams, MAX_ACCOUNTS, MAX_ORACLE_PRICE,
};
use crate::wide::U128;

verus! {

broadcast use crate::wide::group_wide;

impl DeferredAdl {
    /// Two deferrals taken together.
    pub open spec fn merged(self, other: DeferredAdl) -> DeferredAdl {
        DeferredAdl {
            profit_to_fund: sat_u(self.profit_to_fund + other.profit_to_fund) as u128,
            unpaid_loss: sat_u(self.unpaid_loss + other.unpaid_loss) as u128,
            excluded: self.excluded || other.excluded,
        }
    }
}

/// The fee for liquidating `size` units, up to the cap.
pub open spec fn liquidation_fee(p: RiskParams, size: int, oracle: u64) -> int {
    min_int(
        bps_of(notional(size, oracle as int), p.liquidation_fee_bps as int),
        p.liquidation_fee_cap@ as int,
    )
}

impl EngineState {
    /// What is still open of account `idx` closed if the account misses the target margin.
    pub open spec fn with_fallback_close(
        self,
        idx: int,
        oracle: u64,
        size: u128,
        deferred: DeferredAdl,
    ) -> (EngineState, Result<Option<(u128, DeferredAdl)>, RiskError>) {
        if !self.accounts[idx].below_margin(oracle as int, liquidation_target_bps(self.params)) {
            (self, Ok(Some((size, deferred))))
        } else {
            match self.close_deferred(idx, oracle) {
                (s1, Err(e)) => (s1, Err(e)),
                (s1, Ok((o, d))) => (
                    s1,
                    Ok(Some((sat_u(size + o.abs_pos) as u128, deferred.merged(d)))),
                ),
            }
        }
    }

    /// Enough of the position of account `idx` closed to bring it to the target margin.
    /// Yields how much was closed and what is left to be socialized, or nothing where there is
    /// nothing to close.
    pub open spec fn liquidation_closed(self, idx: int, oracle: u64) -> (
        EngineState,
        Result<Option<(u128, DeferredAdl)>, RiskError>,
    ) {
        let size = liquidation_close(self.params, self.accounts[idx], oracle as int).0;
        if size == 0 {
            (self, Ok(None))
        } else {
            match self.close_up_to_deferred(idx, oracle, size) {
                (s1, Err(e)) => (s1, Err(e)),
                (s1, Ok((o, d))) => s1.with_fallback_close(idx, oracle, o.abs_pos, d),
            }
        }
    }

    /// The liquidation fee taken from what capital is left.
    pub open spec fn with_liquidation_fee(self, idx: int, size: int, oracle: u64) -> EngineState {
        let a = self.accounts[idx];
        let pay = min_int(liquidation_fee(self.params, size, oracle), a.capital@ as int);
        self.with_account(idx, Self::capital_reduced(a, pay)).with_fee_income(pay).with_reserve()
    }

    /// Account `idx` settled, and closed as far as its margin calls for. Yields nothing where
    /// it is not liquidatable.
    pub open spec fn liquidate_settling(self, idx: int, now: u64, oracle: u64) -> (
        EngineState,
        Result<Option<(u128, DeferredAdl)>, RiskError>,
    ) {
        if self.accounts[idx].position_size@ == 0 {
            (self, Ok(None))
        } else {
            match self.touch_account_for_liquidation(idx, now, oracle) {
                (s1, Err(e)) => (s1, Err(e)),
                (s1, Ok(_)) => if s1.accounts[idx].above_margin(
                    oracle as int,
                    s1.params.maintenance_margin_bps as int,
                ) {
                    (s1, Ok(None))
                } else {
                    s1.liquidation_closed(idx, oracle)
                },
            }
        }
    }

    /// Account `idx` liquidated if it is not above maintenance margin. Its profit is funded by
    /// the other accounts, its unpaid loss by all; the fee comes last.
    pub open spec fn liquidate_at_oracle(self, idx: int, now: u64, oracle: u64) -> (
        EngineState,
        Result<bool, RiskError>,
    ) {
        let s0 = self.at_slot(now);
        if !self.is_used(idx) {
            (s0, Ok(false))
        } else if oracle == 0 || oracle > MAX_ORACLE_PRICE {
            (s0, Err(RiskError::Overflow))
        } else {
            match s0.liquidate_settling(idx, now, oracle) {
                (s1, Err(e)) => (s1, Err(e)),
                (s1, Ok(None)) => (s1, Ok(false)),
                (s1, Ok(Some((size, d)))) => match s1.deleverage(
                    d.profit_to_fund as int,
                    Exempt::One(idx as usize),
                ) {
                    (s2, Err(e)) => (s2, Err(e)),
                    (s2, Ok(_)) => match s2.deleverage(d.unpaid_loss as int, Exempt::Nobody) {
                        (s3, Err(e)) => (s3, Err(e)),
                        (s3, Ok(_)) => (
                            s3.with_liquidation_fee(idx, size as int, oracle),
                            Ok(true),
                        ),
                    },
                },
            }
        }
    }

    /// The same with socialization left for later.
    pub open spec fn liquidate_deferred(self, idx: int, now: u64, oracle: u64) -> (
        EngineState,
        Result<(bool, DeferredAdl), RiskError>,
    ) {
        let s0 = self.at_slot(now);
        if !self.is_used(idx) {
            (s0, Ok((false, DeferredAdl::none())))
        } else {
            match s0.liquidate_settling(idx, now, oracle) {
                (s1, Err(e)) => (s1, Err(e)),
                (s1, Ok(None)) => (s1, Ok((false, DeferredAdl::none()))),
                (s1, Ok(Some((size, d)))) => (
                    s1.with_liquidation_fee(idx, size as int, oracle),
                    Ok((true, d)),
                ),
            }
        }
    }

    /// All accounts from slot `i` on liquidated where that is called for; failures leave an
    /// account as far as it got. Yields the state and the number of liquidations.
    pub open spec fn liquidate_from(self, i: int, now: u64, oracle: u64, count: int) -> (
        EngineState,
        int,
    )
        decreases MAX_ACCOUNTS - i,
    {
        if i >= MAX_ACCOUNTS {
            (self, count)
        } else if !self.is_used(i) {
            self.liquidate_from(i + 1, now, oracle, count)
        } else {
            let (s, r) = self.liquidate_at_oracle(i, now, oracle);
            s.liquidate_from(
                i + 1,
                now,
                oracle,
                if r == Ok::<bool, RiskError>(true) {
                    count + 1
                } else {
                    count
                },
            )
        }
    }
}

impl RiskEngine {
    /// Closes what is left of a position if the account misses the target margin.
    fn close_rest_if_below_target(
        &mut self,
        idx: u16,
        oracle_price: u64,
        closed_abs: u128,
        deferred: DeferredAdl,
    ) -> (r: Result<Option<(u128, DeferredAdl)>, RiskError>)
        requires
            old(self).wf(),
            idx < MAX_ACCOUNTS,
        ensures
            final(self)@ == old(self)@.with_fallback_close(
                idx as int,
                oracle_price,
                closed_abs,
                deferred,
            ).0,
            r == old(self)@.with_fallback_close(idx as int, oracle_price, closed_abs, deferred).1,
            final(self).wf(),
    {
        if self.accounts[idx as usize].position_size.is_zero() {
            return Ok(Some((closed_abs, deferred)));
        }
        let target_bps: u64 = self.params.maintenance_margin_bps.saturating_add(
            self.params.liquidation_buffer_bps,
        );
        if self.is_above_margin_bps_mtm(&self.accounts[idx as usize], oracle_price, target_bps) {
            return Ok(Some((closed_abs, deferred)));
        }
        let (outcome, more): (
            ClosedOutcome,
            DeferredAdl,
        ) = self.oracle_close_position_core_deferred_adl(idx, oracle_price)?;
        let merged: DeferredAdl = DeferredAdl {
            profit_to_fund: add_u128(deferred.profit_to_fund, more.profit_to_fund),
            unpaid_loss: add_u128(deferred.unpaid_loss, more.unpaid_loss),
            excluded: deferred.excluded || more.excluded,
        };
        Ok(Some((add_u128(closed_abs, outcome.abs_pos), merged)))
    }

    /// Closes enough of a position to bring the account to the target margin.
    fn close_to_target(&mut self, idx: u16, oracle_price: u64) -> (r: Result<
        Option<(u128, DeferredAdl)>,
        RiskError,
    >)
        requires
            old(self).wf(),
            idx < MAX_ACCOUNTS,
        ensures
            final(self)@ == old(self)@.liquidation_closed(idx as int, oracle_price).0,
            r == old(self)@.liquidation_closed(idx as int, oracle_price).1,
            final(self).wf(),
    {
        let (close_abs, is_full_close): (u128, bool) = self.compute_liquidation_close_amount(
            &self.accounts[idx as usize],
            oracle_price,
        );
        if close_abs == 0 {
            return Ok(None);
        }
        let (outcome, deferred): (ClosedOutcome, DeferredAdl) = if is_full_close {
            self.oracle_close_position_core_deferred_adl(idx, oracle_price)?
        } else {
            self.oracle_close_position_slice_core_deferred_adl(idx, oracle_price, close_abs)?
        };
        self.close_rest_if_below_target(idx, oracle_price, outcome.abs_pos, deferred)
    }

    /// Takes the liquidation fee from what capital is left.
    fn charge_liquidation_fee(&mut self, idx: u16, closed_abs: u128, oracle_price: u64)
        requires
            old(self).wf(),
            idx < MAX_ACCOUNTS,
        ensures
            final(self)@ == old(self)@.with_liquidation_fee(
                idx as int,
                closed_abs as int,
                oracle_price,
            ),
            final(self).wf(),
    {
        let fee_raw: u128 = bps_of_exec(
            notional_exec(closed_abs, oracle_price),
            self.params.liquidation_fee_bps,
        );
        let fee: u128 = min_u128(fee_raw, self.params.liquidation_fee_cap.get());
        let account_capital: U128 = self.accounts[idx as usize].capital;
        let pay: u128 = min_u128(fee, account_capital.get());
        self.accounts[idx as usize].capital = account_capital.saturating_sub(pay);
        self.book_fee_income(pay);
        self.recompute_warmup_insurance_reserved();
    }

    /// Settles an account and closes as much of its position as its margin calls for.
    fn liquidate_settling(&mut self, idx: u16, now_slot: u64, oracle_price: u64) -> (r: Result<
        Option<(u128, DeferredAdl)>,
        RiskError,
    >)
        requires
            old(self).wf(),
            idx < MAX_ACCOUNTS,
        ensures
            final(self)@ == old(self)@.liquidate_settling(idx as int, now_slot, oracle_price).0,
            r == old(self)@.liquidate_settling(idx as int, now_slot, oracle_price).1,
            final(self).wf(),
    {
        if self.accounts[idx as usize].position_size.is_zero() {
            return Ok(None);
        }
        self.touch_account_for_liquidation(idx, now_slot, oracle_price)?;
        if self.is_above_maintenance_margin_mtm(&self.accounts[idx as usize], oracle_price) {
            return Ok(None);
        }
        self.close_to_target(idx, oracle_price)
    }

    /// Liquidates an account at the oracle price if it is not above maintenance margin. Tells
    /// whether it did.
    pub fn liquidate_at_oracle(&mut self, idx: u16, now_slot: u64, oracle_price: u64) -> (r: Result<
        bool,
        RiskError,
    >)
        requires
            old(self).wf(),
        ensures
            final(self)@ == old(self)@.liquidate_at_oracle(idx as int, now_slot, oracle_price).0,
            r == old(self)@.liquidate_at_oracle(idx as int, now_slot, oracle_price).1,
            final(self).wf(),
    {
        self.current_slot = now_slot;
        if (idx as usize) >= MAX_ACCOUNTS || !self.is_used(idx as usize) {
            return Ok(false);
        }
        if oracle_price == 0 || oracle_price > MAX_ORACLE_PRICE {
            return Err(RiskError::Overflow);
        }
        let (closed_abs, deferred): (u128, DeferredAdl) = match self.liquidate_settling(
            idx,
            now_slot,
            oracle_price,
        )? {
            Some(x) => x,
            None => {
                return Ok(false);
            },
        };
        self.apply_adl_excluding(deferred.profit_to_fund, idx as usize)?;
        self.apply_adl(deferred.unpaid_loss)?;
        self.charge_liquidation_fee(idx, closed_abs, oracle_price);
        Ok(true)
    }

    /// Liquidates an account and leaves socialization for later; the fee is taken at once.
    pub fn liquidate_at_oracle_deferred_adl(
        &mut self,
        idx: u16,
        now_slot: u64,
        oracle_price: u64,
    ) -> (r: Result<(bool, DeferredAdl), RiskError>)
        requires
            old(self).wf(),
        ensures
            final(self)@ == old(self)@.liquidate_deferred(idx as int, now_slot, oracle_price).0,
            r == old(self)@.liquidate_deferred(idx as int, now_slot, oracle_price).1,
            final(self).wf(),
    {
        self.current_slot = now_slot;
        if (idx as usize) >= MAX_ACCOUNTS || !self.is_used(idx as usize) {
            return Ok((false, DeferredAdl::zero()));
        }
        match self.liquidate_settling(idx, now_slot, oracle_price)? {
            Some((closed_abs, deferred)) => {
                self.charge_liquidation_fee(idx, closed_abs, oracle_price);
                Ok((true, deferred))
            },
            None => Ok((false, DeferredAdl::zero())),
        }
    }

    /// Liquidates every account that calls for it; returns how many were liquidated.
    pub fn scan_and_liquidate_all(&mut self, now_slot: u64, oracle_price: u64) -> (r: u32)
        requires
            old(self).wf(),
        ensures
            final(self)@ == old(self)@.liquidate_from(0, now_slot, oracle_price, 0).0,
            r == old(self)@.liquidate_from(0, now_slot, oracle_price, 0).1,
            final(self).wf(),
    {
        let mut count: u32 = 0;
        let mut idx: u16 = 0;
        while (idx as usize) < MAX_ACCOUNTS
            invariant
                self.wf(),
                idx <= MAX_ACCOUNTS,
                count <= idx,
                self@.liquidate_from(idx as int, now_slot, oracle_price, count as int) == old(
                    self,
                )@.liquidate_from(0, now_slot, oracle_price, 0),
            decreases MAX_ACCOUNTS - idx,
        {
            if self.is_used(idx as usize) {
                match self.liquidate_at_oracle(idx, now_slot, oracle_price) {
                    Ok(true) => {
                        count += 1;
                    },
                    _ => {},
                }
            }
            idx += 1;
        }
        count
    }
}

} // verus!
