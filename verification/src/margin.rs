//! Mark-to-market profit, equity and margin of an account at an oracle price.
use vstd::prelude::*;

use crate::math::{
    abs_sat, abs_u128, add_u128, clamp_pos_i128, div_trunc_i128, fits_i, max_int, min_int,
    min_u128, monus, mul_u128, sat_add_i128, sat_i, sat_u, sub_u128, tdiv, u128_to_i128_clamped,
};
use crate::state::RiskEngine;
use crate::types::{Account, RiskError, RiskParams};

verus! {

broadcast use crate::wide::group_wide;

/// Scale of prices and position sizes.
pub const E6: u128 = 1_000_000;

/// What one unit of a position gains when the price moves from `entry` to `oracle`.
pub open spec fn price_move(pos: int, entry: int, oracle: int) -> int {
    if pos > 0 {
        oracle - entry
    } else {
        entry - oracle
    }
}

/// Profit of closing `size` units of a position on the side of `pos` at the oracle price,
/// rounded toward zero; nothing where the product is out of range.
pub open spec fn slice_pnl(pos: int, size: int, entry: int, oracle: int) -> Option<int> {
    let product = price_move(pos, entry, oracle) * size;
    if fits_i(product) {
        Some(tdiv(product, 1_000_000))
    } else {
        None
    }
}

/// Profit of closing the whole position at the oracle price.
pub open spec fn mark_pnl(pos: int, entry: int, oracle: int) -> Option<int> {
    if pos == 0 {
        Some(0)
    } else {
        slice_pnl(pos, abs_sat(pos), entry, oracle)
    }
}

/// Value of a position at the oracle price.
pub open spec fn notional(size: int, price: int) -> int {
    sat_u(size * price) / 1_000_000
}

/// `bps` basis points of `value`.
pub open spec fn bps_of(value: int, bps: int) -> int {
    sat_u(value * bps) / 10_000
}

/// Margin that a position requires at the oracle price.
pub open spec fn margin_required(pos: int, oracle: int, bps: int) -> int {
    bps_of(notional(abs_sat(pos), oracle), bps)
}

/// Capital and profits taken together, if that is positive.
pub open spec fn equity_of(capital: int, pnl: int, mark: int) -> int {
    max_int(sat_i(sat_i(min_int(capital, i128::MAX as int) + pnl) + mark), 0)
}

impl Account {
    pub open spec fn mark(self, oracle: int) -> Option<int> {
        mark_pnl(self.position_size@ as int, self.entry_price as int, oracle)
    }

    /// Equity at the oracle price; zero where the mark profit is out of range.
    pub open spec fn equity_mtm(self, oracle: int) -> int {
        match self.mark(oracle) {
            Some(m) => equity_of(self.capital@ as int, self.pnl@ as int, m),
            None => 0,
        }
    }

    /// Whether the equity exceeds the margin of `bps` basis points.
    pub open spec fn above_margin(self, oracle: int, bps: int) -> bool {
        self.equity_mtm(oracle) > margin_required(self.position_size@ as int, oracle, bps)
    }

    /// Whether the account has a position and does not exceed its margin.
    pub open spec fn below_margin(self, oracle: int, bps: int) -> bool {
        self.position_size@ != 0 && !self.above_margin(oracle, bps)
    }
}

/// The margin that a partial liquidation aims at.
pub open spec fn liquidation_target_bps(p: RiskParams) -> int {
    min_int(p.maintenance_margin_bps + p.liquidation_buffer_bps, u64::MAX as int)
}

/// The largest position that the equity carries at the target margin, less one unit.
pub open spec fn safe_remainder(p: RiskParams, a: Account, oracle: int) -> int {
    let denominator = sat_u(oracle * liquidation_target_bps(p));
    let carried = if denominator == 0 {
        0
    } else {
        min_int(
            sat_u(a.equity_mtm(oracle) * 10_000_000_000) / denominator,
            abs_sat(a.position_size@ as int),
        )
    };
    monus(carried, 1)
}

/// How much of a position to close, and whether that is all of it: what exceeds the safe
/// remainder, or everything where the remainder would be dust.
pub open spec fn liquidation_close(p: RiskParams, a: Account, oracle: int) -> (int, bool) {
    let size = abs_sat(a.position_size@ as int);
    let keep = safe_remainder(p, a, oracle);
    if size == 0 {
        (0, false)
    } else if keep < p.min_liquidation_abs@ {
        (size, true)
    } else {
        (size - keep, keep == 0)
    }
}

/// Profit of closing `size` units, with an out-of-range product reported.
pub(crate) fn slice_pnl_exec(pos: i128, size: u128, entry: u64, oracle: u64) -> (r: Option<i128>)
    requires
        size <= i128::MAX,
    ensures
        match slice_pnl(pos as int, size as int, entry as int, oracle as int) {
            Some(m) => r == Some(m as i128) && fits_i(m),
            None => r is None,
        },
{
    let diff: i128 = if pos > 0 {
        (oracle as i128) - (entry as i128)
    } else {
        (entry as i128) - (oracle as i128)
    };
    match diff.checked_mul(size as i128) {
        Some(product) => {
            proof {
                crate::math::lemma_tdiv_fits(product as int, 1_000_000);
            }
            Some(div_trunc_i128(product, 1_000_000))
        },
        None => None,
    }
}

/// Value of `size` units at a price.
pub(crate) fn notional_exec(size: u128, price: u64) -> (r: u128)
    ensures
        r == notional(size as int, price as int),
{
    mul_u128(size, price as u128) / E6
}

/// Basis points of a value.
pub(crate) fn bps_of_exec(value: u128, bps: u64) -> (r: u128)
    ensures
        r == bps_of(value as int, bps as int),
{
    mul_u128(value, bps as u128) / 10_000
}

/// Margin that a position requires.
pub(crate) fn margin_required_exec(pos: i128, oracle: u64, bps: u64) -> (r: u128)
    ensures
        r == margin_required(pos as int, oracle as int, bps as int),
{
    bps_of_exec(notional_exec(abs_u128(pos), oracle), bps)
}

/// Equity from its three parts.
pub(crate) fn equity_exec(capital: u128, pnl: i128, mark: i128) -> (r: u128)
    ensures
        r == equity_of(capital as int, pnl as int, mark as int),
{
    let cap_i: i128 = u128_to_i128_clamped(capital);
    let eq_i: i128 = sat_add_i128(sat_add_i128(cap_i, pnl), mark);
    clamp_pos_i128(eq_i)
}

impl RiskEngine {
    /// Profit of closing a position at the oracle price: longs gain when the price rises,
    /// shorts when it falls. Rounded toward zero.
    pub fn mark_pnl_for_position(pos: i128, entry: u64, oracle: u64) -> (r: Result<
        i128,
        RiskError,
    >)
        ensures
            match mark_pnl(pos as int, entry as int, oracle as int) {
                Some(m) => r == Ok::<i128, RiskError>(m as i128) && fits_i(m),
                None => r == Err::<i128, RiskError>(RiskError::Overflow),
            },
    {
        if pos == 0 {
            return Ok(0);
        }
        match slice_pnl_exec(pos, abs_u128(pos), entry, oracle) {
            Some(m) => Ok(m),
            None => Err(RiskError::Overflow),
        }
    }

    /// How much of a position to close to bring the account back above maintenance margin
    /// and buffer, and whether that is the whole position.
    pub fn compute_liquidation_close_amount(&self, account: &Account, oracle_price: u64) -> (r: (
        u128,
        bool,
    ))
        ensures
            r.0 == liquidation_close(self.params, *account, oracle_price as int).0,
            r.1 == liquidation_close(self.params, *account, oracle_price as int).1,
    {
        let abs_pos: u128 = abs_u128(account.position_size.get());
        if abs_pos == 0 {
            return (0, false);
        }
        let equity: u128 = self.account_equity_mtm_at_oracle(account, oracle_price);
        let target_bps: u64 = self.params.maintenance_margin_bps.saturating_add(
            self.params.liquidation_buffer_bps,
        );
        let numerator: u128 = mul_u128(equity, 10_000_000_000);
        let denominator: u128 = mul_u128(oracle_price as u128, target_bps as u128);
        let mut abs_pos_safe_max: u128 = if denominator == 0 {
            0
        } else {
            numerator / denominator
        };
        abs_pos_safe_max = min_u128(abs_pos_safe_max, abs_pos);
        if abs_pos_safe_max > 0 {
            abs_pos_safe_max -= 1;
        }
        let close_abs: u128 = sub_u128(abs_pos, abs_pos_safe_max);
        let remaining: u128 = sub_u128(abs_pos, close_abs);
        if remaining < self.params.min_liquidation_abs.get() {
            return (abs_pos, true);
        }
        (close_abs, close_abs == abs_pos)
    }

    /// Capital and positive profit taken together.
    pub fn account_collateral(&self, account: &Account) -> (r: u128)
        ensures
            r == sat_u(account.capital@ + max_int(account.pnl@ as int, 0)),
    {
        add_u128(account.capital.get(), clamp_pos_i128(account.pnl.get()))
    }

    /// Equity without the profit or loss that is still unrealized.
    pub fn account_equity(&self, account: &Account) -> (r: u128)
        ensures
            r == equity_of(account.capital@ as int, account.pnl@ as int, 0),
    {
        equity_exec(account.capital.get(), account.pnl.get(), 0)
    }

    /// Mark-to-market equity at the oracle price. An out-of-range mark profit counts as no
    /// equity at all, so that it cannot block a liquidation.
    pub fn account_equity_mtm_at_oracle(&self, account: &Account, oracle_price: u64) -> (r: u128)
        ensures
            r == account.equity_mtm(oracle_price as int),
    {
        let mark: i128 = match Self::mark_pnl_for_position(
            account.position_size.get(),
            account.entry_price,
            oracle_price,
        ) {
            Ok(m) => m,
            Err(_) => return 0,
        };
        equity_exec(account.capital.get(), account.pnl.get(), mark)
    }

    /// Whether mark-to-market equity exceeds the margin of `bps` basis points.
    pub fn is_above_margin_bps_mtm(&self, account: &Account, oracle_price: u64, bps: u64) -> (r:
        bool)
        ensures
            r == account.above_margin(oracle_price as int, bps as int),
    {
        let equity: u128 = self.account_equity_mtm_at_oracle(account, oracle_price);
        equity > margin_required_exec(account.position_size.get(), oracle_price, bps)
    }

    /// Whether mark-to-market equity exceeds the maintenance margin.
    pub fn is_above_maintenance_margin_mtm(&self, account: &Account, oracle_price: u64) -> (r:
        bool)
        ensures
            r == account.above_margin(
                oracle_price as int,
                self.params.maintenance_margin_bps as int,
            ),
    {
        self.is_above_margin_bps_mtm(account, oracle_price, self.params.maintenance_margin_bps)
    }

    /// Whether realized equity exceeds the maintenance margin.
    pub fn is_above_maintenance_margin(&self, account: &Account, oracle_price: u64) -> (r: bool)
        ensures
            r == (equity_of(account.capital@ as int, account.pnl@ as int, 0) > margin_required(
                account.position_size@ as int,
                oracle_price as int,
                self.params.maintenance_margin_bps as int,
            )),
    {
        self.is_above_margin_bps(account, oracle_price, self.params.maintenance_margin_bps)
    }

    /// Whether realized equity exceeds the margin of `bps` basis points.
    pub fn is_above_margin_bps(&self, account: &Account, oracle_price: u64, bps: u64) -> (r: bool)
        ensures
            r == (equity_of(account.capital@ as int, account.pnl@ as int, 0) > margin_required(
                account.position_size@ as int,
                oracle_price as int,
                bps as int,
            )),
    {
        let equity: u128 = self.account_equity(account);
        equity > margin_required_exec(account.position_size.get(), oracle_price, bps)
    }

    /// Urgency of liquidating an account: how far its equity is below the maintenance margin.
    pub fn liq_priority_score(&self, a: &Account, oracle_price: u64) -> (r: u128)
        ensures
            r == (if a.position_size@ == 0 {
                0
            } else {
                monus(
                    margin_required(
                        a.position_size@ as int,
                        oracle_price as int,
                        self.params.maintenance_margin_bps as int,
                    ),
                    a.equity_mtm(oracle_price as int),
                )
            }),
    {
        if a.position_size.is_zero() {
            return 0;
        }
        let equity: u128 = self.account_equity_mtm_at_oracle(a, oracle_price);
        let maint: u128 = margin_required_exec(
            a.position_size.get(),
            oracle_price,
            self.params.maintenance_margin_bps,
        );
        sub_u128(maint, equity)
    }
}

} // verus!
