//! Trades between a liquidity provider and a user, at the price and size that the provider's
//! matching engine reports.
use vstd::prelude::*;

use crate::margin::{
    bps_of, bps_of_exec, equity_exec, equity_of, margin_required, margin_required_exec, notional,
    notional_exec,
};
use crate::math::{
    abs_sat, abs_u128, div_trunc_i128, fits_i, lemma_tdiv_fits, max_int, sat_add_i128, sat_i,
    sat_sub_i128, sat_u, saturating_abs_i128, tdiv, u128_as_i128, wrap_i,
};
use crate::state::{EngineState, RiskEngine};
use crate::types::{
    Account, AccountKind, MatchingEngine, OpClass, RiskError, RiskParams, TradeExecution,
    MAX_ACCOUNTS, MAX_ORACLE_PRICE, MAX_POSITION_ABS,
};
use crate::wide::{I128, U128};

verus! {

broadcast use crate::wide::group_wide;

/// Whether a reported fill is acceptable for a request: a sound price, and a size in the
/// direction of the request that does not exceed it.
pub open spec fn fill_is_valid(size: int, x: TradeExecution) -> bool {
    &&& 0 < x.price <= MAX_ORACLE_PRICE
    &&& x.size == 0 || {
        &&& x.size != i128::MIN
        &&& abs_sat(x.size as int) <= MAX_POSITION_ABS
        &&& (x.size > 0) == (size > 0)
        &&& abs_sat(x.size as int) <= abs_sat(size)
    }
}

/// The fee for a fill.
pub open spec fn trade_fee(p: RiskParams, x: TradeExecution) -> int {
    bps_of(notional(abs_sat(x.size as int), x.price as int), p.trading_fee_bps as int)
}

/// What the user gains by trading off the oracle price, rounded toward zero; the provider
/// gains the opposite.
pub open spec fn trade_pnl(oracle: int, x: TradeExecution) -> int {
    tdiv((oracle - x.price) * x.size, 1_000_000)
}

/// Whether a party may hold position `pos` with profit `pnl`: flat, or above maintenance
/// margin.
pub open spec fn may_hold(p: RiskParams, a: Account, pos: int, pnl: int, oracle: int) -> bool {
    pos == 0 || equity_of(a.capital@ as int, pnl, 0) > margin_required(
        pos,
        oracle,
        p.maintenance_margin_bps as int,
    )
}

impl Account {
    /// The account after a fill.
    pub open spec fn filled(self, pos: int, pnl: int, oracle: u64) -> Account {
        Account {
            pnl: I128::of(pnl),
            position_size: I128::of(pos),
            entry_price: oracle,
            ..self
        }
    }
}

impl EngineState {
    /// Whether a trade of `size` raises the exposure of either party.
    pub open spec fn raises_risk(self, lp: int, user: int, size: int) -> bool {
        let u = self.accounts[user].position_size@;
        let l = self.accounts[lp].position_size@;
        abs_sat(sat_i(u + size)) > abs_sat(u as int) || abs_sat(sat_i(l - size)) > abs_sat(l as int)
    }

    /// Whether a trade may be put to the matching engine.
    pub open spec fn check_trade(self, lp: int, user: int, now: u64, oracle: u64, size: i128) -> Result<
        (),
        RiskError,
    > {
        if !self.crank_is_fresh(now) {
            Err(RiskError::Unauthorized)
        } else if !self.is_used(lp) || !self.is_used(user) {
            Err(RiskError::AccountNotFound)
        } else if oracle == 0 || oracle > MAX_ORACLE_PRICE {
            Err(RiskError::Overflow)
        } else if size == 0 || size == i128::MIN || abs_sat(size as int) > MAX_POSITION_ABS {
            Err(RiskError::Overflow)
        } else if self.accounts[lp].kind != AccountKind::LP || self.accounts[user].kind
            != AccountKind::User {
            Err(RiskError::AccountKindMismatch)
        } else if !self.raises_risk(lp, user, size as int) {
            Ok(())
        } else if !self.sweep_is_recent(now) {
            Err(RiskError::Unauthorized)
        } else if self.risk_reduction_only {
            Err(RiskError::RiskReductionOnlyMode)
        } else {
            Ok(())
        }
    }

    /// Funding, mark and fees of both parties settled, the user's first at each step.
    pub open spec fn pair_settled(self, lp: int, user: int, now: u64, oracle: u64) -> (
        EngineState,
        Result<(), RiskError>,
    ) {
        match self.touch_account(user) {
            (s1, Err(e)) => (s1, Err(e)),
            (s1, Ok(_)) => match s1.touch_account(lp) {
                (s2, Err(e)) => (s2, Err(e)),
                (s2, Ok(_)) => match s2.settle_mark_to_oracle(user, oracle) {
                    (s3, Err(e)) => (s3, Err(e)),
                    (s3, Ok(_)) => match s3.settle_mark_to_oracle(lp, oracle) {
                        (s4, Err(e)) => (s4, Err(e)),
                        (s4, Ok(_)) => match s4.settle_maintenance_fee(user, now, oracle) {
                            (s5, Err(e)) => (s5, Err(e)),
                            (s5, Ok(_)) => match s5.settle_maintenance_fee(lp, now, oracle) {
                                (s6, Err(e)) => (s6, Err(e)),
                                (s6, Ok(_)) => (s6, Ok(())),
                            },
                        },
                    },
                },
            },
        }
    }

    /// The user's position after a fill.
    pub open spec fn user_position(self, user: int, x: TradeExecution) -> int {
        self.accounts[user].position_size@ + x.size
    }

    /// The provider's position after a fill.
    pub open spec fn lp_position(self, lp: int, x: TradeExecution) -> int {
        self.accounts[lp].position_size@ - x.size
    }

    /// The user's profit after a fill, less the fee.
    pub open spec fn user_pnl(self, user: int, oracle: u64, x: TradeExecution) -> int {
        self.accounts[user].pnl@ + trade_pnl(oracle as int, x) - wrap_i(
            trade_fee(self.params, x),
        )
    }

    /// The provider's profit after a fill.
    pub open spec fn lp_pnl(self, lp: int, oracle: u64, x: TradeExecution) -> int {
        self.accounts[lp].pnl@ - trade_pnl(oracle as int, x)
    }

    /// Whether all numbers of a fill are in range.
    pub open spec fn fill_in_range(self, lp: int, user: int, oracle: u64, x: TradeExecution) -> bool {
        let pu = self.user_position(user, x);
        let pl = self.lp_position(lp, x);
        &&& fits_i(pu) && abs_sat(pu) <= MAX_POSITION_ABS
        &&& fits_i(pl) && abs_sat(pl) <= MAX_POSITION_ABS
        &&& fits_i((oracle - x.price) * x.size)
        &&& fits_i(self.accounts[user].pnl@ + trade_pnl(oracle as int, x))
        &&& fits_i(self.user_pnl(user, oracle, x))
        &&& fits_i(self.lp_pnl(lp, oracle, x))
    }

    /// A fill booked on both parties, the insurance fund and the totals. The user has the fee
    /// back as credits. The bound on the positions of liquidity providers rises with them, and
    /// so does the one that the sweep under way will replace it by.
    pub open spec fn with_fill(self, lp: int, user: int, oracle: u64, x: TradeExecution) -> EngineState {
        let u = self.accounts[user];
        let l = self.accounts[lp];
        let pu = self.user_position(user, x);
        let pl = self.lp_position(lp, x);
        let fee = trade_fee(self.params, x);
        EngineState {
            total_open_interest: U128::of(
                sat_u(
                    self.total_open_interest@ + (abs_sat(pu) + abs_sat(pl)) - (u.size() + l.size()),
                ),
            ),
            net_lp_pos: I128::of(sat_i(sat_i(self.net_lp_pos@ - l.position_size@) + pl)),
            lp_sum_abs: U128::of(sat_u(self.lp_sum_abs@ + abs_sat(pl) - l.size())),
            lp_max_abs: U128::of(max_int(self.lp_max_abs@ as int, abs_sat(pl))),
            lp_max_abs_sweep: U128::of(max_int(self.lp_max_abs_sweep@ as int, abs_sat(pl))),
            ..self
        }.with_fee_income(fee).with_account(
            user,
            u.credited(fee).filled(pu, self.user_pnl(user, oracle, x), oracle),
        ).with_account(lp, l.filled(pl, self.lp_pnl(lp, oracle, x), oracle))
    }

    /// A fill between settled parties, if both are above maintenance margin with it.
    pub open spec fn fill_settled(self, lp: int, user: int, oracle: u64, x: TradeExecution) -> (
        EngineState,
        Result<(), RiskError>,
    ) {
        if !self.fill_in_range(lp, user, oracle, x) {
            (self, Err(RiskError::Overflow))
        } else if !may_hold(
            self.params,
            self.accounts[user],
            self.user_position(user, x),
            self.user_pnl(user, oracle, x),
            oracle as int,
        ) || !may_hold(
            self.params,
            self.accounts[lp],
            self.lp_position(lp, x),
            self.lp_pnl(lp, oracle, x),
            oracle as int,
        ) {
            (self, Err(RiskError::Undercollateralized))
        } else {
            (self.with_fill(lp, user, oracle, x), Ok(()))
        }
    }

    /// Warmup of both parties settled at the old rates, and the rates set anew.
    pub open spec fn pair_rewarmed(self, lp: int, user: int) -> (
        EngineState,
        Result<(), RiskError>,
    ) {
        match self.settle_warmup_to_capital(user) {
            (s1, Err(e)) => (s1, Err(e)),
            (s1, Ok(_)) => match s1.settle_warmup_to_capital(lp) {
                (s2, Err(e)) => (s2, Err(e)),
                (s2, Ok(_)) => match s2.update_warmup_slope(user) {
                    (s3, Err(e)) => (s3, Err(e)),
                    (s3, Ok(_)) => s3.update_warmup_slope(lp),
                },
            },
        }
    }

    /// A reported fill applied. Nothing happens where the fill is empty.
    pub open spec fn apply_fill(
        self,
        lp: int,
        user: int,
        now: u64,
        oracle: u64,
        size: i128,
        x: TradeExecution,
    ) -> (EngineState, Result<(), RiskError>) {
        if !fill_is_valid(size as int, x) {
            (self, Err(RiskError::InvalidMatchingEngine))
        } else if x.size == 0 {
            (self, Ok(()))
        } else {
            match self.pair_settled(lp, user, now, oracle) {
                (s1, Err(e)) => (s1, Err(e)),
                (s1, Ok(_)) => match s1.fill_settled(lp, user, oracle, x) {
                    (s2, Err(e)) => (s2, Err(e)),
                    (s2, Ok(_)) => s2.pair_rewarmed(lp, user),
                },
            }
        }
    }

    /// A trade, given what the matching engine answers.
    pub open spec fn execute_trade(
        self,
        lp: int,
        user: int,
        now: u64,
        oracle: u64,
        size: i128,
        answer: Result<TradeExecution, RiskError>,
    ) -> (EngineState, Result<(), RiskError>) {
        let s0 = self.at_slot(now);
        match self.check_trade(lp, user, now, oracle, size) {
            Err(e) => (s0, Err(e)),
            Ok(_) => match answer {
                Err(e) => (s0, Err(e)),
                Ok(x) => s0.apply_fill(lp, user, now, oracle, size, x),
            },
        }
    }
}

/// A total in which one part changes from `before` to `after`.
fn shifted(total: U128, before: u128, after: u128) -> (r: U128)
    ensures
        r == U128::of(sat_u(total@ + after - before)),
{
    if after > before {
        total.saturating_add(after - before)
    } else {
        total.saturating_sub(before - after)
    }
}

/// Whether a reported fill is acceptable for a request.
pub fn is_valid_fill(size: i128, execution: TradeExecution) -> (r: bool)
    ensures
        r == fill_is_valid(size as int, execution),
{
    let exec_size: i128 = execution.size;
    if execution.price == 0 || execution.price > MAX_ORACLE_PRICE {
        return false;
    }
    if exec_size == 0 {
        return true;
    }
    if exec_size == i128::MIN {
        return false;
    }
    if abs_u128(exec_size) > MAX_POSITION_ABS {
        return false;
    }
    if (exec_size > 0) != (size > 0) {
        return false;
    }
    saturating_abs_i128(exec_size) <= saturating_abs_i128(size)
}

impl RiskEngine {
    /// Whether a trade may be put to the matching engine.
    pub fn check_trade(
        &self,
        lp_idx: u16,
        user_idx: u16,
        now_slot: u64,
        oracle_price: u64,
        size: i128,
    ) -> (r: Result<(), RiskError>)
        requires
            self.wf(),
        ensures
            r == self@.check_trade(lp_idx as int, user_idx as int, now_slot, oracle_price, size),
    {
        self.require_fresh_crank(now_slot)?;
        if !self.is_used(lp_idx as usize) || !self.is_used(user_idx as usize) {
            return Err(RiskError::AccountNotFound);
        }
        if oracle_price == 0 || oracle_price > MAX_ORACLE_PRICE {
            return Err(RiskError::Overflow);
        }
        if size == 0 || size == i128::MIN {
            return Err(RiskError::Overflow);
        }
        if abs_u128(size) > MAX_POSITION_ABS {
            return Err(RiskError::Overflow);
        }
        if !self.accounts[lp_idx as usize].is_lp() {
            return Err(RiskError::AccountKindMismatch);
        }
        if !self.accounts[user_idx as usize].is_user() {
            return Err(RiskError::AccountKindMismatch);
        }
        let old_user_pos: i128 = self.accounts[user_idx as usize].position_size.get();
        let old_lp_pos: i128 = self.accounts[lp_idx as usize].position_size.get();
        let new_user_pos: i128 = sat_add_i128(old_user_pos, size);
        let new_lp_pos: i128 = sat_sub_i128(old_lp_pos, size);
        let user_inc: bool = saturating_abs_i128(new_user_pos) > saturating_abs_i128(old_user_pos);
        let lp_inc: bool = saturating_abs_i128(new_lp_pos) > saturating_abs_i128(old_lp_pos);
        if user_inc || lp_inc {
            self.require_recent_full_sweep(now_slot)?;
            self.enforce_op(OpClass::RiskIncrease)
        } else {
            self.enforce_op(OpClass::RiskReduce)
        }
    }

    /// Settles funding, mark and fees of both parties of a trade.
    fn settle_pair(&mut self, lp_idx: u16, user_idx: u16, now_slot: u64, oracle_price: u64) -> (r:
        Result<(), RiskError>)
        requires
            old(self).wf(),
        ensures
            final(self)@ == old(self)@.pair_settled(
                lp_idx as int,
                user_idx as int,
                now_slot,
                oracle_price,
            ).0,
            r == old(self)@.pair_settled(
                lp_idx as int,
                user_idx as int,
                now_slot,
                oracle_price,
            ).1,
            final(self).wf(),
    {
        self.touch_account(user_idx)?;
        self.touch_account(lp_idx)?;
        self.settle_mark_to_oracle(user_idx, oracle_price)?;
        self.settle_mark_to_oracle(lp_idx, oracle_price)?;
        self.settle_maintenance_fee(user_idx, now_slot, oracle_price)?;
        self.settle_maintenance_fee(lp_idx, now_slot, oracle_price)?;
        Ok(())
    }

    /// Whether a party may hold a position.
    fn may_hold(&self, account: &Account, pos: i128, pnl: i128, oracle_price: u64) -> (r: bool)
        ensures
            r == may_hold(self.params, *account, pos as int, pnl as int, oracle_price as int),
    {
        if pos == 0 {
            return true;
        }
        let equity: u128 = equity_exec(account.capital.get(), pnl, 0);
        equity > margin_required_exec(pos, oracle_price, self.params.maintenance_margin_bps)
    }

    /// The fee for a fill.
    fn fee_of_fill(&self, execution: TradeExecution) -> (r: u128)
        ensures
            r == trade_fee(self.params, execution),
    {
        bps_of_exec(
            notional_exec(abs_u128(execution.size), execution.price),
            self.params.trading_fee_bps,
        )
    }

    /// The two positions and profits after a fill, with the fee; nothing where a number is out
    /// of range.
    fn compute_fill(
        &self,
        lp_idx: u16,
        user_idx: u16,
        oracle_price: u64,
        execution: TradeExecution,
    ) -> (r: Option<((i128, i128), (i128, i128))>)
        requires
            self.wf(),
            lp_idx < MAX_ACCOUNTS,
            user_idx < MAX_ACCOUNTS,
        ensures
            r is Some == self@.fill_in_range(
                lp_idx as int,
                user_idx as int,
                oracle_price,
                execution,
            ),
            r matches Some(((pu, nu), (pl, nl))) ==> {
                &&& pu == self@.user_position(user_idx as int, execution)
                &&& nu == self@.user_pnl(user_idx as int, oracle_price, execution)
                &&& pl == self@.lp_position(lp_idx as int, execution)
                &&& nl == self@.lp_pnl(lp_idx as int, oracle_price, execution)
            },
    {
        let user: &Account = &self.accounts[user_idx as usize];
        let lp: &Account = &self.accounts[lp_idx as usize];
        let new_user_position: i128 = user.position_size.get().checked_add(execution.size)?;
        let new_lp_position: i128 = lp.position_size.get().checked_sub(execution.size)?;
        if abs_u128(new_user_position) > MAX_POSITION_ABS || abs_u128(new_lp_position)
            > MAX_POSITION_ABS {
            return None;
        }
        let price_diff: i128 = (oracle_price as i128) - (execution.price as i128);
        let product: i128 = price_diff.checked_mul(execution.size)?;
        proof {
            lemma_tdiv_fits(product as int, 1_000_000);
        }
        let trade_pnl: i128 = div_trunc_i128(product, 1_000_000);
        let fee: i128 = u128_as_i128(self.fee_of_fill(execution));
        let new_user_pnl: i128 = user.pnl.get().checked_add(trade_pnl)?.checked_sub(fee)?;
        let new_lp_pnl: i128 = lp.pnl.get().checked_sub(trade_pnl)?;
        Some(((new_user_position, new_user_pnl), (new_lp_position, new_lp_pnl)))
    }

    /// Brings the totals up to date with a fill.
    fn book_totals(
        &mut self,
        old_user_pos: i128,
        new_user_pos: i128,
        old_lp_pos: i128,
        new_lp_pos: i128,
    )
        requires
            old(self).wf(),
        ensures
            final(self)@ == (EngineState {
                total_open_interest: U128::of(
                    sat_u(
                        old(self).total_open_interest@ + (abs_sat(new_user_pos as int) + abs_sat(
                            new_lp_pos as int,
                        )) - (abs_sat(old_user_pos as int) + abs_sat(old_lp_pos as int)),
                    ),
                ),
                net_lp_pos: I128::of(
                    sat_i(sat_i(old(self).net_lp_pos@ - old_lp_pos) + new_lp_pos),
                ),
                lp_sum_abs: U128::of(
                    sat_u(
                        old(self).lp_sum_abs@ + abs_sat(new_lp_pos as int) - abs_sat(
                            old_lp_pos as int,
                        ),
                    ),
                ),
                lp_max_abs: U128::of(
                    max_int(old(self).lp_max_abs@ as int, abs_sat(new_lp_pos as int)),
                ),
                lp_max_abs_sweep: U128::of(
                    max_int(old(self).lp_max_abs_sweep@ as int, abs_sat(new_lp_pos as int)),
                ),
                ..old(self)@
            }),
            final(self).wf(),
    {
        let old_lp_abs: u128 = abs_u128(old_lp_pos);
        let new_lp_abs: u128 = abs_u128(new_lp_pos);
        let old_oi: u128 = abs_u128(old_user_pos) + old_lp_abs;
        let new_oi: u128 = abs_u128(new_user_pos) + new_lp_abs;
        self.total_open_interest = shifted(self.total_open_interest, old_oi, new_oi);
        self.net_lp_pos = self.net_lp_pos.saturating_sub(old_lp_pos).saturating_add(new_lp_pos);
        self.lp_sum_abs = shifted(self.lp_sum_abs, old_lp_abs, new_lp_abs);
        self.lp_max_abs = self.lp_max_abs.max(U128::new(new_lp_abs));
        self.lp_max_abs_sweep = self.lp_max_abs_sweep.max(U128::new(new_lp_abs));
    }

    /// Books a fill between settled parties.
    fn fill_settled(
        &mut self,
        lp_idx: u16,
        user_idx: u16,
        oracle_price: u64,
        execution: TradeExecution,
    ) -> (r: Result<(), RiskError>)
        requires
            old(self).wf(),
            lp_idx < MAX_ACCOUNTS,
            user_idx < MAX_ACCOUNTS,
            lp_idx != user_idx,
        ensures
            final(self)@ == old(self)@.fill_settled(
                lp_idx as int,
                user_idx as int,
                oracle_price,
                execution,
            ).0,
            r == old(self)@.fill_settled(
                lp_idx as int,
                user_idx as int,
                oracle_price,
                execution,
            ).1,
            final(self).wf(),
    {
        let ((user_pos, user_pnl), (lp_pos, lp_pnl)): (
            (i128, i128),
            (i128, i128),
        ) = match self.compute_fill(lp_idx, user_idx, oracle_price, execution) {
            Some(x) => x,
            None => {
                return Err(RiskError::Overflow);
            },
        };
        if !self.may_hold(&self.accounts[user_idx as usize], user_pos, user_pnl, oracle_price) {
            return Err(RiskError::Undercollateralized);
        }
        if !self.may_hold(&self.accounts[lp_idx as usize], lp_pos, lp_pnl, oracle_price) {
            return Err(RiskError::Undercollateralized);
        }
        let fee: u128 = self.fee_of_fill(execution);
        let old_user_pos: i128 = self.accounts[user_idx as usize].position_size.get();
        let old_lp_pos: i128 = self.accounts[lp_idx as usize].position_size.get();
        self.book_totals(old_user_pos, user_pos, old_lp_pos, lp_pos);
        self.book_fee_income(fee);
        self.accounts[user_idx as usize].credit_fees(fee);
        self.accounts[user_idx as usize].take_fill(user_pos, user_pnl, oracle_price);
        self.accounts[lp_idx as usize].take_fill(lp_pos, lp_pnl, oracle_price);
        proof {
            assert(self@ =~= old(self)@.with_fill(
                lp_idx as int,
                user_idx as int,
                oracle_price,
                execution,
            ));
        }
        Ok(())
    }

    /// Settles warmup of both parties at the old rates, and sets the rates anew.
    fn rewarm_pair(&mut self, lp_idx: u16, user_idx: u16) -> (r: Result<(), RiskError>)
        requires
            old(self).wf(),
        ensures
            final(self)@ == old(self)@.pair_rewarmed(lp_idx as int, user_idx as int).0,
            r == old(self)@.pair_rewarmed(lp_idx as int, user_idx as int).1,
            final(self).wf(),
    {
        self.settle_warmup_to_capital(user_idx)?;
        self.settle_warmup_to_capital(lp_idx)?;
        self.update_warmup_slope(user_idx)?;
        self.update_warmup_slope(lp_idx)
    }

    /// Applies the fill that a matching engine reported for a request of `size`.
    pub fn apply_fill(
        &mut self,
        lp_idx: u16,
        user_idx: u16,
        now_slot: u64,
        oracle_price: u64,
        size: i128,
        execution: TradeExecution,
    ) -> (r: Result<(), RiskError>)
        requires
            old(self).wf(),
            lp_idx < MAX_ACCOUNTS,
            user_idx < MAX_ACCOUNTS,
            lp_idx != user_idx,
        ensures
            final(self)@ == old(self)@.apply_fill(
                lp_idx as int,
                user_idx as int,
                now_slot,
                oracle_price,
                size,
                execution,
            ).0,
            r == old(self)@.apply_fill(
                lp_idx as int,
                user_idx as int,
                now_slot,
                oracle_price,
                size,
                execution,
            ).1,
            final(self).wf(),
    {
        if !is_valid_fill(size, execution) {
            return Err(RiskError::InvalidMatchingEngine);
        }
        if execution.size == 0 {
            return Ok(());
        }
        self.settle_pair(lp_idx, user_idx, now_slot, oracle_price)?;
        self.fill_settled(lp_idx, user_idx, oracle_price, execution)?;
        self.rewarm_pair(lp_idx, user_idx)
    }

    /// Executes a trade between a liquidity provider and a user. The provider's matching
    /// engine decides on the price and size; its answer is checked and applied.
    pub fn execute_trade<M: MatchingEngine>(
        &mut self,
        matcher: &M,
        lp_idx: u16,
        user_idx: u16,
        now_slot: u64,
        oracle_price: u64,
        size: i128,
    ) -> (r: Result<(), RiskError>)
        requires
            old(self).wf(),
        ensures
            match old(self)@.check_trade(
                lp_idx as int,
                user_idx as int,
                now_slot,
                oracle_price,
                size,
            ) {
                Err(e) => final(self)@ == old(self)@.at_slot(now_slot) && r == Err::<(), RiskError>(
                    e,
                ),
                Ok(_) => exists|answer: Result<TradeExecution, RiskError>|
                    #![trigger old(self)@.execute_trade(
                        lp_idx as int,
                        user_idx as int,
                        now_slot,
                        oracle_price,
                        size,
                        answer,
                    )]
                    {
                        &&& call_ensures(
                            M::execute_match,
                            (
                                matcher,
                                &old(self)@.accounts[lp_idx as int].matcher_program,
                                &old(self)@.accounts[lp_idx as int].matcher_context,
                                old(self)@.accounts[lp_idx as int].account_id,
                                oracle_price,
                                size,
                            ),
                            answer,
                        )
                        &&& final(self)@ == old(self)@.execute_trade(
                            lp_idx as int,
                            user_idx as int,
                            now_slot,
                            oracle_price,
                            size,
                            answer,
                        ).0
                        &&& r == old(self)@.execute_trade(
                            lp_idx as int,
                            user_idx as int,
                            now_slot,
                            oracle_price,
                            size,
                            answer,
                        ).1
                    },
            },
            final(self).wf(),
    {
        self.current_slot = now_slot;
        self.check_trade(lp_idx, user_idx, now_slot, oracle_price, size)?;
        let lp: Account = self.accounts[lp_idx as usize];
        let answer: Result<TradeExecution, RiskError> = matcher.execute_match(
            &lp.matcher_program,
            &lp.matcher_context,
            lp.account_id,
            oracle_price,
            size,
        );
        let ghost outcome = old(self)@.execute_trade(
            lp_idx as int,
            user_idx as int,
            now_slot,
            oracle_price,
            size,
            answer,
        );
        let execution: TradeExecution = answer?;
        self.apply_fill(lp_idx, user_idx, now_slot, oracle_price, size, execution)
    }
}

impl Account {
    /// Sets position and profit after a fill, and the entry to the oracle price.
    fn take_fill(&mut self, pos: i128, pnl: i128, oracle_price: u64)
        ensures
            *final(self) == old(self).filled(pos as int, pnl as int, oracle_price),
    {
        self.pnl = I128::new(pnl);
        self.position_size = I128::new(pos);
        self.entry_price = oracle_price;
    }
}

} // verus!
