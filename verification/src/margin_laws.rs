//! What holds of margins and liquidations.
use vstd::prelude::*;

use crate::conservation_laws::lemma_settled_account;
use crate::isolation_laws::{law_settlement_is_isolated, lemma_forced_touch_frame};
use crate::margin::{
    liquidation_close, liquidation_target_bps, margin_required, mark_pnl, notional, price_move,
    safe_remainder,
};
use crate::math::{fits_i, sat_u, tdiv};
use crate::state::EngineState;
use crate::types::{
    Account, RiskError, RiskParams, TradeExecution, MAX_ACCOUNTS, MAX_ORACLE_PRICE,
    MAX_POSITION_ABS,
};

verus! {

broadcast use crate::wide::group_wide;

/// Within the largest accepted price and position the mark profit can always be computed, and
/// nothing in it is out of range.
pub proof fn law_bounds_keep_mark_in_range(pos: int, entry: int, oracle: int)
    requires
        -MAX_POSITION_ABS <= pos <= MAX_POSITION_ABS,
        0 <= entry <= MAX_ORACLE_PRICE,
        0 <= oracle <= MAX_ORACLE_PRICE,
    ensures
        mark_pnl(pos, entry, oracle) == Some(tdiv((oracle - entry) * pos, 1_000_000)),
        fits_i((oracle - entry) * pos),
{
    let d = oracle - entry;
    let size = if pos < 0 {
        -pos
    } else {
        pos
    };
    assert((-d) * (-pos) == d * pos && d * 0 == 0) by (nonlinear_arith);
    let most = 100_000_000_000_000_000_000_000_000_000_000_000int;
    assert(-most <= d * pos <= most) by (nonlinear_arith)
        requires
            -100_000_000_000_000_000_000 <= pos <= 100_000_000_000_000_000_000,
            -1_000_000_000_000_000 <= d <= 1_000_000_000_000_000,
            most == 100_000_000_000_000_000_000_000_000_000_000_000int,
    ;
    assert(price_move(pos, entry, oracle) * size == d * pos);
}

/// Settling the mark of an account that is to be liquidated does not fail on any profit or
/// loss, however large, while price and position are within what is accepted.
pub proof fn law_forced_mark_settlement_succeeds(s: EngineState, idx: int, oracle: u64)
    requires
        s.is_used(idx),
        -MAX_POSITION_ABS <= s.accounts[idx].position_size@ <= MAX_POSITION_ABS,
        s.accounts[idx].entry_price <= MAX_ORACLE_PRICE,
        oracle <= MAX_ORACLE_PRICE,
    ensures
        s.settle_mark_to_oracle_best_effort(idx, oracle).1 is Ok,
{
    law_bounds_keep_mark_in_range(
        s.accounts[idx].position_size@ as int,
        s.accounts[idx].entry_price as int,
        oracle as int,
    );
}

/// What a partial liquidation leaves open requires less margin, at the target, than the equity
/// that there is, however the numbers are rounded.
pub proof fn law_safe_remainder_is_carried(p: RiskParams, a: Account, oracle: u64)
    requires
        safe_remainder(p, a, oracle as int) > 0,
    ensures
        margin_required(
            safe_remainder(p, a, oracle as int),
            oracle as int,
            liquidation_target_bps(p),
        ) < a.equity_mtm(oracle as int),
{
    let o = oracle as int;
    let t = liquidation_target_bps(p);
    let keep = safe_remainder(p, a, o);
    let eq = a.equity_mtm(o);
    let d = o * t;
    assert(0 <= d <= u64::MAX * u64::MAX) by (nonlinear_arith)
        requires
            0 <= o <= u64::MAX,
            0 <= t <= u64::MAX,
            d == o * t,
    ;
    let e = sat_u(eq * 10_000_000_000);
    let q = e / d;
    assert(q * d <= e) by (nonlinear_arith)
        requires
            d > 0,
            q == e / d,
    ;
    assert(keep * d <= q * d - d) by (nonlinear_arith)
        requires
            keep <= q - 1,
            d > 0,
    ;
    let n = notional(keep, o);
    assert(keep * o >= 0) by (nonlinear_arith)
        requires
            keep > 0,
            o >= 0,
    ;
    assert(0 <= n && n * 1_000_000 <= keep * o);
    assert(n * t >= 0) by (nonlinear_arith)
        requires
            n >= 0,
            t >= 0,
    ;
    let m = margin_required(keep, o, t);
    assert(m * 10_000 <= n * t);
    assert(n * t * 1_000_000 <= keep * d) by (nonlinear_arith)
        requires
            n * 1_000_000 <= keep * o,
            t >= 0,
            d == o * t,
    ;
}

/// A liquidation never closes more than there is, and what it leaves is the safe remainder or
/// nothing.
pub proof fn law_liquidation_leaves_safe_remainder(p: RiskParams, a: Account, oracle: u64)
    ensures
        ({
            let (close, full) = liquidation_close(p, a, oracle as int);
            &&& 0 <= close <= a.size()
            &&& a.size() > 0 ==> close > 0
            &&& a.size() - close == 0 || a.size() - close == safe_remainder(p, a, oracle as int)
            &&& full == (a.size() > 0 && close == a.size())
            &&& a.size() - close > 0 ==> a.size() - close >= p.min_liquidation_abs@
        }),
{
    let o = oracle as int;
    let d = sat_u(o * liquidation_target_bps(p));
    let e = sat_u(a.equity_mtm(o) * 10_000_000_000);
    if d > 0 {
        assert(e / d >= 0) by (nonlinear_arith)
            requires
                e >= 0,
                d > 0,
        ;
    }
}

/// Once an account was liquidated, and before the fee is taken, it has no position or exceeds
/// the target margin.
pub proof fn law_liquidation_restores_margin(s: EngineState, idx: int, oracle: u64)
    requires
        s.wf(),
        s.is_used(idx),
        s.liquidation_closed(idx, oracle).1 matches Ok(Some(_)),
    ensures
        !s.liquidation_closed(idx, oracle).0.accounts[idx].below_margin(
            oracle as int,
            liquidation_target_bps(s.params),
        ),
{
    let a = s.accounts[idx];
    let size = liquidation_close(s.params, a, oracle as int).0;
    let (s1, r) = s.close_up_to_deferred(idx, oracle, size);
    assert(s1.params == s.params);
    assert(s1.is_used(idx));
    lemma_full_close_flattens(s1, idx, oracle);
}

proof fn lemma_full_close_flattens(s: EngineState, idx: int, oracle: u64)
    requires
        s.accounts.len() == MAX_ACCOUNTS,
        s.is_used(idx),
    ensures
        s.close_deferred(idx, oracle).0.accounts[idx].position_size@ == 0,
{
}

/// An account that its margin covers is not liquidated.
pub proof fn law_healthy_account_is_spared(s: EngineState, idx: int, now: u64, oracle: u64)
    requires
        s.wf(),
        s.is_used(idx),
        ({
            let (s1, r) = s.at_slot(now).touch_account_for_liquidation(idx, now, oracle);
            r is Ok && s1.accounts[idx].above_margin(
                oracle as int,
                s.params.maintenance_margin_bps as int,
            )
        }),
    ensures
        s.liquidate_at_oracle(idx, now, oracle).1 != Ok::<bool, RiskError>(true),
        s.liquidate_at_oracle(idx, now, oracle).0.accounts[idx].position_size
            == s.accounts[idx].position_size,
{
    let s0 = s.at_slot(now);
    lemma_forced_touch_frame(s0, idx, now, oracle);
}

/// After a withdrawal an account with a position has its initial margin, and exceeds its
/// maintenance margin.
pub proof fn law_withdrawal_keeps_margin(
    s: EngineState,
    idx: int,
    amount: u128,
    now: u64,
    oracle: u64,
)
    requires
        s.wf(),
        s.withdraw(idx, amount, now, oracle).1 is Ok,
    ensures
        ({
            let b = s.withdraw(idx, amount, now, oracle).0.accounts[idx];
            b.position_size@ != 0 ==> b.equity_mtm(oracle as int) >= margin_required(
                b.position_size@ as int,
                oracle as int,
                s.params.initial_margin_bps as int,
            ) && b.above_margin(oracle as int, s.params.maintenance_margin_bps as int)
        }),
{
    law_settlement_is_isolated(s.at_slot(now), idx, now, oracle);
    let s1 = s.at_slot(now).touch_account_full(idx, now, oracle).0;
    lemma_settled_withdrawal_keeps_margin(s1, idx, amount, oracle);
}

proof fn lemma_settled_withdrawal_keeps_margin(
    s: EngineState,
    idx: int,
    amount: u128,
    oracle: u64,
)
    requires
        s.wf(),
        0 <= idx < MAX_ACCOUNTS,
        s.withdraw_settled(idx, amount, oracle).1 is Ok,
    ensures
        ({
            let b = s.withdraw_settled(idx, amount, oracle).0.accounts[idx];
            b.position_size@ != 0 ==> b.equity_mtm(oracle as int) >= margin_required(
                b.position_size@ as int,
                oracle as int,
                s.params.initial_margin_bps as int,
            ) && b.above_margin(oracle as int, s.params.maintenance_margin_bps as int)
        }),
{
}

/// After a fill both parties are flat or exceed their maintenance margin.
pub proof fn law_fill_keeps_margin(
    s: EngineState,
    lp: int,
    user: int,
    oracle: u64,
    x: TradeExecution,
)
    requires
        s.wf(),
        s.is_used(lp),
        s.is_used(user),
        lp != user,
        s.fill_settled(lp, user, oracle, x).1 is Ok,
    ensures
        ({
            let t = s.fill_settled(lp, user, oracle, x).0;
            let bps = s.params.maintenance_margin_bps as int;
            !t.accounts[user].below_margin(oracle as int, bps) && !t.accounts[lp].below_margin(
                oracle as int,
                bps,
            )
        }),
{
    let t = s.fill_settled(lp, user, oracle, x).0;
    lemma_settled_account(t.accounts[user], 0, oracle);
    lemma_settled_account(t.accounts[lp], 0, oracle);
}

} // verus!
