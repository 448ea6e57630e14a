//! When an account is liquidated and what that leaves, told by its capital, profit and position.
use vstd::prelude::*;

use crate::adl_laws::{law_adl_spares_exempt, law_adl_takes_only_profit};
use crate::adl::Exempt;
use crate::isolation_laws::lemma_forced_touch_frame;
use crate::margin::{
    equity_of, liquidation_close, liquidation_target_bps, margin_required, notional,
};
use crate::margin_laws::{law_bounds_keep_mark_in_range, law_liquidation_leaves_safe_remainder};
use crate::math::sat_u;
use crate::rounding::magnitude;
use crate::state::EngineState;
use crate::types::{Account, RiskError, RiskParams};

verus! {

broadcast use crate::wide::group_wide;

/// Account and price are within what the engine accepts, and no sum over them is out of range.
pub open spec fn in_bounds(a: Account, oracle: int) -> bool {
    &&& -100_000_000_000_000_000_000 <= a.position_size@ <= 100_000_000_000_000_000_000
    &&& a.entry_price <= 1_000_000_000_000_000
    &&& 0 <= oracle <= 1_000_000_000_000_000
    &&& a.capital@ <= i128::MAX / 4
    &&& i128::MIN / 4 <= a.pnl@ <= i128::MAX / 4
}

/// What the position has gained since its entry price: its size times the move of the price, in
/// millionths. A long gains as the price rises, a short as it falls.
pub open spec fn gain(a: Account, oracle: int) -> int {
    let exact = (oracle - a.entry_price) * a.position_size@;
    if exact >= 0 {
        exact / 1_000_000
    } else {
        -((-exact) / 1_000_000)
    }
}

/// The basis points `bps` of what `size` units are worth at the price.
pub open spec fn part_of_value(size: int, price: int, bps: int) -> int {
    (size * price / 1_000_000) * bps / 10_000
}

/// Capital, profit and what the position has gained exceed `bps` basis points of what the
/// position is worth.
pub open spec fn covers(a: Account, oracle: int, bps: int) -> bool {
    a.capital@ + a.pnl@ + gain(a, oracle) > part_of_value(
        magnitude(a.position_size@ as int),
        oracle,
        bps,
    )
}

proof fn lemma_value_in_range(size: int, price: int, bps: int)
    requires
        0 <= size <= 100_000_000_000_000_000_000,
        0 <= price <= 1_000_000_000_000_000,
        0 <= bps <= 1_000_000_000,
    ensures
        notional(size, price) == size * price / 1_000_000,
        sat_u(notional(size, price) * bps) / 10_000 == part_of_value(size, price, bps),
        part_of_value(size, price, bps) >= 0,
{
    let most = 100_000_000_000_000_000_000_000_000_000_000_000int;
    assert(0 <= size * price <= most) by (nonlinear_arith)
        requires
            0 <= size <= 100_000_000_000_000_000_000,
            0 <= price <= 1_000_000_000_000_000,
            most == 100_000_000_000_000_000_000_000_000_000_000_000int,
    ;
    let n = size * price / 1_000_000;
    assert(0 <= n * bps <= 100_000_000_000_000_000_000_000_000_000_000_000_000int)
        by (nonlinear_arith)
        requires
            0 <= n <= 100_000_000_000_000_000_000_000_000_000,
            0 <= bps <= 1_000_000_000,
    ;
}

/// Being above margin is what it should be: the account covers that part of what its position
/// is worth.
pub proof fn law_margin_is_a_part_of_value(a: Account, oracle: int, bps: int)
    requires
        in_bounds(a, oracle),
        0 <= bps <= 1_000_000_000,
    ensures
        a.above_margin(oracle, bps) <==> covers(a, oracle, bps),
        a.equity_mtm(oracle) == if a.capital@ + a.pnl@ + gain(a, oracle) > 0 {
            a.capital@ + a.pnl@ + gain(a, oracle)
        } else {
            0
        },
        margin_required(a.position_size@ as int, oracle, bps) == part_of_value(
            magnitude(a.position_size@ as int),
            oracle,
            bps,
        ),
{
    let pos = a.position_size@ as int;
    law_bounds_keep_mark_in_range(pos, a.entry_price as int, oracle);
    lemma_value_in_range(magnitude(pos), oracle, bps);
    let d = oracle - a.entry_price;
    let most = 100_000_000_000_000_000_000_000_000_000_000_000int;
    assert(-most <= d * pos <= most) by (nonlinear_arith)
        requires
            -100_000_000_000_000_000_000 <= pos <= 100_000_000_000_000_000_000,
            -1_000_000_000_000_000 <= d <= 1_000_000_000_000_000,
            most == 100_000_000_000_000_000_000_000_000_000_000_000int,
    ;
}

/// Equity is capital, profit and gain together where that is positive, and none otherwise.
pub proof fn law_equity_adds_up(capital: int, pnl: int, mark: int)
    requires
        0 <= capital,
        i128::MIN <= capital + pnl <= i128::MAX,
        i128::MIN <= capital + pnl + mark <= i128::MAX,
        capital <= i128::MAX,
    ensures
        equity_of(capital, pnl, mark) == if capital + pnl + mark > 0 {
            capital + pnl + mark
        } else {
            0
        },
{
}

/// A gain that is out of range counts as no equity at all, so that it cannot keep an account
/// from being liquidated.
pub proof fn law_gain_out_of_range_is_no_equity(a: Account, oracle: u64)
    requires
        a.position_size@ > i128::MIN,
        (oracle - a.entry_price) * a.position_size@ > i128::MAX || (oracle - a.entry_price)
            * a.position_size@ < i128::MIN,
    ensures
        a.equity_mtm(oracle as int) == 0,
{
    let d = oracle - a.entry_price;
    let p = a.position_size@ as int;
    assert(d * p == (-d) * (-p)) by (nonlinear_arith);
    assert(d * 0 == 0) by (nonlinear_arith);
}

/// A liquidation closes something and no more than there is. What it leaves is at least the
/// least size and one unit short of what the equity carries at the maintenance margin and the
/// buffer together; it leaves nothing only where the least size, or one unit, is as much as
/// the equity could carry.
pub proof fn law_liquidation_closes_what_is_needed(p: RiskParams, a: Account, oracle: u64)
    requires
        in_bounds(a, oracle as int),
        0 < oracle,
        p.maintenance_margin_bps + p.liquidation_buffer_bps <= 1_000_000_000,
        0 < p.maintenance_margin_bps,
        a.capital@ + a.pnl@ + gain(a, oracle as int) <= u128::MAX / 10_000_000_000,
    ensures
        ({
            let (size, whole) = liquidation_close(p, a, oracle as int);
            let all = magnitude(a.position_size@ as int);
            let kept = all - size;
            let equity = a.capital@ + a.pnl@ + gain(a, oracle as int);
            let has = if equity > 0 {
                equity * 10_000_000_000
            } else {
                0
            };
            let per_unit = oracle * (p.maintenance_margin_bps + p.liquidation_buffer_bps);
            let least = if p.min_liquidation_abs@ > 1 {
                p.min_liquidation_abs@ as int
            } else {
                1
            };
            &&& a.position_size@ == 0 ==> size == 0 && !whole
            &&& a.position_size@ != 0 ==> {
                &&& 0 < size <= all
                &&& whole == (kept == 0)
                &&& kept > 0 ==> kept >= least && (kept + 1) * per_unit <= has && ((kept + 2)
                    * per_unit > has || kept + 1 == all)
                &&& kept == 0 ==> (least + 1) * per_unit > has || all <= least
            }
        }),
{
    let all = magnitude(a.position_size@ as int);
    law_margin_is_a_part_of_value(a, oracle as int, 0);
    let equity = a.equity_mtm(oracle as int);
    let has = equity * 10_000_000_000;
    let bps = p.maintenance_margin_bps + p.liquidation_buffer_bps;
    let d = oracle * bps;
    assert(0 < d <= 1_000_000_000_000_000_000_000_000) by (nonlinear_arith)
        requires
            0 < oracle <= 1_000_000_000_000_000,
            0 < bps <= 1_000_000_000,
            d == oracle * bps,
    ;
    let q = has / d;
    let least = if p.min_liquidation_abs@ > 1 {
        p.min_liquidation_abs@ as int
    } else {
        1
    };
    let (size, whole) = liquidation_close(p, a, oracle as int);
    let kept = all - size;
    lemma_quotient(has, d, q, kept, least);
}

proof fn lemma_quotient(n: int, d: int, q: int, kept: int, least: int)
    requires
        n >= 0,
        d > 0,
        q == n / d,
    ensures
        q * d <= n < (q + 1) * d,
        kept + 1 <= q ==> (kept + 1) * d <= n,
        kept + 2 > q ==> (kept + 2) * d > n,
        least + 1 > q ==> (least + 1) * d > n,
{
    assert(q * d <= n < (q + 1) * d) by (nonlinear_arith)
        requires
            n >= 0,
            d > 0,
            q == n / d,
    ;
    if kept + 1 <= q {
        assert((kept + 1) * d <= q * d) by (nonlinear_arith)
            requires
                kept + 1 <= q,
                d > 0,
        ;
    }
    if kept + 2 > q {
        assert((kept + 2) * d >= (q + 1) * d) by (nonlinear_arith)
            requires
                kept + 2 >= q + 1,
                d > 0,
        ;
    }
    if least + 1 > q {
        assert((least + 1) * d >= (q + 1) * d) by (nonlinear_arith)
            requires
                least + 1 >= q + 1,
                d > 0,
        ;
    }
}

proof fn lemma_settled_position(s: EngineState, idx: int, now: u64, oracle: u64)
    requires
        s.wf(),
        s.is_used(idx),
    ensures
        ({
            let t = s.at_slot(now).touch_account_for_liquidation(idx, now, oracle).0;
            &&& t.wf()
            &&& t.is_used(idx)
            &&& t.accounts[idx].position_size == s.accounts[idx].position_size
            &&& t.params == s.params
        }),
{
    lemma_forced_touch_frame(s.at_slot(now), idx, now, oracle);
}

/// `p` is nearer to zero than `q`, and on its side.
pub open spec fn nearer_zero(p: int, q: int) -> bool {
    (0 <= p < q) || (q < p <= 0)
}

proof fn lemma_liquidation_shrinks(s: EngineState, idx: int, oracle: u64)
    requires
        s.wf(),
        s.is_used(idx),
        s.accounts[idx].position_size@ != 0,
        s.accounts[idx].position_size@ != i128::MIN,
    ensures
        s.liquidation_closed(idx, oracle).1 matches Ok(Some(_)),
        nearer_zero(
            s.liquidation_closed(idx, oracle).0.accounts[idx].position_size@ as int,
            s.accounts[idx].position_size@ as int,
        ),
        s.liquidation_closed(idx, oracle).0.wf(),
        s.liquidation_closed(idx, oracle).0.used == s.used,
        s.liquidation_closed(idx, oracle).0.insurance_fund == s.insurance_fund,
        s.liquidation_closed(idx, oracle).0.params == s.params,
{
    law_liquidation_leaves_safe_remainder(s.params, s.accounts[idx], oracle);
    let size = liquidation_close(s.params, s.accounts[idx], oracle as int).0;
    let s1 = s.close_up_to_deferred(idx, oracle, size).0;
    assert(s1.is_used(idx) && s1.wf());
}

/// An account, long or short, that after settlement does not cover the maintenance margin of
/// its position is liquidated: its position shrinks.
pub proof fn law_uncovered_account_is_liquidated(s: EngineState, idx: int, now: u64, oracle: u64)
    requires
        s.wf(),
        s.is_used(idx),
        s.accounts[idx].position_size@ != 0,
        0 < oracle,
        s.params.maintenance_margin_bps <= 1_000_000_000,
        ({
            let (s1, r) = s.at_slot(now).touch_account_for_liquidation(idx, now, oracle);
            &&& r is Ok
            &&& in_bounds(s1.accounts[idx], oracle as int)
            &&& !covers(
                s1.accounts[idx],
                oracle as int,
                s.params.maintenance_margin_bps as int,
            )
        }),
    ensures
        s.liquidate_deferred(idx, now, oracle).1 matches Ok((true, _)),
        nearer_zero(
            s.liquidate_deferred(idx, now, oracle).0.accounts[idx].position_size@ as int,
            s.accounts[idx].position_size@ as int,
        ),
        s.liquidate_at_oracle(idx, now, oracle).1 != Ok::<bool, RiskError>(false),
        nearer_zero(
            s.liquidate_at_oracle(idx, now, oracle).0.accounts[idx].position_size@ as int,
            s.accounts[idx].position_size@ as int,
        ),
{
    let s1 = s.at_slot(now).touch_account_for_liquidation(idx, now, oracle).0;
    lemma_settled_position(s, idx, now, oracle);
    law_margin_is_a_part_of_value(
        s1.accounts[idx],
        oracle as int,
        s.params.maintenance_margin_bps as int,
    );
    lemma_liquidation_shrinks(s1, idx, oracle);
    let (s2, r) = s1.liquidation_closed(idx, oracle);
    let (size, d) = r->Ok_0->0;
    law_adl_takes_only_profit(s2, d.profit_to_fund as int, Exempt::One(idx as usize));
    let s3 = s2.deleverage(d.profit_to_fund as int, Exempt::One(idx as usize)).0;
    assert(s3.wf());
    law_adl_takes_only_profit(s3, d.unpaid_loss as int, Exempt::Nobody);
}

/// An account that after settlement covers the maintenance margin of its position keeps it.
pub proof fn law_covered_account_is_left(s: EngineState, idx: int, now: u64, oracle: u64)
    requires
        s.wf(),
        s.is_used(idx),
        0 < oracle,
        s.params.maintenance_margin_bps <= 1_000_000_000,
        ({
            let (s1, r) = s.at_slot(now).touch_account_for_liquidation(idx, now, oracle);
            &&& r is Ok
            &&& in_bounds(s1.accounts[idx], oracle as int)
            &&& covers(
                s1.accounts[idx],
                oracle as int,
                s.params.maintenance_margin_bps as int,
            )
        }),
    ensures
        s.liquidate_deferred(idx, now, oracle).1 matches Ok((false, _)),
        s.liquidate_at_oracle(idx, now, oracle).1 == Ok::<bool, RiskError>(false),
        s.liquidate_deferred(idx, now, oracle).0.accounts[idx].position_size
            == s.accounts[idx].position_size,
        s.liquidate_at_oracle(idx, now, oracle).0.accounts[idx].position_size
            == s.accounts[idx].position_size,
{
    let s1 = s.at_slot(now).touch_account_for_liquidation(idx, now, oracle).0;
    lemma_settled_position(s, idx, now, oracle);
    law_margin_is_a_part_of_value(
        s1.accounts[idx],
        oracle as int,
        s.params.maintenance_margin_bps as int,
    );
}

/// A slot that is free, or whose account has no position, is not liquidated.
pub proof fn law_flat_account_is_not_liquidated(s: EngineState, idx: int, now: u64, oracle: u64)
    requires
        s.wf(),
        0 < oracle <= 1_000_000_000_000_000,
        !s.is_used(idx) || s.accounts[idx].position_size@ == 0,
    ensures
        s.liquidate_at_oracle(idx, now, oracle).1 == Ok::<bool, RiskError>(false),
        s.liquidate_deferred(idx, now, oracle).1 matches Ok((false, _)),
        s.liquidate_at_oracle(idx, now, oracle).0.accounts == s.accounts,
        s.liquidate_deferred(idx, now, oracle).0.accounts == s.accounts,
{
}

/// What a liquidation leaves open, before its fee is taken, is nothing or a position that the
/// account covers at the maintenance margin and the buffer together; and no less than the
/// least size.
#[verifier::rlimit(40)]
#[verifier::spinoff_prover]
pub proof fn law_liquidation_leaves_covered_position(s: EngineState, idx: int, oracle: u64)
    requires
        s.wf(),
        s.is_used(idx),
        s.accounts[idx].position_size@ != 0,
        s.params.maintenance_margin_bps + s.params.liquidation_buffer_bps <= 1_000_000_000,
        in_bounds(s.accounts[idx], oracle as int),
        in_bounds(s.liquidation_closed(idx, oracle).0.accounts[idx], oracle as int),
    ensures
        ({
            let b = s.liquidation_closed(idx, oracle).0.accounts[idx];
            b.position_size@ != 0 ==> covers(
                b,
                oracle as int,
                s.params.maintenance_margin_bps + s.params.liquidation_buffer_bps,
            ) && magnitude(b.position_size@ as int) >= s.params.min_liquidation_abs@
        }),
{
    lemma_liquidation_shrinks(s, idx, oracle);
    law_liquidation_leaves_safe_remainder(s.params, s.accounts[idx], oracle);
    crate::margin_laws::law_liquidation_restores_margin(s, idx, oracle);
    let b = s.liquidation_closed(idx, oracle).0.accounts[idx];
    law_margin_is_a_part_of_value(b, oracle as int, liquidation_target_bps(s.params));
}

/// The fee of a liquidation is its basis points of what the units closed are worth, up to the
/// cap; it is paid from the capital that is left, as far as that goes, into the insurance fund.
/// Before that, the loss of the account has been paid from capital, and what capital could not
/// pay is to be socialized; nothing is to be funded, since mark profit was settled before.
pub proof fn law_liquidation_pays_loss_then_fee(s: EngineState, idx: int, now: u64, oracle: u64)
    requires
        s.wf(),
        s.is_used(idx),
        0 < oracle <= 1_000_000_000_000_000,
        s.params.liquidation_fee_bps <= 1_000_000_000,
        s.liquidate_deferred(idx, now, oracle).1 matches Ok((true, _)),
        ({
            let s1 = s.at_slot(now).touch_account_for_liquidation(idx, now, oracle).0;
            &&& in_bounds(s1.accounts[idx], oracle as int)
            &&& s1.insurance_fund.balance@ <= i128::MAX
            &&& s1.insurance_fund.fee_revenue@ <= i128::MAX
        }),
    ensures
        ({
            let s1 = s.at_slot(now).touch_account_for_liquidation(idx, now, oracle).0;
            let t = s.liquidate_deferred(idx, now, oracle).0;
            let d = s.liquidate_deferred(idx, now, oracle).1->Ok_0.1;
            let a = s1.accounts[idx];
            let b = t.accounts[idx];
            let closed = magnitude(a.position_size@ as int) - magnitude(b.position_size@ as int);
            let due = part_of_value(
                closed,
                oracle as int,
                s.params.liquidation_fee_bps as int,
            );
            let paid = t.insurance_fund.fee_revenue@ - s1.insurance_fund.fee_revenue@;
            &&& t.insurance_fund.balance@ == s1.insurance_fund.balance@ + paid
            &&& 0 <= paid <= due
            &&& paid <= s.params.liquidation_fee_cap@
            &&& paid == due || paid == s.params.liquidation_fee_cap@ || b.capital@ == 0
            &&& d.profit_to_fund == 0
            &&& !d.excluded
            &&& a.pnl@ >= 0 ==> b.pnl == a.pnl && b.capital@ == a.capital@ - paid
                && d.unpaid_loss == 0
            &&& a.pnl@ < 0 && a.capital@ + a.pnl@ >= 0 ==> b.pnl@ == 0 && b.capital@ == a.capital@
                + a.pnl@ - paid && d.unpaid_loss == 0
            &&& a.capital@ + a.pnl@ < 0 ==> b.pnl@ == 0 && b.capital@ == 0 && d.unpaid_loss
                == -(a.capital@ + a.pnl@)
            &&& t.vault == s.vault
        }),
{
    let s0 = s.at_slot(now);
    let s1 = s0.touch_account_for_liquidation(idx, now, oracle).0;
    lemma_settled_position(s, idx, now, oracle);
    let a = s1.accounts[idx];
    assert(a.position_size@ != 0);
    assert(a.entry_price == oracle);
    lemma_liquidation_shrinks(s1, idx, oracle);
    lemma_closed_flat_price(s1, idx, oracle);
    let (s2, r) = s1.liquidation_closed(idx, oracle);
    let (size, d) = r->Ok_0->0;
    let b = s2.accounts[idx];
    let closed = magnitude(a.position_size@ as int) - magnitude(b.position_size@ as int);
    assert(size == closed);
    lemma_value_in_range(closed, oracle as int, s.params.liquidation_fee_bps as int);
    let t = s.liquidate_deferred(idx, now, oracle).0;
    assert(t == s2.with_liquidation_fee(idx, size as int, oracle));
    assert(t.accounts[idx].position_size == b.position_size);
    assert(s1.vault == s.vault);
}

proof fn lemma_slice_at_entry(s: EngineState, idx: int, size: int, oracle: u64)
    requires
        s.wf(),
        s.is_used(idx),
        s.accounts[idx].entry_price == oracle,
        in_bounds(s.accounts[idx], oracle as int),
        0 < size <= s.accounts[idx].size(),
    ensures
        ({
            let a = s.accounts[idx];
            let (t, r) = s.close_slice_deferred(idx, size, oracle);
            let b = t.accounts[idx];
            let loss = a.capital@ + a.pnl@;
            &&& r matches Ok((o, d)) && o.abs_pos == size && d.profit_to_fund == 0 && !d.excluded
                && d.unpaid_loss == if loss < 0 {
                -loss
            } else {
                0
            }
            &&& b.entry_price == oracle
            &&& magnitude(b.position_size@ as int) == magnitude(a.position_size@ as int) - size
            &&& b.position_size@ == 0 || (b.position_size@ > 0) == (a.position_size@ > 0)
            &&& a.pnl@ >= 0 ==> b.pnl == a.pnl && b.capital == a.capital
            &&& a.pnl@ < 0 && loss >= 0 ==> b.pnl@ == 0 && b.capital@ == loss
            &&& loss < 0 ==> b.pnl@ == 0 && b.capital@ == 0
            &&& t.insurance_fund == s.insurance_fund
            &&& t.vault == s.vault
            &&& t.wf()
            &&& t.is_used(idx)
            &&& t.params == s.params
        }),
{
    assert(0 * size == 0) by (nonlinear_arith);
}

proof fn lemma_closed_flat_price(s: EngineState, idx: int, oracle: u64)
    requires
        s.wf(),
        s.is_used(idx),
        s.accounts[idx].position_size@ != 0,
        s.accounts[idx].entry_price == oracle,
        in_bounds(s.accounts[idx], oracle as int),
    ensures
        ({
            let a = s.accounts[idx];
            let (t, r) = s.liquidation_closed(idx, oracle);
            let b = t.accounts[idx];
            let loss = a.capital@ + a.pnl@;
            &&& r matches Ok(Some((size, d))) && size == magnitude(a.position_size@ as int)
                - magnitude(b.position_size@ as int) && d.profit_to_fund == 0 && !d.excluded
                && d.unpaid_loss == if loss < 0 {
                -loss
            } else {
                0
            }
            &&& a.pnl@ >= 0 ==> b.pnl == a.pnl && b.capital == a.capital
            &&& a.pnl@ < 0 && loss >= 0 ==> b.pnl@ == 0 && b.capital@ == loss
            &&& loss < 0 ==> b.pnl@ == 0 && b.capital@ == 0
            &&& t.vault == s.vault
        }),
{
    let a = s.accounts[idx];
    law_liquidation_leaves_safe_remainder(s.params, a, oracle);
    let size = liquidation_close(s.params, a, oracle as int).0;
    lemma_slice_at_entry(s, idx, size, oracle);
    let s1 = s.close_slice_deferred(idx, size, oracle).0;
    if s1.accounts[idx].position_size@ != 0 {
        lemma_slice_at_entry(s1, idx, s1.accounts[idx].size(), oracle);
    }
}

/// Liquidated at once or with socialization left for later, the account ends the same, and the
/// same fee is paid. At once, what its capital could not pay is shared among the others, or
/// accumulated.
#[verifier::rlimit(40)]
#[verifier::spinoff_prover]
pub proof fn law_two_ways_to_liquidate(s: EngineState, idx: int, now: u64, oracle: u64)
    requires
        s.wf(),
        s.is_used(idx),
        0 < oracle <= 1_000_000_000_000_000,
        s.accounts[idx].position_size@ != 0,
        in_bounds(
            s.at_slot(now).touch_account_for_liquidation(idx, now, oracle).0.accounts[idx],
            oracle as int,
        ),
        s.liquidate_at_oracle(idx, now, oracle).1 == Ok::<bool, RiskError>(true),
    ensures
        s.liquidate_deferred(idx, now, oracle).1 matches Ok((true, _)),
        s.liquidate_at_oracle(idx, now, oracle).0.accounts[idx] == s.liquidate_deferred(
            idx,
            now,
            oracle,
        ).0.accounts[idx],
        s.liquidate_at_oracle(idx, now, oracle).0.insurance_fund.fee_revenue
            == s.liquidate_deferred(idx, now, oracle).0.insurance_fund.fee_revenue,
{
    let s1 = s.at_slot(now).touch_account_for_liquidation(idx, now, oracle).0;
    lemma_settled_position(s, idx, now, oracle);
    lemma_liquidation_shrinks(s1, idx, oracle);
    assert(s1.accounts[idx].entry_price == oracle);
    lemma_closed_flat_price(s1, idx, oracle);
    let (s2, r) = s1.liquidation_closed(idx, oracle);
    let (size, d) = r->Ok_0->0;
    assert(s2.deleverage(d.profit_to_fund as int, Exempt::One(idx as usize)).0 == s2);
    if d.unpaid_loss > 0 {
        law_adl_spares_exempt(s2, d.unpaid_loss as int, Exempt::Nobody, idx);
    }
    let s3 = s2.deleverage(d.unpaid_loss as int, Exempt::Nobody).0;
    assert(s3.accounts[idx] == s2.accounts[idx]);
    assert(s3.insurance_fund.fee_revenue == s2.insurance_fund.fee_revenue);
    assert(s.liquidate_at_oracle(idx, now, oracle).0 == s3.with_liquidation_fee(
        idx,
        size as int,
        oracle,
    ));
    assert(s.liquidate_deferred(idx, now, oracle).0 == s2.with_liquidation_fee(
        idx,
        size as int,
        oracle,
    ));
}

} // verus!
