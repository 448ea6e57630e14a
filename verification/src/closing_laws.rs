//! What a close does to the account, told by prices, sizes and balances.
use vstd::prelude::*;

use crate::adl::Exempt;
use crate::adl_laws::law_adl_spares_exempt;
use crate::liquidation_laws::in_bounds;
use crate::math::tdiv;
use crate::rounding::{magnitude, rounded_to_zero};
use crate::state::EngineState;
use crate::trade_laws::lemma_warmup_moves_into_capital;
use crate::types::{Account, AccountKind, DeferredAdl};
use crate::warmup_laws::lemma_matured_nonneg;

verus! {

broadcast use crate::wide::group_wide;

/// What `size` units on the side of the position have gained since its entry price, in
/// millionths.
pub open spec fn slice_gain(a: Account, size: int, oracle: int) -> int {
    if a.position_size@ > 0 {
        (oracle - a.entry_price) * size
    } else {
        (a.entry_price - oracle) * size
    }
}

/// `b` has `size` units less of a position than `a`, on the same side, and the price moved with
/// the last of them only.
pub open spec fn units_off(a: Account, b: Account, size: int, oracle: u64) -> bool {
    &&& magnitude(b.position_size@ as int) == magnitude(a.position_size@ as int) - size
    &&& a.position_size@ > 0 ==> b.position_size@ >= 0
    &&& a.position_size@ < 0 ==> b.position_size@ <= 0
    &&& b.entry_price == if b.position_size@ == 0 {
        oracle
    } else {
        a.entry_price
    }
}

/// Totals of `t` are those of `s` less `size` units of account `a`.
pub open spec fn totals_off(s: EngineState, t: EngineState, a: Account, b: Account, size: int)
    -> bool {
    &&& s.total_open_interest@ >= size ==> t.total_open_interest@ == s.total_open_interest@ - size
    &&& s.total_open_interest@ < size ==> t.total_open_interest@ == 0
    &&& if a.kind == AccountKind::LP {
        &&& t.net_lp_pos@ == s.net_lp_pos@ - a.position_size@ + b.position_size@
        &&& s.lp_sum_abs@ >= size ==> t.lp_sum_abs@ == s.lp_sum_abs@ - size
        &&& s.lp_sum_abs@ < size ==> t.lp_sum_abs@ == 0
    } else {
        t.net_lp_pos == s.net_lp_pos && t.lp_sum_abs == s.lp_sum_abs
    }
}

/// `b` is what is left of `a` when `mark` is realized and a loss is paid from capital; what
/// capital cannot pay is `unpaid`.
pub open spec fn loss_from_capital(a: Account, b: Account, mark: int, unpaid: int) -> bool {
    let total = a.pnl@ + mark;
    &&& total >= 0 ==> b.pnl@ == total && b.capital == a.capital && unpaid == 0
    &&& total < 0 && a.capital@ + total >= 0 ==> b.pnl@ == 0 && b.capital@ == a.capital@ + total
        && unpaid == 0
    &&& a.capital@ + total < 0 ==> b.pnl@ == 0 && b.capital@ == 0 && unpaid == -(a.capital@
        + total)
}

/// What is left to be socialized is the profit, or the loss that was not paid.
pub open spec fn left_over(d: DeferredAdl, mark: int, unpaid: int) -> bool {
    &&& d.unpaid_loss == unpaid
    &&& mark > 0 ==> d.profit_to_fund == mark && d.excluded
    &&& mark <= 0 ==> d.profit_to_fund == 0 && !d.excluded
}

/// No total over accounts is out of range.
pub open spec fn totals_in_range(s: EngineState) -> bool {
    &&& i128::MIN / 4 <= s.net_lp_pos@ <= i128::MAX / 4
    &&& s.warmed_neg_total@ <= i128::MAX
}

pub proof fn lemma_close_gain(a: Account, size: int, oracle: u64)
    requires
        in_bounds(a, oracle as int),
        0 < size <= magnitude(a.position_size@ as int),
    ensures
        rounded_to_zero(a.close_pnl(size, oracle), slice_gain(a, size, oracle as int), 1_000_000),
        -100_000_000_000_000_000_000_000_000_000 <= a.close_pnl(size, oracle)
            <= 100_000_000_000_000_000_000_000_000_000,
        a.size() == magnitude(a.position_size@ as int),
{
    let d = if a.position_size@ > 0 {
        oracle - a.entry_price
    } else {
        a.entry_price - oracle
    };
    let most = 100_000_000_000_000_000_000_000_000_000_000_000int;
    assert(-most <= d * size <= most) by (nonlinear_arith)
        requires
            0 < size <= 100_000_000_000_000_000_000,
            -1_000_000_000_000_000 <= d <= 1_000_000_000_000_000,
            most == 100_000_000_000_000_000_000_000_000_000_000_000int,
    ;
    let v = d * size;
    assert(a.close_pnl(size, oracle) == tdiv(v, 1_000_000));
}

proof fn lemma_close_with_deferral(s: EngineState, idx: int, size: int, oracle: u64)
    requires
        s.wf(),
        s.is_used(idx),
        in_bounds(s.accounts[idx], oracle as int),
        totals_in_range(s),
        0 < size <= magnitude(s.accounts[idx].position_size@ as int),
    ensures
        ({
            let a = s.accounts[idx];
            let (t, d) = s.with_close_deferred(idx, size, oracle);
            let b = t.accounts[idx];
            let mark = a.close_pnl(size, oracle);
            &&& units_off(a, b, size, oracle)
            &&& totals_off(s, t, a, b, size)
            &&& loss_from_capital(a, b, mark, d.unpaid_loss as int)
            &&& left_over(d, mark, d.unpaid_loss as int)
            &&& t.warmed_neg_total@ == s.warmed_neg_total@ + a.capital@ - b.capital@
            &&& b.reserved_pnl == a.reserved_pnl
            &&& b.fee_credits == a.fee_credits
            &&& b.funding_index == a.funding_index
            &&& b.warmup_slope_per_step == a.warmup_slope_per_step
            &&& t.is_used(idx)
            &&& t.insurance_fund == s.insurance_fund
            &&& t.vault == s.vault
            &&& t.loss_accum == s.loss_accum
            &&& t.params == s.params
            &&& t.current_slot == s.current_slot
            &&& t.warmup_paused == s.warmup_paused
            &&& t.warmup_pause_slot == s.warmup_pause_slot
            &&& t.accounts.remove(idx) =~= s.accounts.remove(idx)
        }),
{
    lemma_close_gain(s.accounts[idx], size, oracle);
}

/// A close of at most `size` units with socialization left for later: the units closed gain
/// their size times the move of the price, a loss is paid from capital, and the profit or the
/// unpaid loss is handed back. Profit starts to vest anew.
pub proof fn law_deferred_close_realizes_slice(s: EngineState, idx: int, oracle: u64, size: u128)
    requires
        s.wf(),
        s.is_used(idx),
        in_bounds(s.accounts[idx], oracle as int),
        totals_in_range(s),
        size > 0,
        s.accounts[idx].position_size@ != 0,
    ensures
        s.close_up_to_deferred(idx, oracle, size as int).1 is Ok,
        ({
            let a = s.accounts[idx];
            let (t, r) = s.close_up_to_deferred(idx, oracle, size as int);
            let (o, d) = r->Ok_0;
            let b = t.accounts[idx];
            let whole = magnitude(a.position_size@ as int);
            let n = if size < whole {
                size as int
            } else {
                whole
            };
            &&& units_off(a, b, n, oracle)
            &&& totals_off(s, t, a, b, n)
            &&& rounded_to_zero(o.mark_pnl as int, slice_gain(a, n, oracle as int), 1_000_000)
            &&& loss_from_capital(a, b, o.mark_pnl as int, d.unpaid_loss as int)
            &&& left_over(d, o.mark_pnl as int, d.unpaid_loss as int)
            &&& t.warmed_neg_total@ == s.warmed_neg_total@ + a.capital@ - b.capital@
            &&& o.abs_pos == n
            &&& o.cap_before == a.capital@
            &&& o.cap_after == b.capital@
            &&& o.position_was_closed
            &&& b.warmup_started_at_slot == if s.warmup_paused && s.warmup_pause_slot
                < s.current_slot {
                s.warmup_pause_slot
            } else {
                s.current_slot
            }
            &&& t.insurance_fund == s.insurance_fund
            &&& t.vault == s.vault
            &&& t.loss_accum == s.loss_accum
            &&& t.accounts.remove(idx) =~= s.accounts.remove(idx)
        }),
        s.accounts[idx].position_size@ != 0 ==> s.close_deferred(idx, oracle)
            == s.close_up_to_deferred(
            idx,
            oracle,
            magnitude(s.accounts[idx].position_size@ as int),
        ),
{
    let a = s.accounts[idx];
    let whole = magnitude(a.position_size@ as int);
    let n = if size < whole {
        size as int
    } else {
        whole
    };
    lemma_close_gain(a, n, oracle);
    lemma_close_with_deferral(s, idx, n, oracle);
}

/// Nothing is closed where there is no position or no units were asked for.
pub proof fn law_nothing_to_close(s: EngineState, idx: int, oracle: u64, size: int)
    requires
        size == 0 || s.accounts[idx].position_size@ == 0,
    ensures
        ({
            let none = DeferredAdl { profit_to_fund: 0, unpaid_loss: 0, excluded: false };
            let (t, r) = s.close_up_to_deferred(idx, oracle, size);
            let (u, q) = s.close_position_up_to(idx, oracle, size);
            &&& t == s
            &&& r matches Ok((o, d)) && o.abs_pos == 0 && o.mark_pnl == 0
                && !o.position_was_closed && o.cap_before == s.accounts[idx].capital@
                && o.cap_after == o.cap_before && d == none
            &&& u == s
            &&& q matches Ok(o) && o.abs_pos == 0 && o.mark_pnl == 0
                && !o.position_was_closed && o.cap_before == s.accounts[idx].capital@
                && o.cap_after == o.cap_before
        }),
{
}

/// A forced close takes the whole position, realizes its gain, pays a loss from capital and
/// hands back the profit or the unpaid loss. It keeps the vesting rate and restarts the clock.
pub proof fn law_forced_close_realizes_position(s: EngineState, idx: int, oracle: u64)
    requires
        s.wf(),
        s.is_used(idx),
        in_bounds(s.accounts[idx], oracle as int),
        totals_in_range(s),
    ensures
        ({
            let a = s.accounts[idx];
            let (t, r) = s.force_close(idx, oracle);
            let (mark, d) = r;
            let b = t.accounts[idx];
            let whole = magnitude(a.position_size@ as int);
            &&& b.position_size@ == 0
            &&& a.position_size@ == 0 ==> t == s && mark == 0 && left_over(d, 0, 0)
            &&& a.position_size@ != 0 ==> {
                &&& b.entry_price == oracle
                &&& totals_off(s, t, a, b, whole)
                &&& rounded_to_zero(mark as int, slice_gain(a, whole, oracle as int), 1_000_000)
                &&& loss_from_capital(a, b, mark as int, d.unpaid_loss as int)
                &&& left_over(d, mark as int, d.unpaid_loss as int)
                &&& t.warmed_neg_total@ == s.warmed_neg_total@ + a.capital@ - b.capital@
                &&& b.warmup_slope_per_step == a.warmup_slope_per_step
                &&& b.warmup_started_at_slot == if s.warmup_paused && s.warmup_pause_slot
                    < s.current_slot {
                    s.warmup_pause_slot
                } else {
                    s.current_slot
                }
                &&& t.insurance_fund == s.insurance_fund
                &&& t.vault == s.vault
                &&& t.loss_accum == s.loss_accum
                &&& t.accounts.remove(idx) =~= s.accounts.remove(idx)
            }
        }),
{
    let a = s.accounts[idx];
    if a.position_size@ != 0 {
        let n = magnitude(a.position_size@ as int);
        lemma_close_gain(a, n, oracle);
        lemma_close_with_deferral(s, idx, n, oracle);
    }
}

proof fn lemma_warmup_totals(s: EngineState, idx: int)
    requires
        s.wf(),
        s.is_used(idx),
        s.accounts[idx].capital@ <= i128::MAX / 2,
        i128::MIN / 2 <= s.accounts[idx].pnl@ <= i128::MAX / 2,
    ensures
        ({
            let t = s.settle_warmup_to_capital(idx).0;
            let b = t.accounts[idx];
            &&& b.pnl@ < 0 ==> b.capital@ == 0
            &&& s.accounts[idx].pnl@ < 0 ==> b.pnl@ <= 0
            &&& t.total_open_interest == s.total_open_interest
            &&& t.net_lp_pos == s.net_lp_pos
            &&& t.lp_sum_abs == s.lp_sum_abs
        }),
{
    lemma_warmup_moves_into_capital(s, idx);
    let a = s.accounts[idx].loss_paid();
    lemma_matured_nonneg(a, s.effective_slot());
}

proof fn lemma_residual_totals(s: EngineState, idx: int)
    requires
        s.wf(),
        s.is_used(idx),
        s.with_residual_socialized(idx).1 is Ok,
    ensures
        ({
            let t = s.with_residual_socialized(idx).0;
            let a = s.accounts[idx];
            let b = t.accounts[idx];
            &&& b.capital == a.capital
            &&& b.position_size == a.position_size
            &&& b.entry_price == a.entry_price
            &&& b.pnl@ == if a.pnl@ < 0 {
                0
            } else {
                a.pnl@
            }
            &&& t.total_open_interest == s.total_open_interest
            &&& t.net_lp_pos == s.net_lp_pos
            &&& t.lp_sum_abs == s.lp_sum_abs
            &&& t.vault == s.vault
        }),
{
    if s.accounts[idx].pnl@ < 0 {
        law_adl_spares_exempt(s, -(s.accounts[idx].pnl@ as int), Exempt::Nobody, idx);
    }
}

proof fn lemma_profit_funded(s: EngineState, idx: int, profit: int)
    requires
        s.wf(),
        s.is_used(idx),
    ensures
        ({
            let t = s.deleverage(profit, Exempt::One(idx as usize)).0;
            &&& t.wf()
            &&& t.is_used(idx)
            &&& t.accounts[idx] == s.accounts[idx]
            &&& t.total_open_interest == s.total_open_interest
            &&& t.net_lp_pos == s.net_lp_pos
            &&& t.lp_sum_abs == s.lp_sum_abs
            &&& t.vault == s.vault
        }),
{
    law_adl_spares_exempt(s, profit, Exempt::One(idx as usize), idx);
}

proof fn lemma_slice_closed(s: EngineState, idx: int, n: int, oracle: u64)
    requires
        s.wf(),
        s.is_used(idx),
        in_bounds(s.accounts[idx], oracle as int),
        totals_in_range(s),
        0 < n <= magnitude(s.accounts[idx].position_size@ as int),
    ensures
        ({
            let a = s.accounts[idx];
            let t = s.with_slice_closed(idx, n, oracle);
            let b = t.accounts[idx];
            &&& t.wf()
            &&& t.is_used(idx)
            &&& units_off(a, b, n, oracle)
            &&& totals_off(s, t, a, b, n)
            &&& b.pnl@ == a.pnl@ + a.close_pnl(n, oracle)
            &&& b.capital == a.capital
            &&& t.vault == s.vault
        }),
{
    lemma_close_gain(s.accounts[idx], n, oracle);
}

/// A close at once leaves the account what it had, more or less the gain of the units closed;
/// it never leaves a loss, and a loss never leaves a profit.
#[verifier::rlimit(40)]
#[verifier::spinoff_prover]
pub proof fn law_close_realizes_slice(s: EngineState, idx: int, oracle: u64, size: u128)
    requires
        s.wf(),
        s.is_used(idx),
        in_bounds(s.accounts[idx], oracle as int),
        totals_in_range(s),
        size > 0,
        s.accounts[idx].position_size@ != 0,
        s.close_position_up_to(idx, oracle, size as int).1 is Ok,
    ensures
        ({
            let a = s.accounts[idx];
            let (t, r) = s.close_position_up_to(idx, oracle, size as int);
            let o = r->Ok_0;
            let b = t.accounts[idx];
            let whole = magnitude(a.position_size@ as int);
            let n = if size < whole {
                size as int
            } else {
                whole
            };
            let total = a.capital@ + a.pnl@ + o.mark_pnl;
            &&& units_off(a, b, n, oracle)
            &&& totals_off(s, t, a, b, n)
            &&& rounded_to_zero(o.mark_pnl as int, slice_gain(a, n, oracle as int), 1_000_000)
            &&& o.abs_pos == n
            &&& o.cap_before == a.capital@
            &&& o.cap_after == b.capital@
            &&& o.position_was_closed
            &&& b.pnl@ >= 0
            &&& total >= 0 ==> b.capital@ + b.pnl@ == total
            &&& total < 0 ==> b.capital@ == 0 && b.pnl@ == 0
            &&& a.pnl@ + o.mark_pnl < 0 ==> b.pnl@ == 0
            &&& t.vault == s.vault
        }),
        s.close_position(idx, oracle) == s.close_position_up_to(
            idx,
            oracle,
            magnitude(s.accounts[idx].position_size@ as int),
        ),
{
    let a = s.accounts[idx];
    let whole = magnitude(a.position_size@ as int);
    let n = if size < whole {
        size as int
    } else {
        whole
    };
    lemma_close_gain(a, n, oracle);
    let mark = a.close_pnl(n, oracle);
    let profit = if mark > 0 {
        mark
    } else {
        0
    };
    lemma_slice_closed(s, idx, n, oracle);
    let s0 = s.with_slice_closed(idx, n, oracle);
    lemma_profit_funded(s0, idx, profit);
    let s1 = s0.deleverage(profit, Exempt::One(idx as usize)).0;
    lemma_warmup_moves_into_capital(s1, idx);
    lemma_warmup_totals(s1, idx);
    let s2 = s1.settle_warmup_to_capital(idx).0;
    assert(s.close_position_up_to(idx, oracle, size as int) == s.close_slice(idx, n, oracle));
    assert(s2.with_residual_socialized(idx).1 is Ok);
    lemma_residual_totals(s2, idx);
    assert(s.close_slice(idx, n, oracle).0 == s2.with_residual_socialized(idx).0);
}

} // verus!
