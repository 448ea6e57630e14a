//! What holds of warmup: profit becomes capital slowly, no further than it is backed, and not
//! at all while warmup is frozen.
use vstd::prelude::*;

use crate::conservation_laws::lemma_settled_account;
use crate::isolation_laws::law_settlement_is_isolated;
use crate::math::{max_int, monus};
use crate::state::EngineState;
use crate::types::{Account, RiskError, TradeExecution, MAX_ACCOUNTS};
use crate::warmup::warmup_slope;

verus! {

broadcast use crate::wide::group_wide;

/// Profit is not converted in the slot in which its clock was set: settlement then only pays
/// losses.
pub proof fn law_no_instant_conversion(s: EngineState, idx: int)
    requires
        s.wf(),
        s.is_used(idx),
        s.effective_slot() <= s.accounts[idx].warmup_started_at_slot,
    ensures
        ({
            let a = s.accounts[idx];
            let b = s.settle_warmup_to_capital(idx).0.accounts[idx];
            b.capital == a.loss_paid().capital && b.pnl == a.loss_paid().pnl
        }),
{
    let a = s.accounts[idx];
    assert(a.warmup_slope_per_step@ * 0 == 0) by (nonlinear_arith);
    assert(a.loss_paid().warmed_cap(s.effective_slot()) == 0);
}

/// Setting the vesting rate anew starts the clock, so that nothing has matured in that slot.
pub proof fn law_new_rate_starts_clock(s: EngineState, idx: int)
    requires
        s.wf(),
        s.is_used(idx),
        !s.warmup_paused,
    ensures
        ({
            let t = s.update_warmup_slope(idx).0;
            t.accounts[idx].warmed_cap(t.effective_slot()) == 0
        }),
{
    let b = s.update_warmup_slope(idx).0.accounts[idx];
    assert(b.warmup_slope_per_step@ * 0 == 0) by (nonlinear_arith);
}

/// After a trade no profit of either party has matured: the clocks of both start in its slot.
pub proof fn law_trade_starts_clocks(
    s: EngineState,
    lp: int,
    user: int,
    now: u64,
    oracle: u64,
    size: i128,
    answer: Result<TradeExecution, RiskError>,
)
    requires
        s.wf(),
        !s.warmup_paused,
        answer matches Ok(x) && x.size != 0,
        s.execute_trade(lp, user, now, oracle, size, answer).1 is Ok,
    ensures
        ({
            let t = s.execute_trade(lp, user, now, oracle, size, answer).0;
            &&& t.accounts[user].warmed_cap(t.effective_slot()) == 0
            &&& t.accounts[lp].warmed_cap(t.effective_slot()) == 0
        }),
{
    let s0 = s.at_slot(now);
    let s1 = s0.pair_settled(lp, user, now, oracle).0;
    let s2 = s1.fill_settled(lp, user, oracle, answer->Ok_0).0;
    let s3 = s2.settle_warmup_to_capital(user).0.settle_warmup_to_capital(lp).0;
    let s4 = s3.update_warmup_slope(user).0;
    assert(s1.warmup_paused == s.warmup_paused && s2.warmup_paused == s.warmup_paused);
    assert(s3.warmup_paused == s.warmup_paused);
    law_new_rate_starts_clock(s3, user);
    law_new_rate_starts_clock(s4, lp);
}

/// A position closed by force leaves no matured profit behind: what profit the account has
/// stays young.
pub proof fn law_forced_close_keeps_profit_young(s: EngineState, idx: int, oracle: u64)
    requires
        s.wf(),
        s.is_used(idx),
        s.accounts[idx].position_size@ != 0,
    ensures
        ({
            let t = s.force_close(idx, oracle).0;
            &&& t.accounts[idx].warmed_cap(t.effective_slot()) == 0
            &&& t.accounts[idx].matured_pnl(t.effective_slot()) == 0
        }),
{
    let t = s.force_close(idx, oracle).0;
    assert(t.accounts[idx].warmup_slope_per_step@ * 0 == 0) by (nonlinear_arith);
}

/// What settlement does to an account, in full. A loss is paid from capital as far as that
/// goes. Of a profit that is not reserved, as much becomes capital as the rate lets mature in
/// the slots since the clock was set, and no more than paid losses and spendable insurance
/// exceed the profit converted before. The clock is set to the slot that warmup has come to.
pub proof fn law_settlement_converts_what_matured(s: EngineState, idx: int)
    requires
        s.wf(),
        s.is_used(idx),
        s.accounts[idx].capital@ <= i128::MAX / 2,
        i128::MIN / 2 <= s.accounts[idx].pnl@ <= i128::MAX / 2,
        s.warmed_neg_total@ + s.insurance_fund.balance@ <= u128::MAX / 2,
        s.warmed_pos_total@ <= u128::MAX / 2,
        s.settle_warmup_to_capital(idx).1 is Ok,
    ensures
        ({
            let a = s.accounts[idx];
            let t = s.settle_warmup_to_capital(idx).0;
            let b = t.accounts[idx];
            let slot = if s.warmup_paused && s.warmup_pause_slot < s.current_slot {
                s.warmup_pause_slot
            } else {
                s.current_slot
            };
            let free = a.pnl@ - a.reserved_pnl;
            let matured = a.warmup_slope_per_step@ * (slot - a.warmup_started_at_slot);
            let insured = s.insurance_fund.balance@ - s.params.risk_reduction_threshold@
                - s.warmup_insurance_reserved@;
            let budget = s.warmed_neg_total@ + (if insured > 0 {
                insured
            } else {
                0
            }) - s.warmed_pos_total@;
            let turned = b.capital@ - a.capital@;
            &&& b.pnl@ == a.pnl@ - turned
            &&& b.warmup_started_at_slot == slot
            &&& a.pnl@ < 0 && -a.pnl@ <= a.capital@ ==> turned == a.pnl@
            &&& a.pnl@ < 0 && -a.pnl@ > a.capital@ ==> turned == -a.capital@
            &&& a.pnl@ < 0 ==> t.warmed_neg_total@ == s.warmed_neg_total@ - turned
                && t.warmed_pos_total == s.warmed_pos_total
            &&& a.pnl@ >= 0 ==> {
                &&& turned >= 0
                &&& turned > 0 ==> turned <= free && turned <= matured && turned <= budget && slot
                    > a.warmup_started_at_slot
                &&& free > 0 && slot > a.warmup_started_at_slot && matured > 0 && budget > 0
                    ==> turned == free || turned == matured || turned == budget
                &&& t.warmed_pos_total@ == s.warmed_pos_total@ + turned
                &&& t.warmed_neg_total == s.warmed_neg_total
            }
            &&& t.vault == s.vault
            &&& t.insurance_fund == s.insurance_fund
        }),
{
    let a = s.accounts[idx];
    lemma_matured_nonneg(a.loss_paid(), s.effective_slot());
    lemma_matured_nonneg(a, s.effective_slot());
    assert(a.warmup_slope_per_step@ * 0 == 0) by (nonlinear_arith);
}

/// Settlement is held up exactly where something is pending and a profit has begun to mature;
/// it then only pays losses.
pub proof fn law_settlement_waits_for_pending(s: EngineState, idx: int)
    requires
        s.wf(),
        s.is_used(idx),
    ensures
        ({
            let a = s.accounts[idx];
            let (t, r) = s.settle_warmup_to_capital(idx);
            let slot = s.effective_slot();
            &&& s.pending_profit_to_fund@ == 0 && s.pending_unpaid_loss@ == 0 ==> r is Ok
            &&& (s.pending_profit_to_fund@ > 0 || s.pending_unpaid_loss@ > 0) && a.pnl@ > 0
                && a.warmup_slope_per_step@ > 0 && slot > a.warmup_started_at_slot ==> r
                == Err::<(), RiskError>(RiskError::Unauthorized) && t.accounts[idx] == a
            &&& r is Err ==> t.accounts[idx].capital@ <= a.capital@
        }),
{
    let a = s.accounts[idx];
    let r = a.warmup_slope_per_step@ as int;
    let n = s.effective_slot() - a.warmup_started_at_slot;
    if r > 0 && n > 0 {
        assert(r * n > 0) by (nonlinear_arith)
            requires
                r > 0,
                n > 0,
        ;
    }
    assert(a.pnl@ > 0 ==> a.loss_paid() == a);
}

/// The rate of a profit is such that it vests evenly over the period, rounded down, but at one
/// unit per slot at least; there is no rate without a profit. Setting it changes nothing else
/// but the clock, which starts at the present unless warmups are frozen.
pub proof fn law_rate_spreads_profit_over_period(s: EngineState, idx: int)
    requires
        s.wf(),
        s.is_used(idx),
    ensures
        ({
            let a = s.accounts[idx];
            let (t, r) = s.update_warmup_slope(idx);
            let b = t.accounts[idx];
            let rate = b.warmup_slope_per_step@ as int;
            let period = s.params.warmup_period_slots as int;
            &&& r is Ok
            &&& a.pnl@ <= 0 ==> rate == 0
            &&& a.pnl@ > 0 && period == 0 ==> rate == a.pnl@
            &&& a.pnl@ > 0 && period > 0 ==> rate >= 1
            &&& a.pnl@ >= period && period > 0 ==> rate * period <= a.pnl@ < rate * period + period
            &&& 0 < a.pnl@ < period ==> rate == 1
            &&& s.warmup_paused ==> b.warmup_started_at_slot == a.warmup_started_at_slot
            &&& !s.warmup_paused ==> b.warmup_started_at_slot == s.current_slot
            &&& b == (Account {
                warmup_slope_per_step: b.warmup_slope_per_step,
                warmup_started_at_slot: b.warmup_started_at_slot,
                ..a
            })
            &&& t == (EngineState { accounts: s.accounts.update(idx, b), ..s })
        }),
{
    let p = s.accounts[idx].pnl@ as int;
    let n = s.params.warmup_period_slots as int;
    if p > 0 && n > 0 {
        let q = p / n;
        assert(q * n <= p < q * n + n) by (nonlinear_arith)
            requires
                q == p / n,
                n > 0,
        ;
        assert(p >= n ==> q >= 1) by (nonlinear_arith)
            requires
                p < q * n + n,
                n > 0,
        ;
        assert(p < n ==> q <= 0) by (nonlinear_arith)
            requires
                q * n <= p,
                n > 0,
        ;
    }
}

/// How much of a profit has matured, in full: what is not reserved, as far as the rate and the
/// slots since the clock was set go; the rest is what haircuts apply to.
pub proof fn law_matured_and_young_profit(a: Account, slot: u64)
    requires
        a.warmup_slope_per_step@ * (slot - a.warmup_started_at_slot) <= u128::MAX,
    ensures
        ({
            let free = a.pnl@ - a.reserved_pnl;
            let vested = a.warmup_slope_per_step@ * (slot - a.warmup_started_at_slot);
            &&& a.pnl@ <= 0 || free <= 0 ==> a.matured_pnl(slot) == 0 && a.unwrapped_pnl(slot) == 0
            &&& slot <= a.warmup_started_at_slot ==> a.matured_pnl(slot) == 0
            &&& a.pnl@ > 0 && free > 0 ==> a.matured_pnl(slot) + a.unwrapped_pnl(slot) == free
            &&& a.pnl@ > 0 && free > 0 && slot > a.warmup_started_at_slot && vested <= free
                ==> a.matured_pnl(slot) == vested
            &&& a.pnl@ > 0 && free > 0 && slot > a.warmup_started_at_slot && vested > free
                ==> a.matured_pnl(slot) == free
        }),
{
    lemma_matured_nonneg(a, slot);
    assert(a.warmup_slope_per_step@ * 0 == 0) by (nonlinear_arith);
}

/// Settlement converts no more than has matured, than is available, and than the budget
/// allows.
pub proof fn law_conversion_is_bounded(s: EngineState, idx: int)
    requires
        s.wf(),
        s.is_used(idx),
    ensures
        ({
            let a = s.accounts[idx].loss_paid();
            let b = s.settle_warmup_to_capital(idx).0.accounts[idx];
            let gain = b.capital@ - a.capital@;
            &&& 0 <= gain
            &&& gain <= a.warmed_cap(s.effective_slot())
            &&& gain <= a.available_pnl()
            &&& gain <= s.with_loss_paid(idx).warmup_budget()
        }),
{
    let a = s.accounts[idx].loss_paid();
    lemma_matured_nonneg(a, s.effective_slot());
}

/// What has matured is never negative.
pub proof fn lemma_matured_nonneg(a: Account, slot: u64)
    ensures
        a.warmed_cap(slot) >= 0,
        a.matured_pnl(slot) >= 0,
{
    let m = monus(slot as int, a.warmup_started_at_slot as int);
    assert(a.warmup_slope_per_step@ * m >= 0) by (nonlinear_arith)
        requires
            m >= 0,
            a.warmup_slope_per_step@ >= 0,
    ;
}

/// What has matured never shrinks as time passes.
pub proof fn law_maturity_grows(a: Account, earlier: u64, later: u64)
    requires
        earlier <= later,
    ensures
        a.matured_pnl(earlier) <= a.matured_pnl(later),
{
    let m = monus(earlier as int, a.warmup_started_at_slot as int);
    let n = monus(later as int, a.warmup_started_at_slot as int);
    assert(a.warmup_slope_per_step@ * m <= a.warmup_slope_per_step@ * n) by (nonlinear_arith)
        requires
            m <= n,
            a.warmup_slope_per_step@ >= 0,
    ;
}

/// Settling once more on the way lets no more mature: what matures in two parts is what
/// matures in one.
pub proof fn law_maturity_adds_up(a: Account, middle: u64, end: u64)
    requires
        a.warmup_started_at_slot <= middle <= end,
        a.warmup_slope_per_step@ * (end - a.warmup_started_at_slot) <= u128::MAX,
    ensures
        a.warmed_cap(middle) + a.warmup_restarted(middle).warmed_cap(end) == a.warmed_cap(end),
{
    let r = a.warmup_slope_per_step@ as int;
    let m = middle - a.warmup_started_at_slot;
    let n = end - middle;
    assert(r * m + r * n == r * (m + n)) by (nonlinear_arith);
    assert(0 <= r * m && 0 <= r * n) by (nonlinear_arith)
        requires
            r >= 0,
            m >= 0,
            n >= 0,
    ;
}

/// Settled twice in one slot, an account converts nothing the second time.
pub proof fn law_settling_twice_converts_once(s: EngineState, idx: int)
    requires
        s.wf(),
        s.is_used(idx),
        s.settle_warmup_to_capital(idx).1 is Ok,
        s.accounts[idx].payable_loss() <= i128::MAX,
    ensures
        ({
            let t = s.settle_warmup_to_capital(idx).0;
            let u = t.settle_warmup_to_capital(idx).0;
            u.accounts[idx].capital == t.accounts[idx].capital && u.accounts[idx].pnl
                == t.accounts[idx].pnl
        }),
{
    law_losses_are_paid_at_once(s, idx);
    let t = s.settle_warmup_to_capital(idx).0;
    law_no_instant_conversion(t, idx);
}

/// A profit vests over the whole period: it takes at least that long to mature, but for the
/// least rate of one unit per slot.
pub proof fn law_profit_vests_over_period(pnl: int, period: int, elapsed: int)
    requires
        period > 0,
        0 <= elapsed <= period,
    ensures
        warmup_slope(pnl, period) * elapsed <= max_int(max_int(pnl, 0), elapsed),
        pnl >= period ==> warmup_slope(pnl, period) * elapsed * period <= pnl * elapsed,
{
    let profit = max_int(pnl, 0);
    let r = warmup_slope(pnl, period);
    let q = profit / period;
    assert(q * period <= profit) by (nonlinear_arith)
        requires
            q == profit / period,
            period > 0,
    ;
    assert(profit < period ==> q < 1) by (nonlinear_arith)
        requires
            q * period <= profit,
            period > 0,
            profit >= 0,
    ;
    assert(profit >= period ==> q >= 1) by (nonlinear_arith)
        requires
            q == profit / period,
            period > 0,
    ;
    if r == q {
        assert(r * elapsed <= profit) by (nonlinear_arith)
            requires
                r * period <= profit,
                0 <= elapsed <= period,
                r >= 0,
        ;
        assert(r * elapsed * period <= profit * elapsed) by (nonlinear_arith)
            requires
                r * period <= profit,
                0 <= elapsed,
        ;
    } else {
        assert(r * elapsed <= elapsed) by (nonlinear_arith)
            requires
                r <= 1,
                0 <= elapsed,
        ;
    }
}

/// While warmup is frozen nothing more matures, however much time passes.
pub proof fn law_pause_freezes_maturity(s: EngineState, now: u64, later: u64)
    requires
        s.warmup_paused,
        s.warmup_pause_slot <= now <= later,
    ensures
        s.at_slot(later).effective_slot() == s.at_slot(now).effective_slot(),
{
}

/// A loss is paid from capital at once: what is left of it is left because the capital is
/// gone.
pub proof fn law_losses_are_paid_at_once(s: EngineState, idx: int)
    requires
        s.wf(),
        s.is_used(idx),
        s.accounts[idx].payable_loss() <= i128::MAX,
    ensures
        ({
            let b = s.settle_warmup_to_capital(idx).0.accounts[idx];
            b.pnl@ < 0 ==> b.capital@ == 0
        }),
{
    lemma_matured_nonneg(s.accounts[idx].loss_paid(), s.effective_slot());
}

/// While anything waits to be socialized, no profit is converted.
pub proof fn law_pending_blocks_conversion(s: EngineState, idx: int)
    requires
        s.wf(),
        s.is_used(idx),
        s.has_pending(),
    ensures
        s.settle_warmup_to_capital(idx).0.accounts[idx].capital
            == s.accounts[idx].loss_paid().capital,
        s.settle_warmup_to_capital(idx).0.accounts[idx].pnl == s.accounts[idx].loss_paid().pnl,
{
}

/// Insurance that backs converted profit is never below the floor and the reserve together.
pub proof fn law_reserve_is_above_floor(s: EngineState)
    requires
        s.is_backed(),
        s.warmup_insurance_reserved@ > 0,
    ensures
        s.insurance_fund.balance@ >= s.params.risk_reduction_threshold@
            + s.warmup_insurance_reserved@,
{
}

/// Converted profit is covered by losses that were paid and by insurance above the floor.
pub proof fn law_converted_profit_is_covered(s: EngineState)
    requires
        s.is_backed(),
    ensures
        s.warmed_pos_total@ <= s.warmed_neg_total@ + s.spendable_raw(),
{
}

/// Settlement leaves the reserve at what converted profit calls for.
pub proof fn law_settlement_sets_reserve(s: EngineState, idx: int)
    requires
        s.wf(),
        s.settle_warmup_to_capital(idx).1 is Ok,
    ensures
        ({
            let t = s.settle_warmup_to_capital(idx).0;
            t.warmup_insurance_reserved@ == t.reserve_needed()
        }),
{
}

/// A withdrawal takes nothing but settled capital, and none is possible while anything waits
/// to be socialized.
pub proof fn law_withdrawal_takes_settled_capital(
    s: EngineState,
    idx: int,
    amount: u128,
    now: u64,
    oracle: u64,
)
    requires
        s.wf(),
        s.withdraw(idx, amount, now, oracle).1 is Ok,
    ensures
        !s.has_pending(),
        ({
            let settled = s.at_slot(now).touch_account_full(idx, now, oracle).0.accounts[idx];
            let b = s.withdraw(idx, amount, now, oracle).0.accounts[idx];
            b.capital@ + amount == settled.capital@ && b.pnl == settled.pnl
        }),
{
    law_settlement_is_isolated(s.at_slot(now), idx, now, oracle);
}

/// An account closes only when flat and settled: no position, no profit, no loss and no fees
/// owed. It is paid its capital.
pub proof fn law_closing_pays_capital(s: EngineState, idx: int, now: u64, oracle: u64)
    requires
        s.wf(),
        s.close_account(idx, now, oracle).1 is Ok,
    ensures
        !s.has_pending(),
        ({
            let settled = s.at_slot(now).touch_account_full(idx, now, oracle).0.accounts[idx];
            &&& s.close_account(idx, now, oracle).1 == Ok::<u128, RiskError>(settled.capital@)
            &&& settled.position_size@ == 0
            &&& settled.pnl@ == 0
            &&& settled.fee_credits@ >= 0
        }),
{
}

/// Fees of one slot are charged once.
pub proof fn law_fees_are_charged_once(s: EngineState, idx: int, now: u64)
    requires
        s.wf(),
        0 <= idx < MAX_ACCOUNTS,
    ensures
        s.with_fees_charged(idx, now).with_fees_charged(idx, now) == s.with_fees_charged(idx, now),
{
}

/// Mark profit is realized once.
pub proof fn law_mark_is_realized_once(a: Account, oracle: u64, b: Account)
    requires
        a.mark_settled(oracle) == Some(b),
    ensures
        b.mark(oracle as int) == Some(0int),
        b.mark_settled(oracle) == Some(b),
{
    lemma_settled_account(b, 0, oracle);
}

} // verus!
