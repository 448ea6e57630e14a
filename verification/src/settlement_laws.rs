//! What the combined settlements of an account add up to, and when they refuse.
use vstd::prelude::*;

use crate::account_laws::{
    due, fees_in_range, fund_has_room, law_every_slot_is_charged, law_fee_debt_is_paid,
    law_mark_settlement_realizes_gain, lemma_gain_bound,
};
use crate::funding_laws::law_settlement_takes_funding;
use crate::isolation_laws::{
    lemma_fees_frame, lemma_funding_frame, lemma_mark_frame, lemma_warmup_frame,
};
use crate::liquidation_laws::{covers, gain, in_bounds, law_margin_is_a_part_of_value};
use crate::state::EngineState;
use crate::types::{Account, RiskError};
use crate::warmup_laws::law_settlement_converts_what_matured;

verus! {

broadcast use crate::wide::group_wide;

/// `b` is account `idx` of `s` with funding and fees settled and `gained` added to its profit.
pub open spec fn settled_account(
    s: EngineState,
    idx: int,
    b: Account,
    now: u64,
    gained: int,
) -> bool {
    let a = s.accounts[idx];
    let paid = a.capital@ - b.capital@;
    let owed = due(s, idx, now) - a.fee_credits@;
    let funding = a.pnl@ + gained - b.pnl@;
    let exact = a.position_size@ * (s.funding_index_qpb_e6@ - a.funding_index@);
    &&& exact <= funding * 1_000_000 < exact + 1_000_000
    &&& b.funding_index == s.funding_index_qpb_e6
    &&& b.position_size == a.position_size
    &&& b.reserved_pnl == a.reserved_pnl
    &&& b.warmup_slope_per_step == a.warmup_slope_per_step
    &&& b.warmup_started_at_slot == a.warmup_started_at_slot
    &&& b.fee_credits@ == a.fee_credits@ - due(s, idx, now) + paid
    &&& now <= a.last_fee_slot ==> paid == 0 && b.last_fee_slot == a.last_fee_slot
    &&& now > a.last_fee_slot ==> b.last_fee_slot == now
    &&& now > a.last_fee_slot && owed <= 0 ==> paid == 0
    &&& now > a.last_fee_slot && 0 < owed <= a.capital@ ==> paid == owed
    &&& now > a.last_fee_slot && owed > a.capital@ ==> b.capital@ == 0
}

/// `t` is `s` with funding and fees of account `idx` settled and `gained` added to its profit.
/// The insurance fund has what was paid.
pub open spec fn settled_with(
    s: EngineState,
    t: EngineState,
    idx: int,
    now: u64,
    gained: int,
) -> bool {
    let paid = s.accounts[idx].capital@ - t.accounts[idx].capital@;
    &&& settled_account(s, idx, t.accounts[idx], now, gained)
    &&& t.insurance_fund.balance@ == s.insurance_fund.balance@ + paid
    &&& t.insurance_fund.fee_revenue@ == s.insurance_fund.fee_revenue@ + paid
    &&& t.vault == s.vault
}

/// Settling an account for a liquidation or a forced close takes funding, adds what the
/// position has gained, and charges fees. It checks no margin.
pub proof fn law_forced_settlement_adds_up(s: EngineState, idx: int, now: u64, oracle: u64)
    requires
        s.wf(),
        s.is_used(idx),
        in_bounds(s.accounts[idx], oracle as int),
        fees_in_range(s, idx, now),
        fund_has_room(s),
        s.touch_account(idx).1 is Ok,
        i128::MIN / 4 <= s.touch_account(idx).0.accounts[idx].pnl@ <= i128::MAX / 4,
    ensures
        s.touch_account_for_liquidation(idx, now, oracle).1 is Ok,
        s.touch_account_for_force_realize(idx, now, oracle).1 is Ok,
        ({
            let t = s.touch_account_for_liquidation(idx, now, oracle).0;
            &&& settled_with(s, t, idx, now, gain(s.accounts[idx], oracle as int))
            &&& t.accounts[idx].entry_price == oracle
            &&& t == s.touch_account_for_force_realize(idx, now, oracle).0
        }),
{
    law_settlement_takes_funding(s, idx);
    lemma_funding_frame(s, idx);
    let s1 = s.touch_account(idx).0;
    law_mark_settlement_realizes_gain(s1, idx, oracle);
    lemma_mark_frame(s1, idx, oracle);
    let s2 = s1.settle_mark_to_oracle(idx, oracle).0;
    law_every_slot_is_charged(s2, idx, now);
}

/// Settling an account for a crank takes funding and charges fees. Its position keeps its
/// entry price.
pub proof fn law_crank_settlement_adds_up(s: EngineState, idx: int, now: u64, oracle: u64)
    requires
        s.wf(),
        s.is_used(idx),
        fees_in_range(s, idx, now),
        fund_has_room(s),
        s.touch_account_for_crank(idx, now, oracle).1 is Ok,
    ensures
        ({
            let t = s.touch_account_for_crank(idx, now, oracle).0;
            &&& settled_with(s, t, idx, now, 0)
            &&& t.accounts[idx].entry_price == s.accounts[idx].entry_price
        }),
{
    law_settlement_takes_funding(s, idx);
    lemma_funding_frame(s, idx);
    let s1 = s.touch_account(idx).0;
    law_every_slot_is_charged(s1, idx, now);
    lemma_fees_frame(s1, idx, now, oracle);
}

/// A full settlement that succeeds leaves the account without a position, or covering its
/// maintenance margin. One that is refused for want of collateral has settled what it could,
/// and the account does not cover its margin.
pub proof fn law_full_settlement_checks_margin(s: EngineState, idx: int, now: u64, oracle: u64)
    requires
        s.wf(),
        s.is_used(idx),
        s.params.maintenance_margin_bps <= 1_000_000_000,
        in_bounds(s.touch_account_full(idx, now, oracle).0.accounts[idx], oracle as int),
    ensures
        ({
            let (t, r) = s.touch_account_full(idx, now, oracle);
            let b = t.accounts[idx];
            let margin = s.params.maintenance_margin_bps as int;
            &&& r is Ok ==> b.position_size@ == 0 || covers(b, oracle as int, margin)
            &&& r == Err::<(), RiskError>(RiskError::Undercollateralized) ==> b.position_size@ != 0
                && !covers(b, oracle as int, margin)
        }),
{
    let (t, r) = s.touch_account_full(idx, now, oracle);
    let b = t.accounts[idx];
    law_margin_is_a_part_of_value(b, oracle as int, s.params.maintenance_margin_bps as int);
    lemma_funding_frame(s, idx);
    let s1 = s.touch_account(idx).0;
    lemma_mark_frame(s1, idx, oracle);
    let s2 = s1.settle_mark_to_oracle(idx, oracle).0;
    lemma_fees_frame(s2, idx, now, oracle);
    let s3 = s2.settle_maintenance_fee(idx, now, oracle).0;
    lemma_warmup_frame(s3, idx);
}

/// Before a fill both parties are settled: funding is taken, what their positions have gained
/// is added, and fees are charged, which the insurance fund has. Both positions are marked at
/// the oracle price.
#[verifier::rlimit(40)]
#[verifier::spinoff_prover]
pub proof fn law_both_parties_are_settled(
    s: EngineState,
    lp: int,
    user: int,
    now: u64,
    oracle: u64,
)
    requires
        s.wf(),
        s.is_used(lp),
        s.is_used(user),
        lp != user,
        in_bounds(s.accounts[lp], oracle as int),
        in_bounds(s.accounts[user], oracle as int),
        fees_in_range(s, lp, now),
        fees_in_range(s, user, now),
        s.insurance_fund.balance@ <= i128::MAX / 2,
        s.insurance_fund.fee_revenue@ <= i128::MAX / 2,
        i128::MIN / 4 <= s.touch_account(lp).0.accounts[lp].pnl@ <= i128::MAX / 4,
        i128::MIN / 4 <= s.touch_account(user).0.accounts[user].pnl@ <= i128::MAX / 4,
        s.pair_settled(lp, user, now, oracle).1 is Ok,
    ensures
        ({
            let t = s.pair_settled(lp, user, now, oracle).0;
            let paid = s.accounts[user].capital@ - t.accounts[user].capital@
                + s.accounts[lp].capital@ - t.accounts[lp].capital@;
            &&& settled_account(
                s,
                user,
                t.accounts[user],
                now,
                gain(s.accounts[user], oracle as int),
            )
            &&& settled_account(s, lp, t.accounts[lp], now, gain(s.accounts[lp], oracle as int))
            &&& t.accounts[user].entry_price == oracle
            &&& t.accounts[lp].entry_price == oracle
            &&& t.insurance_fund.balance@ == s.insurance_fund.balance@ + paid
            &&& t.insurance_fund.fee_revenue@ == s.insurance_fund.fee_revenue@ + paid
            &&& t.vault == s.vault
        }),
{
    law_settlement_takes_funding(s, user);
    let s1 = s.touch_account(user).0;
    assert(s1.accounts[lp] == s.accounts[lp]);
    law_settlement_takes_funding(s1, lp);
    let s2 = s1.touch_account(lp).0;
    assert(s2.accounts[user] == s1.accounts[user]);
    assert(s2.accounts[lp] == s.touch_account(lp).0.accounts[lp]);
    law_mark_settlement_realizes_gain(s2, user, oracle);
    lemma_mark_frame(s2, user, oracle);
    let s3 = s2.settle_mark_to_oracle(user, oracle).0;
    assert(s3.accounts[lp] == s2.accounts[lp]);
    law_mark_settlement_realizes_gain(s3, lp, oracle);
    lemma_mark_frame(s3, lp, oracle);
    let s4 = s3.settle_mark_to_oracle(lp, oracle).0;
    assert(s4.accounts[user] == s3.accounts[user]);
    law_every_slot_is_charged(s4, user, now);
    lemma_fees_frame(s4, user, now, oracle);
    let s5 = s4.with_fees_charged(user, now);
    assert(s5.accounts[lp] == s4.accounts[lp]);
    law_every_slot_is_charged(s5, lp, now);
    lemma_fees_frame(s5, lp, now, oracle);
}

/// In state `s`, `turned` of the profit or loss of an account like `a` becomes capital: of a
/// loss, all that capital can pay; of a profit, what is not reserved, has vested since the
/// clock was set, and is backed by paid losses and by insurance above floor and reserve.
pub open spec fn turns_into_capital(s: EngineState, a: Account, turned: int) -> bool {
    let slot = if s.warmup_paused && s.warmup_pause_slot < s.current_slot {
        s.warmup_pause_slot
    } else {
        s.current_slot
    };
    let free = a.pnl@ - a.reserved_pnl;
    let vested = a.warmup_slope_per_step@ * (slot - a.warmup_started_at_slot);
    let insured = s.insurance_fund.balance@ - s.params.risk_reduction_threshold@
        - s.warmup_insurance_reserved@;
    let backed = s.warmed_neg_total@ + (if insured > 0 {
        insured
    } else {
        0
    }) - s.warmed_pos_total@;
    &&& a.pnl@ < 0 && -a.pnl@ <= a.capital@ ==> turned == a.pnl@
    &&& a.pnl@ < 0 && -a.pnl@ > a.capital@ ==> turned == -a.capital@
    &&& a.pnl@ >= 0 ==> {
        &&& turned >= 0
        &&& turned > 0 ==> turned <= free && turned <= vested && turned <= backed && slot
            > a.warmup_started_at_slot
        &&& free > 0 && slot > a.warmup_started_at_slot && vested > 0 && backed > 0 ==> turned
            == free || turned == vested || turned == backed
    }
}

/// Nothing of what is converted is out of range.
pub open spec fn conversion_in_range(s: EngineState) -> bool {
    s.warmed_neg_total@ + s.insurance_fund.balance@ <= u128::MAX / 2 && s.warmed_pos_total@
        <= u128::MAX / 2
}

/// Where no fees are due, a full settlement turns as much into capital as has warmed up of the
/// profit that funding and mark leave, or pays their loss; and it moves the clock on.
pub proof fn law_full_settlement_converts(
    s: EngineState,
    idx: int,
    now: u64,
    oracle: u64,
    a: Account,
)
    requires
        s.wf(),
        s.is_used(idx),
        in_bounds(s.accounts[idx], oracle as int),
        fees_in_range(s, idx, now),
        fund_has_room(s),
        conversion_in_range(s),
        now <= s.accounts[idx].last_fee_slot,
        s.accounts[idx].fee_credits@ >= 0,
        i128::MIN / 4 <= s.touch_account(idx).0.accounts[idx].pnl@ <= i128::MAX / 4,
        s.touch_account_full(idx, now, oracle).1 is Ok,
        a.capital == s.accounts[idx].capital,
        a.reserved_pnl == s.accounts[idx].reserved_pnl,
        a.warmup_slope_per_step == s.accounts[idx].warmup_slope_per_step,
        a.warmup_started_at_slot == s.accounts[idx].warmup_started_at_slot,
        ({
            let b = s.touch_account_full(idx, now, oracle).0.accounts[idx];
            a.pnl@ == b.pnl@ + b.capital@ - a.capital@
        }),
    ensures
        ({
            let b = s.touch_account_full(idx, now, oracle).0.accounts[idx];
            &&& turns_into_capital(s, a, b.capital@ - a.capital@)
            &&& b.warmup_started_at_slot == if s.warmup_paused && s.warmup_pause_slot
                < s.current_slot {
                s.warmup_pause_slot
            } else {
                s.current_slot
            }
        }),
{
    law_settlement_takes_funding(s, idx);
    lemma_funding_frame(s, idx);
    let s1 = s.touch_account(idx).0;
    law_mark_settlement_realizes_gain(s1, idx, oracle);
    lemma_gain_bound(s1.accounts[idx], oracle as int);
    let s2 = s1.settle_mark_to_oracle(idx, oracle).0;
    law_every_slot_is_charged(s2, idx, now);
    let s3 = s2.settle_maintenance_fee(idx, now, oracle).0;
    assert(s3 == s2);
    law_settlement_converts_what_matured(s3, idx);
    let s4 = s3.settle_warmup_to_capital(idx).0;
    law_fee_debt_is_paid(s4, idx);
}

/// Where no fees are due, a deposit turns as much into capital as has warmed up of the profit,
/// or pays the loss with what capital there is then.
pub proof fn law_deposit_converts(s: EngineState, idx: int, amount: u128, now: u64, a: Account)
    requires
        s.wf(),
        s.is_used(idx),
        fund_has_room(s),
        conversion_in_range(s),
        now <= s.accounts[idx].last_fee_slot,
        s.accounts[idx].fee_credits@ >= 0,
        s.accounts[idx].capital@ <= i128::MAX / 4,
        amount <= i128::MAX / 4,
        i128::MIN / 2 <= s.accounts[idx].pnl@ <= i128::MAX / 2,
        s.deposit(idx, amount, now).1 is Ok,
        a.capital@ == s.accounts[idx].capital@ + amount,
        a.pnl == s.accounts[idx].pnl,
        a.reserved_pnl == s.accounts[idx].reserved_pnl,
        a.warmup_slope_per_step == s.accounts[idx].warmup_slope_per_step,
        a.warmup_started_at_slot == s.accounts[idx].warmup_started_at_slot,
    ensures
        ({
            let b = s.deposit(idx, amount, now).0.accounts[idx];
            turns_into_capital(
                EngineState { current_slot: now, ..s },
                a,
                b.capital@ - a.capital@,
            )
        }),
{
    let s1 = s.at_slot(now).with_deposit(idx, amount, now);
    law_settlement_converts_what_matured(s1, idx);
    let s2 = s1.settle_warmup_to_capital(idx).0;
    law_fee_debt_is_paid(s2, idx);
}

/// After a fill both parties turn into capital what has warmed up at their old rates, the user
/// first, and pay their losses.
pub proof fn law_fill_converts(s: EngineState, lp: int, user: int)
    requires
        s.wf(),
        s.is_used(lp),
        s.is_used(user),
        lp != user,
        s.accounts[lp].capital@ <= i128::MAX / 2,
        i128::MIN / 2 <= s.accounts[lp].pnl@ <= i128::MAX / 2,
        s.accounts[user].capital@ <= i128::MAX / 2,
        i128::MIN / 2 <= s.accounts[user].pnl@ <= i128::MAX / 2,
        conversion_in_range(s),
        conversion_in_range(s.settle_warmup_to_capital(user).0),
        s.pair_rewarmed(lp, user).1 is Ok,
    ensures
        ({
            let t = s.pair_rewarmed(lp, user).0;
            let s1 = s.settle_warmup_to_capital(user).0;
            &&& turns_into_capital(
                s,
                s.accounts[user],
                t.accounts[user].capital@ - s.accounts[user].capital@,
            )
            &&& turns_into_capital(
                s1,
                s.accounts[lp],
                t.accounts[lp].capital@ - s.accounts[lp].capital@,
            )
        }),
{
    law_settlement_converts_what_matured(s, user);
    lemma_warmup_frame(s, user);
    let s1 = s.settle_warmup_to_capital(user).0;
    assert(s1.accounts[lp] == s.accounts[lp]);
    law_settlement_converts_what_matured(s1, lp);
    lemma_warmup_frame(s1, lp);
    let s2 = s1.settle_warmup_to_capital(lp).0;
    assert(s2.accounts[user] == s1.accounts[user]);
}

} // verus!
