//! When success is owed: what is enough for an operation to go through.
use vstd::prelude::*;

use crate::account_laws::{
    fees_in_range, fund_has_room, law_every_slot_is_charged, law_mark_settlement_realizes_gain,
    lemma_gain_bound,
};
use crate::adl::Exempt;
use crate::closing_laws::{lemma_close_gain, totals_in_range};
use crate::funding_laws::law_settlement_takes_funding;
use crate::isolation_laws::{
    lemma_fees_frame, lemma_funding_frame, lemma_mark_frame, lemma_warmup_frame,
};
use crate::liquidation_laws::{covers, in_bounds, law_margin_is_a_part_of_value};
use crate::math::{sat_i, sat_u};
use crate::refusal_laws::sound_price;
use crate::rounding::magnitude;
use crate::state::EngineState;
use crate::trade_laws::lemma_warmup_moves_into_capital;
use crate::types::{RiskError, TradeExecution, MAX_ACCOUNTS};
use crate::wide::U128;

verus! {

broadcast use crate::wide::group_wide;

/// Account `idx` with funding, mark and fees settled and no margin checked passes a margin
/// check that is made where slots have passed since its last charge.
pub open spec fn passes_charge(s: EngineState, idx: int, now: u64, oracle: u64) -> bool {
    let b = s.touch_account_for_force_realize(idx, now, oracle).0.accounts[idx];
    now <= s.accounts[idx].last_fee_slot || b.position_size@ == 0 || covers(
        b,
        oracle as int,
        s.params.maintenance_margin_bps as int,
    )
}

/// With nothing pending and numbers in range, a full settlement goes through exactly where the
/// account covers its margin with the fees charged, and still does at the end.
pub proof fn law_full_settlement_goes_through(s: EngineState, idx: int, now: u64, oracle: u64)
    requires
        s.wf(),
        s.is_used(idx),
        in_bounds(s.accounts[idx], oracle as int),
        fees_in_range(s, idx, now),
        fund_has_room(s),
        s.params.maintenance_margin_bps <= 1_000_000_000,
        s.pending_profit_to_fund@ == 0,
        s.pending_unpaid_loss@ == 0,
        s.touch_account(idx).1 is Ok,
        i128::MIN / 16 <= s.touch_account(idx).0.accounts[idx].pnl@ <= i128::MAX / 16,
        s.accounts[idx].capital@ <= i128::MAX / 8,
    ensures
        ({
            let (t, r) = s.touch_account_full(idx, now, oracle);
            let b = t.accounts[idx];
            r is Ok <==> passes_charge(s, idx, now, oracle) && (b.position_size@ == 0 || covers(
                b,
                oracle as int,
                s.params.maintenance_margin_bps as int,
            ))
        }),
{
    let margin = s.params.maintenance_margin_bps as int;
    law_settlement_takes_funding(s, idx);
    lemma_funding_frame(s, idx);
    let s1 = s.touch_account(idx).0;
    law_mark_settlement_realizes_gain(s1, idx, oracle);
    lemma_mark_frame(s1, idx, oracle);
    lemma_gain_bound(s1.accounts[idx], oracle as int);
    let s2 = s1.settle_mark_to_oracle(idx, oracle).0;
    law_every_slot_is_charged(s2, idx, now);
    lemma_fees_frame(s2, idx, now, oracle);
    let s3 = s2.with_fees_charged(idx, now);
    assert(s3.accounts[idx] == s.touch_account_for_force_realize(idx, now, oracle).0.accounts[idx]);
    law_margin_is_a_part_of_value(s3.accounts[idx], oracle as int, margin);
    lemma_warmup_moves_into_capital(s3, idx);
    lemma_warmup_frame(s3, idx);
    let s4 = s3.settle_warmup_to_capital(idx).0;
    let s5 = s4.with_fee_debt_paid(idx);
    let c = s4.accounts[idx];
    assert(c.capital@ + c.pnl@ == s3.accounts[idx].capital@ + s3.accounts[idx].pnl@);
    lemma_settled_bounds(s3, idx);
    assert(in_bounds(s5.accounts[idx], oracle as int));
    law_margin_is_a_part_of_value(s5.accounts[idx], oracle as int, margin);
}

proof fn lemma_settled_bounds(s: EngineState, idx: int)
    requires
        s.wf(),
        s.is_used(idx),
        s.accounts[idx].capital@ <= i128::MAX / 8,
        i128::MIN / 15 <= s.accounts[idx].pnl@ <= i128::MAX / 15,
    ensures
        ({
            let b = s.settle_warmup_to_capital(idx).0.accounts[idx];
            &&& b.capital@ <= i128::MAX / 8 + i128::MAX / 15
            &&& i128::MIN / 15 <= b.pnl@ <= i128::MAX / 15
        }),
{
    let a = s.accounts[idx].loss_paid();
    crate::warmup_laws::lemma_matured_nonneg(a, s.effective_slot());
}

/// Both parties of a trade are settled, with numbers in range, exactly where each covers its
/// margin with the fees charged.
pub proof fn law_both_parties_can_be_settled(
    s: EngineState,
    lp: int,
    user: int,
    now: u64,
    oracle: u64,
)
    requires
        s.wf(),
        s.is_used(lp),
        s.is_used(user),
        lp != user,
        in_bounds(s.accounts[lp], oracle as int),
        in_bounds(s.accounts[user], oracle as int),
        fees_in_range(s, lp, now),
        fees_in_range(s, user, now),
        fund_has_room(s),
        s.params.maintenance_margin_bps <= 1_000_000_000,
        s.touch_account(lp).1 is Ok,
        s.touch_account(user).1 is Ok,
        i128::MIN / 8 <= s.touch_account(lp).0.accounts[lp].pnl@ <= i128::MAX / 8,
        i128::MIN / 8 <= s.touch_account(user).0.accounts[user].pnl@ <= i128::MAX / 8,
    ensures
        s.pair_settled(lp, user, now, oracle).1 is Ok <==> passes_charge(s, user, now, oracle)
            && passes_charge(s, lp, now, oracle),
{
    let margin = s.params.maintenance_margin_bps as int;
    law_settlement_takes_funding(s, user);
    law_settlement_takes_funding(s, lp);
    let s1 = s.touch_account(user).0;
    assert(s1.accounts[lp] == s.accounts[lp]);
    assert(s1.touch_account(lp).1 is Ok);
    let s2 = s1.touch_account(lp).0;
    assert(s2.accounts[user] == s1.accounts[user]);
    assert(s2.accounts[lp] == s.touch_account(lp).0.accounts[lp]);
    law_mark_settlement_realizes_gain(s2, user, oracle);
    lemma_gain_bound(s2.accounts[user], oracle as int);
    let s3 = s2.settle_mark_to_oracle(user, oracle).0;
    assert(s3.accounts[lp] == s2.accounts[lp]);
    law_mark_settlement_realizes_gain(s3, lp, oracle);
    lemma_gain_bound(s3.accounts[lp], oracle as int);
    let s4 = s3.settle_mark_to_oracle(lp, oracle).0;
    assert(s4.accounts[user] == s3.accounts[user]);
    lemma_fees_frame(s4, user, now, oracle);
    let s5 = s4.with_fees_charged(user, now);
    lemma_fees_frame(s5, lp, now, oracle);
    let s6 = s5.with_fees_charged(lp, now);
    lemma_charged_alone(s, s4, user, now, oracle);
    lemma_charged_alone(s, s5, lp, now, oracle);
    law_margin_is_a_part_of_value(s5.accounts[user], oracle as int, margin);
    law_margin_is_a_part_of_value(s6.accounts[lp], oracle as int, margin);
}

proof fn lemma_charged_alone(s: EngineState, t: EngineState, idx: int, now: u64, oracle: u64)
    requires
        s.wf(),
        t.wf(),
        s.is_used(idx),
        t.is_used(idx),
        s.params == t.params,
        s.touch_account(idx).1 is Ok,
        in_bounds(s.accounts[idx], oracle as int),
        fees_in_range(s, idx, now),
        i128::MIN / 8 <= s.touch_account(idx).0.accounts[idx].pnl@ <= i128::MAX / 8,
        t.accounts[idx] == s.touch_account(idx).0.settle_mark_to_oracle(
            idx,
            oracle,
        ).0.accounts[idx],
    ensures
        t.with_fees_charged(idx, now).accounts[idx] == s.touch_account_for_force_realize(
            idx,
            now,
            oracle,
        ).0.accounts[idx],
        in_bounds(t.with_fees_charged(idx, now).accounts[idx], oracle as int),
        t.accounts[idx].last_fee_slot == s.accounts[idx].last_fee_slot,
{
    law_settlement_takes_funding(s, idx);
    let s1 = s.touch_account(idx).0;
    law_mark_settlement_realizes_gain(s1, idx, oracle);
    lemma_gain_bound(s1.accounts[idx], oracle as int);
    let s2 = s1.settle_mark_to_oracle(idx, oracle).0;
    lemma_charge_is_local(s2, t, idx, now);
    lemma_charge_takes(s2, idx, now);
}

proof fn lemma_charge_is_local(s: EngineState, t: EngineState, idx: int, now: u64)
    requires
        s.wf(),
        t.wf(),
        s.is_used(idx),
        t.is_used(idx),
        s.params == t.params,
        s.accounts[idx] == t.accounts[idx],
    ensures
        s.with_fees_charged(idx, now).accounts[idx] == t.with_fees_charged(idx, now).accounts[idx],
{
}

proof fn lemma_charge_takes(s: EngineState, idx: int, now: u64)
    requires
        s.wf(),
        s.is_used(idx),
    ensures
        s.with_fees_charged(idx, now).accounts[idx].capital@ <= s.accounts[idx].capital@,
        s.with_fees_charged(idx, now).accounts[idx].pnl == s.accounts[idx].pnl,
        s.with_fees_charged(idx, now).accounts[idx].position_size
            == s.accounts[idx].position_size,
        s.with_fees_charged(idx, now).accounts[idx].entry_price == s.accounts[idx].entry_price,
{
}

/// A trade that is admitted, with a fill that fits it, goes through exactly where both parties
/// can be settled, can carry the fill, and what has warmed up can be converted.
pub proof fn law_trade_goes_through(
    s: EngineState,
    lp: int,
    user: int,
    now: u64,
    oracle: u64,
    size: i128,
    x: TradeExecution,
)
    requires
        s.check_trade(lp, user, now, oracle, size) is Ok,
        0 < x.price <= 1_000_000_000_000_000,
        x.size != 0,
        (x.size > 0) == (size > 0),
        magnitude(x.size as int) <= magnitude(size as int),
    ensures
        ({
            let s0 = EngineState { current_slot: now, ..s };
            let (s1, r1) = s0.pair_settled(lp, user, now, oracle);
            let (s2, r2) = s1.fill_settled(lp, user, oracle, x);
            let (s3, r3) = s2.pair_rewarmed(lp, user);
            let r = s.execute_trade(lp, user, now, oracle, size, Ok(x)).1;
            r is Ok <==> r1 is Ok && r2 is Ok && r3 is Ok
        }),
{
}

/// With nothing pending both parties of a fill can convert what has warmed up.
pub proof fn law_both_parties_can_convert(s: EngineState, lp: int, user: int)
    requires
        s.wf(),
        s.is_used(lp),
        s.is_used(user),
        s.pending_profit_to_fund@ == 0,
        s.pending_unpaid_loss@ == 0,
    ensures
        s.pair_rewarmed(lp, user).1 is Ok,
{
    lemma_warmup_frame(s, user);
    let s1 = s.settle_warmup_to_capital(user).0;
    lemma_warmup_frame(s1, lp);
}

/// A crank goes through exactly where the price is sound and funding can accrue.
pub proof fn law_crank_goes_through(
    s: EngineState,
    caller: int,
    now: u64,
    oracle: u64,
    rate: i64,
    allow_panic: bool,
)
    ensures
        s.keeper_crank(caller, now, oracle, rate, allow_panic).1 is Ok <==> sound_price(oracle)
            && s.accrue_funding(now, oracle, rate).1 is Ok,
{
}

/// A forced realization of losses goes through where the price is sound, the insurance is at
/// its floor, and the funding of every account can be settled.
pub proof fn law_forced_realization_goes_through(s: EngineState, oracle: u64)
    requires
        s.wf(),
        sound_price(oracle),
        s.insurance_fund.balance@ <= s.params.risk_reduction_threshold@,
        forall|k: int|
            0 <= k < MAX_ACCOUNTS && s.used[k] ==> (#[trigger] s.touch_account(k)).1 is Ok,
    ensures
        s.force_realize_losses(oracle).1 is Ok,
{
    let s0 = s.in_risk_reduction();
    assert forall|k: int| 0 <= k < MAX_ACCOUNTS && s0.used[k] implies (#[trigger] s0.touch_account(
        k,
    )).1 is Ok by {
        assert(s.touch_account(k).1 is Ok);
    }
    lemma_force_close_from_ok(s0, 0, oracle, 0, 0);
}

proof fn lemma_force_close_from_ok(s: EngineState, i: int, oracle: u64, unpaid: int, mark: int)
    requires
        s.wf(),
        0 <= i,
        forall|k: int|
            i <= k < MAX_ACCOUNTS && s.used[k] ==> (#[trigger] s.touch_account(k)).1 is Ok,
    ensures
        s.force_close_from(i, oracle, unpaid, mark).1 is Ok,
    decreases MAX_ACCOUNTS - i,
{
    if i < MAX_ACCOUNTS {
        if !s.is_used(i) {
            lemma_force_close_from_ok(s, i + 1, oracle, unpaid, mark);
        } else {
            assert(s.touch_account(i).1 is Ok);
            let s1 = s.touch_account(i).0;
            let (s2, (m, d)) = s1.force_close(i, oracle);
            assert(s2.wf() && s2.used == s.used && s2.funding_index_qpb_e6
                == s.funding_index_qpb_e6);
            assert forall|k: int| i < k < MAX_ACCOUNTS && s2.used[k] implies (
            #[trigger] s2.touch_account(k)).1 is Ok by {
                assert(s.touch_account(k).1 is Ok);
                assert(s2.accounts[k] == s.accounts[k]);
            }
            lemma_force_close_from_ok(
                s2,
                i + 1,
                oracle,
                sat_u(unpaid + d.unpaid_loss),
                sat_i(mark + m),
            );
        }
    }
}

/// A close that brings no profit, of an account whose capital pays the loss, goes through with
/// nothing pending.
pub proof fn law_paid_close_goes_through(s: EngineState, idx: int, oracle: u64, size: u128)
    requires
        s.wf(),
        s.is_used(idx),
        in_bounds(s.accounts[idx], oracle as int),
        totals_in_range(s),
        s.pending_profit_to_fund@ == 0,
        s.pending_unpaid_loss@ == 0,
        size > 0,
        s.accounts[idx].position_size@ != 0,
        ({
            let a = s.accounts[idx];
            let n = if size < magnitude(a.position_size@ as int) {
                size as int
            } else {
                magnitude(a.position_size@ as int)
            };
            let mark = a.close_pnl(n, oracle);
            mark <= 0 && a.capital@ + a.pnl@ + mark >= 0
        }),
    ensures
        s.close_position_up_to(idx, oracle, size as int).1 is Ok,
{
    let a = s.accounts[idx];
    let n = if size < magnitude(a.position_size@ as int) {
        size as int
    } else {
        magnitude(a.position_size@ as int)
    };
    lemma_close_gain(a, n, oracle);
    let s0 = s.with_slice_closed(idx, n, oracle);
    assert(s0.wf() && s0.is_used(idx));
    assert(s0.deleverage(0, Exempt::One(idx as usize)) == (s0, Ok::<(), RiskError>(())));
    lemma_warmup_moves_into_capital(s0, idx);
    crate::warmup_laws::law_losses_are_paid_at_once(s0, idx);
    assert(s.close_position_up_to(idx, oracle, size as int) == s.close_slice(idx, n, oracle));
}

/// Where the price is sound and the funding of every account can be settled, an emergency
/// settlement goes through exactly where the loss that the closes leave, and the mark profit
/// that they do not cancel out to, can be shared.
pub proof fn law_emergency_goes_through(s: EngineState, oracle: u64)
    requires
        s.wf(),
        sound_price(oracle),
        forall|k: int|
            0 <= k < MAX_ACCOUNTS && s.used[k] ==> (#[trigger] s.touch_account(k)).1 is Ok,
    ensures
        ({
            let begun = EngineState {
                pending_profit_to_fund: U128::of(0),
                pending_unpaid_loss: U128::of(0),
                ..s.in_risk_reduction()
            };
            let (s1, r) = begun.panic_close_from(0, oracle, 0, 0);
            &&& r is Ok
            &&& r matches Ok((loss, mark)) ==> {
                let total = if mark > 0 {
                    loss + mark
                } else {
                    loss as int
                };
                let s2 = s1.with_lp_totals_reset();
                total <= u128::MAX ==> (s.panic_settle_all(oracle).1 is Ok <==> s2.deleverage(
                    total,
                    Exempt::Nobody,
                ).1 is Ok)
            }
        }),
{
    let s0 = s.panic_begun();
    assert forall|k: int| 0 <= k < MAX_ACCOUNTS && s0.used[k] implies (#[trigger] s0.touch_account(
        k,
    )).1 is Ok by {
        assert(s.touch_account(k).1 is Ok);
    }
    lemma_panic_close_from_ok(s0, 0, oracle, 0, 0);
    let (s1, r) = s0.panic_close_from(0, oracle, 0, 0);
    if let Ok((loss, mark)) = r {
        let total = sat_u(
            loss + if mark > 0 {
                mark as int
            } else {
                0
            },
        );
        let s2 = s1.with_lp_totals_reset();
        let s3 = s2.deleverage(total, Exempt::Nobody).0;
        assert(s3.wf());
        lemma_warmup_from_ok(s3, 0);
    }
}

proof fn lemma_panic_close_from_ok(s: EngineState, i: int, oracle: u64, loss: int, mark: int)
    requires
        s.wf(),
        0 <= i,
        s.pending_profit_to_fund@ == 0,
        s.pending_unpaid_loss@ == 0,
        forall|k: int|
            i <= k < MAX_ACCOUNTS && s.used[k] ==> (#[trigger] s.touch_account(k)).1 is Ok,
    ensures
        s.panic_close_from(i, oracle, loss, mark).1 is Ok,
        s.panic_close_from(i, oracle, loss, mark).0.wf(),
        s.panic_close_from(i, oracle, loss, mark).0.pending_profit_to_fund@ == 0,
        s.panic_close_from(i, oracle, loss, mark).0.pending_unpaid_loss@ == 0,
    decreases MAX_ACCOUNTS - i,
{
    if i < MAX_ACCOUNTS {
        if !s.is_used(i) {
            lemma_panic_close_from_ok(s, i + 1, oracle, loss, mark);
        } else {
            assert(s.touch_account(i).1 is Ok);
            let s1 = s.touch_account(i).0;
            let (s2, l, m) = s1.panic_close(i, oracle);
            assert(s2.wf() && s2.used == s.used && s2.funding_index_qpb_e6
                == s.funding_index_qpb_e6);
            assert forall|k: int| i < k < MAX_ACCOUNTS && s2.used[k] implies (
            #[trigger] s2.touch_account(k)).1 is Ok by {
                assert(s.touch_account(k).1 is Ok);
                assert(s2.accounts[k] == s.accounts[k]);
            }
            lemma_panic_close_from_ok(s2, i + 1, oracle, sat_u(loss + l), sat_i(mark + m));
        }
    }
}

proof fn lemma_warmup_from_ok(s: EngineState, i: int)
    requires
        s.wf(),
        0 <= i,
        s.pending_profit_to_fund@ == 0,
        s.pending_unpaid_loss@ == 0,
    ensures
        s.settle_warmup_from(i).1 is Ok,
    decreases MAX_ACCOUNTS - i,
{
    if i < MAX_ACCOUNTS {
        if !s.is_used(i) {
            lemma_warmup_from_ok(s, i + 1);
        } else {
            lemma_warmup_frame(s, i);
            lemma_warmup_from_ok(s.settle_warmup_to_capital(i).0, i + 1);
        }
    }
}

} // verus!
