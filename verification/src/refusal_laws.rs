//! Why an operation is refused: each reason, and exactly when it is given.
use vstd::prelude::*;

use crate::rounding::magnitude;
use crate::slots::lemma_alloc;
use crate::state::EngineState;
use crate::types::{AccountKind, RiskError, TradeExecution};

verus! {

broadcast use crate::wide::group_wide;

/// A price that the engine accepts.
pub open spec fn sound_price(price: u64) -> bool {
    0 < price <= 1_000_000_000_000_000
}

/// A crank was run no longer ago than the engine allows.
pub open spec fn cranked_lately(s: EngineState, now: u64) -> bool {
    now <= s.last_crank_slot + s.max_crank_staleness_slots
}

/// A sweep began no longer ago than the engine allows.
pub open spec fn swept_lately(s: EngineState, now: u64) -> bool {
    now <= s.last_full_sweep_start_slot + s.max_crank_staleness_slots
}

/// Why a trade is not put to the matching engine: for want of a recent crank; for want of an
/// account; for its price or size; for the kinds of the accounts; and, if it takes a position
/// further from zero, for want of a recent sweep or because only risk may be reduced.
pub proof fn law_trade_refusals(
    s: EngineState,
    lp: int,
    user: int,
    now: u64,
    oracle: u64,
    size: i128,
)
    requires
        s.is_used(lp) ==> magnitude(s.accounts[lp].position_size@ as int)
            <= 100_000_000_000_000_000_000,
        s.is_used(user) ==> magnitude(s.accounts[user].position_size@ as int)
            <= 100_000_000_000_000_000_000,
    ensures
        ({
            let r = s.check_trade(lp, user, now, oracle, size);
            let there = s.is_used(lp) && s.is_used(user);
            let sound = sound_price(oracle) && size != 0 && magnitude(size as int)
                <= 100_000_000_000_000_000_000;
            let kinds = s.accounts[lp].kind == AccountKind::LP && s.accounts[user].kind
                == AccountKind::User;
            let u = s.accounts[user].position_size@;
            let l = s.accounts[lp].position_size@;
            let further = magnitude(u + size) > magnitude(u as int) || magnitude(l - size)
                > magnitude(l as int);
            let due = cranked_lately(s, now) && there && sound && kinds;
            &&& r == Err::<(), RiskError>(RiskError::Unauthorized) <==> !cranked_lately(s, now) || (
            due && further && !swept_lately(s, now))
            &&& r == Err::<(), RiskError>(RiskError::AccountNotFound) <==> cranked_lately(s, now)
                && !there
            &&& r == Err::<(), RiskError>(RiskError::Overflow) <==> cranked_lately(s, now) && there
                && !sound
            &&& r == Err::<(), RiskError>(RiskError::AccountKindMismatch) <==> cranked_lately(
                s,
                now,
            ) && there && sound && !kinds
            &&& r == Err::<(), RiskError>(RiskError::RiskReductionOnlyMode) <==> due && further
                && swept_lately(s, now) && s.risk_reduction_only
        }),
{
}

/// Why a withdrawal is not tried: for its price; for want of a recent crank or sweep, or
/// because something is pending; for want of the account.
pub proof fn law_withdrawal_refusals(
    s: EngineState,
    idx: int,
    amount: u128,
    now: u64,
    oracle: u64,
)
    ensures
        ({
            let r = s.withdraw(idx, amount, now, oracle).1;
            let open = cranked_lately(s, now) && swept_lately(s, now)
                && s.pending_profit_to_fund@ == 0 && s.pending_unpaid_loss@ == 0;
            &&& !sound_price(oracle) ==> r == Err::<(), RiskError>(RiskError::Overflow)
            &&& sound_price(oracle) && !open ==> r == Err::<(), RiskError>(RiskError::Unauthorized)
            &&& sound_price(oracle) && open && !s.is_used(idx) ==> r == Err::<(), RiskError>(
                RiskError::AccountNotFound,
            )
            &&& sound_price(oracle) && open && s.is_used(idx) && s.at_slot(now).touch_account_full(
                idx,
                now,
                oracle,
            ).1 is Err ==> r == s.at_slot(now).touch_account_full(idx, now, oracle).1
        }),
{
}

/// What is withdrawn while only risk may be reduced is counted, and nothing else is.
pub proof fn law_withdrawals_in_mode_are_counted(
    s: EngineState,
    idx: int,
    amount: u128,
    oracle: u64,
)
    requires
        s.risk_reduction_mode_withdrawn@ + amount <= u128::MAX,
        s.withdraw_settled(idx, amount, oracle).1 is Ok,
    ensures
        ({
            let t = s.withdraw_settled(idx, amount, oracle).0;
            t.risk_reduction_mode_withdrawn@ == if s.risk_reduction_only {
                s.risk_reduction_mode_withdrawn@ + amount
            } else {
                s.risk_reduction_mode_withdrawn@ as int
            }
        }),
{
}

/// Closing an account is tried exactly where it is there and nothing is pending; it is then
/// closed from full settlement.
pub proof fn law_closing_is_tried(s: EngineState, idx: int, now: u64, oracle: u64)
    ensures
        ({
            let (t, r) = s.close_account(idx, now, oracle);
            let calm = s.pending_profit_to_fund@ == 0 && s.pending_unpaid_loss@ == 0;
            let (s1, r1) = s.at_slot(now).touch_account_full(idx, now, oracle);
            &&& !s.is_used(idx) ==> r == Err::<u128, RiskError>(RiskError::AccountNotFound)
            &&& s.is_used(idx) && !calm ==> r == Err::<u128, RiskError>(RiskError::Unauthorized)
            &&& !s.is_used(idx) || !calm ==> t == (EngineState { current_slot: now, ..s })
            &&& s.is_used(idx) && calm && r1 is Ok ==> (t, r) == s1.close_settled(idx)
            &&& s.is_used(idx) && calm && r1 is Err ==> t == s1 && r is Err && r->Err_0
                == r1->Err_0
        }),
{
}

/// Why a settled account is not closed: for a position or a loss; for fees that it owes, or
/// capital that the vault has not; for profit that is not yet capital.
pub proof fn law_closing_refusals(s: EngineState, idx: int)
    ensures
        ({
            let a = s.accounts[idx];
            let r = s.close_settled(idx).1;
            &&& r == Err::<u128, RiskError>(RiskError::Undercollateralized) <==> a.position_size@
                != 0 || (a.fee_credits@ >= 0 && a.pnl@ < 0)
            &&& r == Err::<u128, RiskError>(RiskError::InsufficientBalance) <==> a.position_size@
                == 0 && (a.fee_credits@ < 0 || (a.pnl@ == 0 && a.capital@ > s.vault@))
            &&& r == Err::<u128, RiskError>(RiskError::PnlNotWarmedUp) <==> a.position_size@ == 0
                && a.fee_credits@ >= 0 && a.pnl@ > 0
        }),
{
}

/// Why no account is opened: as many are open as may be, or there is no slot; or the payment is
/// less than the fee. Accounts are numbered in the order in which they are opened.
pub proof fn law_opening_refusals(
    s: EngineState,
    kind: AccountKind,
    program: [u8; 32],
    context: [u8; 32],
    payment: u128,
)
    requires
        s.wf(),
    ensures
        ({
            let (t, r) = s.add_account(kind, program, context, payment);
            let full = s.num_used_accounts >= s.params.max_accounts;
            let short = payment < s.params.new_account_fee@;
            &&& r == Err::<u16, RiskError>(RiskError::Overflow) <==> full || (!short
                && s.free_head == u16::MAX)
            &&& r == Err::<u16, RiskError>(RiskError::InsufficientBalance) <==> !full && short
            &&& full || short ==> t == s
            &&& r is Ok && s.next_account_id < u64::MAX ==> t.next_account_id == s.next_account_id
                + 1
            &&& r is Ok ==> t.num_used_accounts == s.num_used_accounts + 1
        }),
{
    if s.free_head != u16::MAX {
        lemma_alloc(s);
    }
}

/// Settling funding or the mark of a slot that is free is refused; a price that is none or out
/// of bounds is not looked at there, and nothing changes.
pub proof fn law_free_slot_is_not_settled(s: EngineState, idx: int, now: u64, oracle: u64)
    requires
        !s.is_used(idx),
    ensures
        s.touch_account(idx) == (s, Err::<(), RiskError>(RiskError::AccountNotFound)),
        s.settle_mark_to_oracle(idx, oracle) == (
            s,
            Err::<(), RiskError>(RiskError::AccountNotFound),
        ),
        s.settle_mark_to_oracle_best_effort(idx, oracle) == (
            s,
            Err::<(), RiskError>(RiskError::AccountNotFound),
        ),
        s.touch_account_full(idx, now, oracle).0 == s,
        s.touch_account_full(idx, now, oracle).1 is Err,
        s.settle_maintenance_fee(idx, now, oracle).0 == s,
        s.settle_maintenance_fee(idx, now, oracle).1 is Err,
        s.update_warmup_slope(idx).1 is Err,
        s.settle_warmup_to_capital(idx).1 is Err,
        s.deposit_fee_credits(idx, 0, now).1 is Err,
{
}

/// Settling funding or the mark of an account that is there is refused for numbers out of range
/// only, and changes nothing then.
pub proof fn law_settlement_refusals(s: EngineState, idx: int, oracle: u64)
    requires
        s.is_used(idx),
    ensures
        s.touch_account(idx).1 is Err ==> s.touch_account(idx) == (
            s,
            Err::<(), RiskError>(RiskError::Overflow),
        ),
        s.settle_mark_to_oracle(idx, oracle).1 is Err ==> s.settle_mark_to_oracle(idx, oracle)
            == (s, Err::<(), RiskError>(RiskError::Overflow)),
{
}

/// A liquidation of an account that is there is refused at a price that is none or beyond a
/// billion, and touches no account then.
pub proof fn law_liquidation_refusals(s: EngineState, idx: int, now: u64, oracle: u64)
    requires
        s.is_used(idx),
        !sound_price(oracle),
    ensures
        s.liquidate_at_oracle(idx, now, oracle) == (
            EngineState { current_slot: now, ..s },
            Err::<bool, RiskError>(RiskError::Overflow),
        ),
{
}

/// A fill leaves neither party with a position beyond the largest: it is refused as out of
/// range, and changes nothing. One that it refuses within range it refuses for want of
/// collateral.
pub proof fn law_fill_refusals(
    s: EngineState,
    lp: int,
    user: int,
    oracle: u64,
    x: TradeExecution,
)
    ensures
        ({
            let (t, r) = s.fill_settled(lp, user, oracle, x);
            let most = 100_000_000_000_000_000_000int;
            let within = magnitude(s.accounts[user].position_size@ + x.size) <= most && magnitude(
                s.accounts[lp].position_size@ - x.size,
            ) <= most;
            &&& !within ==> r == Err::<(), RiskError>(RiskError::Overflow)
            &&& r is Ok ==> within
            &&& r is Err ==> t == s
            &&& r is Err ==> r == Err::<(), RiskError>(RiskError::Overflow) || r == Err::<
                (),
                RiskError,
            >(RiskError::Undercollateralized)
        }),
{
}

} // verus!
