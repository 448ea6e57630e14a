//! What opening, settling, funding and closing an account does to its balances and to those of
//! the engine.
use vstd::prelude::*;

use crate::funding_laws::law_settlement_takes_funding;
use crate::isolation_laws::{
    lemma_fees_frame, lemma_funding_frame, lemma_mark_frame, lemma_warmup_frame,
};
use crate::liquidation_laws::{covers, gain, in_bounds, law_margin_is_a_part_of_value, part_of_value};
use crate::margin_laws::law_bounds_keep_mark_in_range;
use crate::rounding::magnitude;
use crate::slots::lemma_alloc;
use crate::state::EngineState;
use crate::trade_laws::lemma_warmup_moves_into_capital;
use crate::types::{zero_key, Account, AccountKind, RiskError, RiskParams, MAX_ACCOUNTS};

verus! {

broadcast use crate::wide::group_wide;

/// The insurance fund can take in what an account can pay.
pub open spec fn fund_has_room(s: EngineState) -> bool {
    s.insurance_fund.balance@ <= i128::MAX && s.insurance_fund.fee_revenue@ <= i128::MAX
}

/// Fees of account `idx` for the slots from its last charge to `now` are in range.
pub open spec fn fees_in_range(s: EngineState, idx: int, now: u64) -> bool {
    let a = s.accounts[idx];
    &&& now > a.last_fee_slot ==> s.params.maintenance_fee_per_slot@ * (now - a.last_fee_slot)
        <= i128::MAX / 4
    &&& i128::MIN / 4 <= a.fee_credits@ <= i128::MAX / 4
    &&& a.capital@ <= i128::MAX / 4
}

/// The fees that fall due for every slot since the last charge.
pub open spec fn due(s: EngineState, idx: int, now: u64) -> int {
    let a = s.accounts[idx];
    if now > a.last_fee_slot {
        s.params.maintenance_fee_per_slot@ * (now - a.last_fee_slot)
    } else {
        0
    }
}

proof fn lemma_due_nonneg(s: EngineState, idx: int, now: u64)
    ensures
        due(s, idx, now) >= 0,
{
    let a = s.accounts[idx];
    let f = s.params.maintenance_fee_per_slot@ as int;
    if now > a.last_fee_slot {
        let dt = now - a.last_fee_slot;
        assert(f * dt >= 0) by (nonlinear_arith)
            requires
                f >= 0,
                dt >= 0,
        ;
    }
}

/// An account is charged its fee for every slot since the last charge. Credits pay first; what
/// they do not pay, capital pays into the insurance fund, and what capital cannot pay stays
/// owed. Within a slot nothing is charged.
pub proof fn law_every_slot_is_charged(s: EngineState, idx: int, now: u64)
    requires
        s.wf(),
        s.is_used(idx),
        fees_in_range(s, idx, now),
        fund_has_room(s),
    ensures
        ({
            let a = s.accounts[idx];
            let t = s.with_fees_charged(idx, now);
            let b = t.accounts[idx];
            let owed = due(s, idx, now) - a.fee_credits@;
            let paid = a.capital@ - b.capital@;
            &&& b.fee_credits@ == a.fee_credits@ - due(s, idx, now) + paid
            &&& now > a.last_fee_slot ==> b.last_fee_slot == now
            &&& now <= a.last_fee_slot ==> b == a && paid == 0
            &&& now > a.last_fee_slot && owed <= 0 ==> paid == 0
            &&& now > a.last_fee_slot && 0 < owed <= a.capital@ ==> paid == owed
            &&& now > a.last_fee_slot && owed > a.capital@ ==> b.capital@ == 0
            &&& t.insurance_fund.balance@ == s.insurance_fund.balance@ + paid
            &&& t.insurance_fund.fee_revenue@ == s.insurance_fund.fee_revenue@ + paid
            &&& b == (Account {
                capital: b.capital,
                fee_credits: b.fee_credits,
                last_fee_slot: b.last_fee_slot,
                ..a
            })
            &&& t.vault == s.vault
        }),
{
    lemma_due_nonneg(s, idx, now);
}

/// Settling fees tells what fell due. It fails exactly where there is no account, or where
/// slots have passed and the account has a position whose maintenance margin it does not cover
/// with the fees charged.
pub proof fn law_fee_settlement_tells_what_fell_due(
    s: EngineState,
    idx: int,
    now: u64,
    oracle: u64,
)
    requires
        s.wf(),
        s.is_used(idx),
        fees_in_range(s, idx, now),
        fund_has_room(s),
        s.params.maintenance_margin_bps <= 1_000_000_000,
        in_bounds(s.with_fees_charged(idx, now).accounts[idx], oracle as int),
    ensures
        ({
            let (t, r) = s.settle_maintenance_fee(idx, now, oracle);
            let b = t.accounts[idx];
            &&& r is Ok ==> r == Ok::<u128, RiskError>(due(s, idx, now) as u128)
            &&& r is Err <==> now > s.accounts[idx].last_fee_slot && b.position_size@ != 0
                && !covers(b, oracle as int, s.params.maintenance_margin_bps as int)
            &&& r is Err ==> r == Err::<u128, RiskError>(RiskError::Undercollateralized)
        }),
{
    lemma_due_nonneg(s, idx, now);
    let t = s.with_fees_charged(idx, now);
    law_margin_is_a_part_of_value(
        t.accounts[idx],
        oracle as int,
        s.params.maintenance_margin_bps as int,
    );
    let f = s.params.maintenance_fee_per_slot@ as int;
    assert(f * 0 == 0) by (nonlinear_arith);
}

/// Prepaid credits count as fee revenue when they are bought: vault, insurance fund and the
/// credits of the account rise by the amount.
pub proof fn law_credits_are_paid_in_advance(s: EngineState, idx: int, amount: u128, now: u64)
    requires
        s.wf(),
        s.vault@ + amount <= u128::MAX,
        s.insurance_fund.balance@ + amount <= u128::MAX,
        s.insurance_fund.fee_revenue@ + amount <= u128::MAX,
        s.is_used(idx) ==> s.accounts[idx].fee_credits@ + amount <= i128::MAX && amount
            <= i128::MAX,
    ensures
        ({
            let (t, r) = s.deposit_fee_credits(idx, amount, now);
            &&& r is Ok <==> s.is_used(idx)
            &&& r is Err ==> t == s && r == Err::<(), RiskError>(RiskError::Unauthorized)
            &&& r is Ok ==> {
                let a = s.accounts[idx];
                let b = t.accounts[idx];
                &&& t.vault@ == s.vault@ + amount
                &&& t.insurance_fund.balance@ == s.insurance_fund.balance@ + amount
                &&& t.insurance_fund.fee_revenue@ == s.insurance_fund.fee_revenue@ + amount
                &&& b.fee_credits@ == a.fee_credits@ + amount
                &&& b == (Account { fee_credits: b.fee_credits, ..a })
                &&& t.current_slot == now
            }
        }),
{
}

/// Fees charged without a margin check are never refused for an account that is there, and what
/// capital paid of them is told.
pub proof fn law_unchecked_charge_tells_what_was_paid(s: EngineState, idx: int, now: u64)
    requires
        s.wf(),
        fees_in_range(s, idx, now),
        fund_has_room(s),
    ensures
        ({
            let (t, r) = s.settle_maintenance_fee_best_effort(idx, now);
            &&& !s.is_used(idx) ==> t == s && r == Err::<u128, RiskError>(RiskError::Unauthorized)
            &&& s.is_used(idx) ==> t == s.with_fees_charged(idx, now) && r == Ok::<
                u128,
                RiskError,
            >((s.accounts[idx].capital@ - t.accounts[idx].capital@) as u128)
        }),
{
    if s.is_used(idx) {
        law_every_slot_is_charged(s, idx, now);
    }
}

/// Credits given to an account add to those that it has.
pub proof fn law_credits_add_up(a: Account, amount: int)
    requires
        0 <= amount <= i128::MAX,
        a.fee_credits@ + amount <= i128::MAX,
    ensures
        a.credited(amount).fee_credits@ == a.fee_credits@ + amount,
        a.credited(amount) == (Account { fee_credits: a.credited(amount).fee_credits, ..a }),
{
}

/// Opening an account is refused exactly where as many accounts are open as the parameters
/// allow or there are slots, or where the payment is less than the fee. The insurance fund has
/// the fee; the account has the rest as capital, and nothing else.
pub proof fn law_opening_takes_the_fee(
    s: EngineState,
    kind: AccountKind,
    program: [u8; 32],
    context: [u8; 32],
    payment: u128,
)
    requires
        s.wf(),
        s.vault@ + payment <= u128::MAX,
        s.insurance_fund.balance@ + payment <= u128::MAX,
        s.insurance_fund.fee_revenue@ + payment <= u128::MAX,
    ensures
        ({
            let (t, r) = s.add_account(kind, program, context, payment);
            let fee = s.params.new_account_fee@;
            &&& r is Ok <==> s.num_used_accounts < s.params.max_accounts && payment >= fee
                && s.free_head != u16::MAX
            &&& r == Err::<u16, RiskError>(RiskError::InsufficientBalance) <==> s.num_used_accounts
                < s.params.max_accounts && payment < fee
            &&& r matches Ok(idx) ==> {
                let b = t.accounts[idx as int];
                &&& idx < MAX_ACCOUNTS
                &&& !s.used[idx as int]
                &&& t.used == s.used.update(idx as int, true)
                &&& b.kind == kind
                &&& b.matcher_program == program
                &&& b.matcher_context == context
                &&& b.account_id == s.next_account_id
                &&& b.capital@ == payment - fee
                &&& b.pnl@ == 0
                &&& b.position_size@ == 0
                &&& b.reserved_pnl == 0
                &&& b.fee_credits@ == 0
                &&& b.entry_price == 0
                &&& b.warmup_slope_per_step@ == 0
                &&& b.owner == zero_key()
                &&& b.last_fee_slot == s.current_slot
                &&& b.warmup_started_at_slot == s.current_slot
                &&& b.funding_index == s.funding_index_qpb_e6
                &&& t.vault@ == s.vault@ + payment
                &&& t.insurance_fund.balance@ == s.insurance_fund.balance@ + fee
                &&& t.insurance_fund.fee_revenue@ == s.insurance_fund.fee_revenue@ + fee
                &&& forall|j: int|
                    0 <= j < MAX_ACCOUNTS && j != idx ==> #[trigger] t.accounts[j]
                        == s.accounts[j]
            }
        }),
{
    if s.free_head != u16::MAX {
        lemma_alloc(s);
    }
}

/// A deposit goes to the vault in full. It pays the fees that have fallen due before anything
/// else; then a loss is paid, and the rest is capital. Fees stay owed, and a loss unpaid, only
/// where no capital is left. What the account has, its fees included, rises by the amount.
pub proof fn law_deposit_pays_fees_first(s: EngineState, idx: int, amount: u128, now: u64)
    requires
        s.wf(),
        s.is_used(idx),
        fees_in_range(s, idx, now),
        s.insurance_fund.balance@ <= i128::MAX / 2,
        s.insurance_fund.fee_revenue@ <= i128::MAX / 2,
        amount <= i128::MAX / 4,
        s.vault@ + amount <= u128::MAX,
        i128::MIN / 4 <= s.accounts[idx].pnl@ <= i128::MAX / 4,
        s.deposit(idx, amount, now).1 is Ok,
    ensures
        ({
            let a = s.accounts[idx];
            let t = s.deposit(idx, amount, now).0;
            let b = t.accounts[idx];
            let paid = t.insurance_fund.fee_revenue@ - s.insurance_fund.fee_revenue@;
            &&& t.vault@ == s.vault@ + amount
            &&& paid >= 0
            &&& t.insurance_fund.balance@ == s.insurance_fund.balance@ + paid
            &&& b.fee_credits@ == a.fee_credits@ - due(s, idx, now) + paid
            &&& b.capital@ + b.pnl@ + paid == a.capital@ + a.pnl@ + amount
            &&& a.fee_credits@ - due(s, idx, now) >= 0 ==> paid == 0
            &&& 0 < due(s, idx, now) - a.fee_credits@ <= amount ==> paid == due(s, idx, now)
                - a.fee_credits@
            &&& due(s, idx, now) - a.fee_credits@ > amount ==> paid >= amount
            &&& b.fee_credits@ < 0 ==> b.capital@ == 0
            &&& b.fee_credits@ <= 0 || paid == 0
            &&& b.pnl@ < 0 ==> b.capital@ == 0
            &&& b.position_size == a.position_size
            &&& t.current_slot == now
        }),
{
    lemma_due_nonneg(s, idx, now);
    let s0 = s.at_slot(now);
    let s1 = s0.with_deposit(idx, amount, now);
    lemma_warmup_moves_into_capital(s1, idx);
    let s2 = s1.settle_warmup_to_capital(idx).0;
    lemma_loss_paid_first(s1, idx);
}

proof fn lemma_loss_paid_first(s: EngineState, idx: int)
    requires
        s.wf(),
        s.is_used(idx),
        s.accounts[idx].capital@ <= i128::MAX / 2,
        i128::MIN / 2 <= s.accounts[idx].pnl@ <= i128::MAX / 2,
    ensures
        ({
            let b = s.settle_warmup_to_capital(idx).0.accounts[idx];
            b.pnl@ < 0 ==> b.capital@ == 0
        }),
{
    crate::warmup_laws::law_losses_are_paid_at_once(s, idx);
}

/// A deposit into an account that is there succeeds, unless matured profit waits on what is
/// pending; into any other slot it fails, and nothing changes but the slot.
pub proof fn law_deposit_is_accepted(s: EngineState, idx: int, amount: u128, now: u64)
    requires
        s.wf(),
    ensures
        s.is_used(idx) && s.pending_profit_to_fund@ == 0 && s.pending_unpaid_loss@ == 0
            ==> s.deposit(idx, amount, now).1 is Ok,
        !s.is_used(idx) ==> s.deposit(idx, amount, now).1 == Err::<(), RiskError>(
            RiskError::AccountNotFound,
        ),
        !s.is_used(idx) ==> s.deposit(idx, amount, now).0 == (EngineState {
            current_slot: now,
            ..s
        }),
{
}

/// Settling the mark adds what the position has gained to the profit, and makes the oracle
/// price its entry.
pub proof fn law_mark_settlement_realizes_gain(s: EngineState, idx: int, oracle: u64)
    requires
        s.wf(),
        s.is_used(idx),
        in_bounds(s.accounts[idx], oracle as int),
    ensures
        ({
            let a = s.accounts[idx];
            let t = s.settle_mark_to_oracle(idx, oracle).0;
            let b = t.accounts[idx];
            &&& s.settle_mark_to_oracle(idx, oracle).1 is Ok
            &&& b.pnl@ == a.pnl@ + gain(a, oracle as int)
            &&& b.entry_price == oracle
            &&& b == (Account { pnl: b.pnl, entry_price: b.entry_price, ..a })
            &&& t == (EngineState { accounts: s.accounts.update(idx, b), ..s })
            &&& s.settle_mark_to_oracle_best_effort(idx, oracle) == s.settle_mark_to_oracle(
                idx,
                oracle,
            )
            &&& gain(b, oracle as int) == 0
        }),
{
    let a = s.accounts[idx];
    let pos = a.position_size@ as int;
    law_bounds_keep_mark_in_range(pos, a.entry_price as int, oracle as int);
    let d = oracle - a.entry_price;
    let most = 100_000_000_000_000_000_000_000_000_000_000_000int;
    assert(-most <= d * pos <= most) by (nonlinear_arith)
        requires
            -100_000_000_000_000_000_000 <= pos <= 100_000_000_000_000_000_000,
            -1_000_000_000_000_000 <= d <= 1_000_000_000_000_000,
            most == 100_000_000_000_000_000_000_000_000_000_000_000int,
    ;
    assert(0 * pos == 0) by (nonlinear_arith);
}

/// A withdrawal from a settled account is paid exactly where the account has the capital and,
/// if it has a position, what is left carries its initial margin and covers its maintenance
/// margin. The vault pays it, and capital falls by it.
pub proof fn law_settled_withdrawal(s: EngineState, idx: int, amount: u128, oracle: u64)
    requires
        s.wf(),
        s.is_used(idx),
        in_bounds(s.accounts[idx], oracle as int),
        s.params.initial_margin_bps <= 1_000_000_000,
        s.params.maintenance_margin_bps <= 1_000_000_000,
        amount <= s.vault@,
    ensures
        ({
            let a = s.accounts[idx];
            let (t, r) = s.withdraw_settled(idx, amount, oracle);
            let b = t.accounts[idx];
            let left = a.capital@ - amount + a.pnl@ + gain(a, oracle as int);
            let size = magnitude(a.position_size@ as int);
            let initial = part_of_value(
                size,
                oracle as int,
                s.params.initial_margin_bps as int,
            );
            let maintenance = part_of_value(
                size,
                oracle as int,
                s.params.maintenance_margin_bps as int,
            );
            &&& r is Ok <==> amount <= a.capital@ && (size == 0 || ((left >= initial || initial
                == 0) && left > maintenance))
            &&& r == Err::<(), RiskError>(RiskError::InsufficientBalance) <==> amount > a.capital@
            &&& r is Err && amount <= a.capital@ ==> r == Err::<(), RiskError>(
                RiskError::Undercollateralized,
            )
            &&& r is Ok ==> b.capital@ == a.capital@ - amount && t.vault@ == s.vault@ - amount
                && b == (Account { capital: b.capital, ..a })
            &&& r is Err ==> t.accounts[idx] == a && t.vault == s.vault
        }),
{
    let a = s.accounts[idx];
    if amount <= a.capital@ {
        let b = EngineState::capital_reduced(a, amount as int);
        law_margin_is_a_part_of_value(b, oracle as int, s.params.initial_margin_bps as int);
        law_margin_is_a_part_of_value(b, oracle as int, s.params.maintenance_margin_bps as int);
        assert(s.accounts.update(idx, a) =~= s.accounts);
    }
}

/// A withdrawal is tried exactly where the price is within bounds, a crank and the start of a
/// sweep are recent, nothing is pending and the account is there; it is then paid from the
/// account settled in full.
pub proof fn law_withdrawal_is_tried(
    s: EngineState,
    idx: int,
    amount: u128,
    now: u64,
    oracle: u64,
)
    requires
        s.wf(),
    ensures
        ({
            let tried = 0 < oracle <= 1_000_000_000_000_000 && now <= s.last_crank_slot
                + s.max_crank_staleness_slots && now <= s.last_full_sweep_start_slot
                + s.max_crank_staleness_slots && s.pending_profit_to_fund@ == 0
                && s.pending_unpaid_loss@ == 0 && s.is_used(idx);
            let (s1, r1) = s.at_slot(now).touch_account_full(idx, now, oracle);
            let (t, r) = s.withdraw(idx, amount, now, oracle);
            &&& r is Ok ==> tried && r1 is Ok
            &&& tried && r1 is Ok ==> (t, r) == s1.withdraw_settled(idx, amount, oracle)
            &&& !tried ==> t == (EngineState { current_slot: now, ..s })
        }),
{
}

/// A settled account is closed exactly where it has no position, owes no fees, has neither
/// profit nor loss, and the vault has its capital, which it is paid.
pub proof fn law_settled_closing(s: EngineState, idx: int)
    requires
        s.wf(),
        s.is_used(idx),
    ensures
        ({
            let a = s.accounts[idx];
            let (t, r) = s.close_settled(idx);
            &&& r is Ok <==> a.position_size@ == 0 && a.fee_credits@ >= 0 && a.pnl@ == 0
                && a.capital@ <= s.vault@
            &&& r is Ok ==> r == Ok::<u128, RiskError>(a.capital@) && t.vault@ == s.vault@
                - a.capital@ && !t.used[idx] && forall|j: int|
                0 <= j < MAX_ACCOUNTS && j != idx ==> #[trigger] t.used[j] == s.used[j]
                    && t.accounts[j] == s.accounts[j]
            &&& r is Err ==> t == s
            &&& r == Err::<u128, RiskError>(RiskError::PnlNotWarmedUp) <==> a.position_size@ == 0
                && a.fee_credits@ >= 0 && a.pnl@ > 0
        }),
{
}

/// Settling an account in full takes funding off it, adds what its position has gained, and
/// pays its fees; profit and loss may turn into capital on the way. So capital and profit
/// together change by exactly that. Its position stays, marked at the oracle price.
pub proof fn law_full_settlement_adds_up(s: EngineState, idx: int, now: u64, oracle: u64)
    requires
        s.wf(),
        s.is_used(idx),
        in_bounds(s.accounts[idx], oracle as int),
        fees_in_range(s, idx, now),
        s.insurance_fund.balance@ <= i128::MAX / 2,
        s.insurance_fund.fee_revenue@ <= i128::MAX / 2,
        i128::MIN / 4 <= s.touch_account(idx).0.accounts[idx].pnl@ <= i128::MAX / 4,
        s.touch_account_full(idx, now, oracle).1 is Ok,
    ensures
        ({
            let a = s.accounts[idx];
            let t = s.touch_account_full(idx, now, oracle).0;
            let b = t.accounts[idx];
            let paid = t.insurance_fund.fee_revenue@ - s.insurance_fund.fee_revenue@;
            let funding = a.capital@ + a.pnl@ + gain(a, oracle as int) - paid - (b.capital@
                + b.pnl@);
            let exact = a.position_size@ * (s.funding_index_qpb_e6@ - a.funding_index@);
            &&& exact <= funding * 1_000_000 < exact + 1_000_000
            &&& 0 <= paid
            &&& b.fee_credits@ == a.fee_credits@ - due(s, idx, now) + paid
            &&& now > a.last_fee_slot && 0 < due(s, idx, now) - a.fee_credits@ <= a.capital@
                ==> paid == due(s, idx, now) - a.fee_credits@
            &&& now > a.last_fee_slot && due(s, idx, now) - a.fee_credits@ > a.capital@ ==> paid
                >= a.capital@
            &&& b.fee_credits@ < 0 ==> b.capital@ == 0
            &&& b.pnl@ < 0 ==> b.capital@ == 0
            &&& b.position_size == a.position_size
            &&& b.entry_price == oracle
            &&& b.funding_index == s.funding_index_qpb_e6
            &&& t.vault == s.vault
            &&& t.insurance_fund.balance@ == s.insurance_fund.balance@ + paid
        }),
{
    lemma_due_nonneg(s, idx, now);
    law_settlement_takes_funding(s, idx);
    lemma_funding_frame(s, idx);
    let s1 = s.touch_account(idx).0;
    law_mark_settlement_realizes_gain(s1, idx, oracle);
    let s2 = s1.settle_mark_to_oracle(idx, oracle).0;
    lemma_gain_bound(s1.accounts[idx], oracle as int);
    law_every_slot_is_charged(s2, idx, now);
    let s3 = s2.with_fees_charged(idx, now);
    lemma_warmup_moves_into_capital(s3, idx);
    lemma_loss_paid_first(s3, idx);
}

pub proof fn lemma_gain_bound(a: Account, oracle: int)
    requires
        in_bounds(a, oracle),
    ensures
        -100_000_000_000_000_000_000_000_000_000 <= gain(a, oracle)
            <= 100_000_000_000_000_000_000_000_000_000,
{
    let d = oracle - a.entry_price;
    let pos = a.position_size@ as int;
    let most = 100_000_000_000_000_000_000_000_000_000_000_000int;
    assert(-most <= d * pos <= most) by (nonlinear_arith)
        requires
            -100_000_000_000_000_000_000 <= pos <= 100_000_000_000_000_000_000,
            -1_000_000_000_000_000 <= d <= 1_000_000_000_000_000,
            most == 100_000_000_000_000_000_000_000_000_000_000_000int,
    ;
}

/// Settling a flat account in full succeeds where nothing is pending and its numbers are in
/// range.
pub proof fn law_flat_account_settles(s: EngineState, idx: int, now: u64, oracle: u64)
    requires
        s.wf(),
        s.is_used(idx),
        s.accounts[idx].position_size@ == 0,
        s.pending_profit_to_fund@ == 0,
        s.pending_unpaid_loss@ == 0,
        i128::MIN / 4 <= s.accounts[idx].pnl@ <= i128::MAX / 4,
        i128::MIN <= s.funding_index_qpb_e6@ - s.accounts[idx].funding_index@ <= i128::MAX,
    ensures
        s.touch_account_full(idx, now, oracle).1 is Ok,
{
    let d = s.funding_index_qpb_e6@ - s.accounts[idx].funding_index@;
    assert(0 * d == 0) by (nonlinear_arith);
    lemma_funding_frame(s, idx);
    let s1 = s.touch_account(idx).0;
    lemma_mark_frame(s1, idx, oracle);
    let s2 = s1.settle_mark_to_oracle(idx, oracle).0;
    lemma_fees_frame(s2, idx, now, oracle);
    let s3 = s2.settle_maintenance_fee(idx, now, oracle).0;
    lemma_warmup_frame(s3, idx);
    let s4 = s3.settle_warmup_to_capital(idx).0;
    lemma_fees_frame(s4, idx, now, oracle);
}

/// Fees that are owed are paid from capital into the insurance fund, as far as it goes.
pub proof fn law_fee_debt_is_paid(s: EngineState, idx: int)
    requires
        s.wf(),
        s.is_used(idx),
        fund_has_room(s),
        s.accounts[idx].fee_credits@ > i128::MIN,
        s.accounts[idx].capital@ <= i128::MAX,
    ensures
        ({
            let a = s.accounts[idx];
            let t = s.with_fee_debt_paid(idx);
            let b = t.accounts[idx];
            let paid = a.capital@ - b.capital@;
            &&& a.fee_credits@ >= 0 ==> paid == 0
            &&& a.fee_credits@ < 0 && -a.fee_credits@ <= a.capital@ ==> paid == -a.fee_credits@
            &&& a.fee_credits@ < 0 && -a.fee_credits@ > a.capital@ ==> b.capital@ == 0
            &&& b.fee_credits@ == a.fee_credits@ + paid
            &&& b == (Account { capital: b.capital, fee_credits: b.fee_credits, ..a })
            &&& t.insurance_fund.balance@ == s.insurance_fund.balance@ + paid
            &&& t.insurance_fund.fee_revenue@ == s.insurance_fund.fee_revenue@ + paid
            &&& t.vault == s.vault
        }),
{
}

/// A new engine holds and owes nothing, has no account, blocks nothing, and starts all its
/// clocks, cursors and counts at zero; its parameters are those it was given.
pub proof fn law_new_engine_is_empty(params: RiskParams)
    ensures
        ({
            let s = EngineState::fresh(params);
            &&& s.params == params
            &&& s.max_crank_staleness_slots == params.max_crank_staleness_slots
            &&& s.vault@ == 0
            &&& s.insurance_fund.balance@ == 0
            &&& s.insurance_fund.fee_revenue@ == 0
            &&& s.loss_accum@ == 0
            &&& s.pending_profit_to_fund@ == 0
            &&& s.pending_unpaid_loss@ == 0
            &&& s.total_open_interest@ == 0
            &&& s.net_lp_pos@ == 0
            &&& s.lp_sum_abs@ == 0
            &&& s.lp_max_abs@ == 0
            &&& s.lp_max_abs_sweep@ == 0
            &&& s.warmed_pos_total@ == 0
            &&& s.warmed_neg_total@ == 0
            &&& s.warmup_insurance_reserved@ == 0
            &&& s.risk_reduction_mode_withdrawn@ == 0
            &&& !s.risk_reduction_only
            &&& !s.warmup_paused
            &&& s.funding_index_qpb_e6@ == 0
            &&& s.current_slot == 0
            &&& s.last_funding_slot == 0
            &&& s.last_crank_slot == 0
            &&& s.last_full_sweep_start_slot == 0
            &&& s.last_full_sweep_completed_slot == 0
            &&& s.crank_cursor == 0
            &&& s.sweep_start_idx == 0
            &&& s.gc_cursor == 0
            &&& s.num_used_accounts == 0
            &&& s.next_account_id == 0
            &&& s.free_head == 0
            &&& s.lifetime_liquidations == 0
            &&& s.lifetime_force_realize_closes == 0
            &&& forall|i: int| 0 <= i < MAX_ACCOUNTS ==> !#[trigger] s.used[i]
        }),
{
}

} // verus!
