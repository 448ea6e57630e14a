//! What holds of funding payments taken together.
use vstd::prelude::*;

use crate::conservation_laws::lemma_settled_account;
use crate::funding::funding_payment;
use crate::haircut::{sum, sum_to};
use crate::rounding::rounded_to_zero;
use crate::state::EngineState;
use crate::types::{Account, RiskError, MAX_ACCOUNTS, MAX_ROUNDING_SLACK};

verus! {

broadcast use crate::wide::group_wide;

/// An accrual moves the index by price times rate, in basis points, for every slot since the
/// last one, rounded toward zero; and by nothing where no slot has passed. Nothing else moves
/// but the slot of the last accrual.
pub proof fn law_accrual_covers_every_slot(s: EngineState, now: u64, price: u64, rate: i64)
    requires
        s.accrue_funding(now, price, rate).1 is Ok,
    ensures
        ({
            let t = s.accrue_funding(now, price, rate).0;
            let moved = t.funding_index_qpb_e6@ - s.funding_index_qpb_e6@;
            &&& now > s.last_funding_slot ==> rounded_to_zero(
                moved,
                price * rate * (now - s.last_funding_slot),
                10_000,
            ) && t.last_funding_slot == now
            &&& now <= s.last_funding_slot ==> moved == 0 && t.last_funding_slot
                == s.last_funding_slot
            &&& t == (EngineState {
                funding_index_qpb_e6: t.funding_index_qpb_e6,
                last_funding_slot: t.last_funding_slot,
                ..s
            })
        }),
{
}

/// An accrual is refused exactly where slots have passed and the price is none or beyond a
/// billion, the rate beyond all of the price per slot, the slots more than a year's worth, or
/// the index out of range. A refused accrual changes nothing.
pub proof fn law_accrual_is_refused_beyond_bounds(
    s: EngineState,
    now: u64,
    price: u64,
    rate: i64,
    moved: int,
)
    requires
        rounded_to_zero(moved, price * rate * (now - s.last_funding_slot), 10_000),
    ensures
        ({
            let (t, r) = s.accrue_funding(now, price, rate);
            let index = s.funding_index_qpb_e6@ + moved;
            &&& r is Err <==> now > s.last_funding_slot && (price == 0 || price
                > 1_000_000_000_000_000 || rate > 10_000 || rate < -10_000 || now
                - s.last_funding_slot > 31_536_000 || index > i128::MAX || index < i128::MIN)
            &&& r is Err ==> t == s && r == Err::<(), RiskError>(RiskError::Overflow)
        }),
{
}

/// Accruing to a slot in between and on to the end moves the index as far as accruing to the
/// end at once, but for one unit of rounding.
pub proof fn law_accruals_add_up(s: EngineState, middle: u64, end: u64, price: u64, rate: i64)
    requires
        s.last_funding_slot <= middle <= end,
        s.accrue_funding(middle, price, rate).1 is Ok,
        s.accrue_funding(middle, price, rate).0.accrue_funding(end, price, rate).1 is Ok,
        s.accrue_funding(end, price, rate).1 is Ok,
    ensures
        ({
            let twice = s.accrue_funding(middle, price, rate).0.accrue_funding(
                end,
                price,
                rate,
            ).0.funding_index_qpb_e6@;
            let once = s.accrue_funding(end, price, rate).0.funding_index_qpb_e6@;
            -1 <= twice - once <= 1
        }),
{
    let x = price * rate;
    let m = middle - s.last_funding_slot;
    let n = end - middle;
    assert(x * (m + n) == x * m + x * n && x * 0 == 0) by (nonlinear_arith);
    assert((x >= 0 ==> x * m >= 0 && x * n >= 0) && (x <= 0 ==> x * m <= 0 && x * n <= 0))
        by (nonlinear_arith)
        requires
            m >= 0,
            n >= 0,
    ;
    law_accrual_covers_every_slot(s, middle, price, rate);
    law_accrual_covers_every_slot(s, end, price, rate);
    let t = s.accrue_funding(middle, price, rate).0;
    law_accrual_covers_every_slot(t, end, price, rate);
}

/// Settling an account takes its position times the move of the index since it was settled
/// last, in millionths, off its profit: a long pays while the index rises, a short while it
/// falls. It is rounded against the account, by less than a unit. Nothing else changes.
pub proof fn law_settlement_takes_funding(s: EngineState, idx: int)
    requires
        s.wf(),
        s.touch_account(idx).1 is Ok,
    ensures
        ({
            let a = s.accounts[idx];
            let t = s.touch_account(idx).0;
            let b = t.accounts[idx];
            let exact = a.position_size@ * (s.funding_index_qpb_e6@ - a.funding_index@);
            &&& s.is_used(idx)
            &&& exact <= (a.pnl@ - b.pnl@) * 1_000_000 < exact + 1_000_000
            &&& b == (Account { pnl: b.pnl, funding_index: s.funding_index_qpb_e6, ..a })
            &&& t == (EngineState { accounts: s.accounts.update(idx, b), ..s })
        }),
{
}

/// Funding of a used account is settled wherever position and index are within what trades and
/// a hundred years of accruals make of them, and the profit is within half its range.
pub proof fn law_funding_settlement_succeeds(s: EngineState, idx: int)
    requires
        s.is_used(idx),
        -100_000_000_000_000_000_000 <= s.accounts[idx].position_size@
            <= 100_000_000_000_000_000_000,
        -1_000_000_000_000_000_000 <= s.funding_index_qpb_e6@ - s.accounts[idx].funding_index@
            <= 1_000_000_000_000_000_000,
        i128::MIN / 2 <= s.accounts[idx].pnl@ <= i128::MAX / 2,
    ensures
        s.touch_account(idx).1 is Ok,
{
    let p = s.accounts[idx].position_size@ as int;
    let d = s.funding_index_qpb_e6@ - s.accounts[idx].funding_index@;
    let most = 100_000_000_000_000_000_000_000_000_000_000_000_000int;
    assert(-most <= p * d <= most) by (nonlinear_arith)
        requires
            -100_000_000_000_000_000_000 <= p <= 100_000_000_000_000_000_000,
            -1_000_000_000_000_000_000 <= d <= 1_000_000_000_000_000_000,
            most == 100_000_000_000_000_000_000_000_000_000_000_000_000int,
    ;
}

/// A payment is the exact amount rounded up: who pays never pays less, and who receives never
/// receives more.
pub proof fn law_funding_rounds_up(pos: int, delta: int)
    ensures
        pos * delta <= funding_payment(pos, delta) * 1_000_000 < pos * delta + 1_000_000,
{
}

/// An account that is settled owes nothing until the index moves.
pub proof fn law_settled_account_owes_nothing(a: Account, index: i128, b: Account)
    requires
        a.funding_settled(index as int) == Some(b),
    ensures
        b.funding_due(index as int) == 0,
        b.funding_settled(index as int) == Some(b),
{
    lemma_settled_account(b, index as int, 0);
    assert(b.position_size@ * 0 == 0) by (nonlinear_arith);
}

impl EngineState {
    /// The positions held, slot by slot.
    pub open spec fn positions(self) -> Seq<int> {
        Seq::new(
            MAX_ACCOUNTS as nat,
            |i: int|
                if self.used[i] {
                    self.accounts[i].position_size@ as int
                } else {
                    0
                },
        )
    }

    /// Every account is settled against the global index.
    pub open spec fn funding_is_settled(self) -> bool {
        forall|i: int|
            0 <= i < MAX_ACCOUNTS && self.used[i] ==> (#[trigger] self.accounts[i]).funding_index
                == self.funding_index_qpb_e6
    }
}

proof fn lemma_funding_sum(s: EngineState, t: EngineState, delta: int, oracle: u64, n: int)
    requires
        0 <= n <= MAX_ACCOUNTS,
        s.funding_is_settled(),
        t.used == s.used,
        t.accounts == s.accounts,
        t.funding_index_qpb_e6@ == s.funding_index_qpb_e6@ + delta,
    ensures
        sum_to(s.positions(), n) * delta <= (sum_to(s.worths(oracle), n) - sum_to(
            t.worths(oracle),
            n,
        )) * 1_000_000 <= sum_to(s.positions(), n) * delta + n * 1_000_000,
    decreases n,
{
    if n > 0 {
        lemma_funding_sum(s, t, delta, oracle, n - 1);
        let i = n - 1;
        let p = sum_to(s.positions(), i);
        let q = s.positions()[i];
        assert((p + q) * delta == p * delta + q * delta) by (nonlinear_arith);
        if s.used[i] {
            let a = s.accounts[i];
            assert(a.funding_index == s.funding_index_qpb_e6);
            lemma_settled_account(a, s.funding_index_qpb_e6@ as int, oracle);
            law_funding_rounds_up(a.position_size@ as int, delta);
        } else {
            assert(0 * delta == 0) by (nonlinear_arith);
        }
    } else {
        assert(0 * delta == 0) by (nonlinear_arith);
    }
}

/// Funding between positions that cancel out never costs the vault anything, and rounding
/// leaves it at most one unit for each slot, which the conservation check allows.
pub proof fn law_funding_favours_vault(
    s: EngineState,
    now: u64,
    price: u64,
    rate: i64,
    oracle: u64,
)
    requires
        s.wf(),
        s.funding_is_settled(),
        sum(s.positions()) == 0,
    ensures
        s.surplus(oracle) <= s.accrue_funding(now, price, rate).0.surplus(oracle)
            <= s.surplus(oracle) + MAX_ROUNDING_SLACK,
{
    let t = s.accrue_funding(now, price, rate).0;
    let delta = t.funding_index_qpb_e6@ - s.funding_index_qpb_e6@;
    lemma_funding_sum(s, t, delta, oracle, MAX_ACCOUNTS as int);
    assert(0 * delta == 0) by (nonlinear_arith);
}

/// Settling the funding of all leaves no used account behind: each has paid, rounded up, for
/// its position what the index moved since it was last settled, and has the index as its own.
pub proof fn law_funding_of_all_is_settled(s: EngineState, k: int)
    requires
        s.wf(),
        s.is_used(k),
        s.settle_funding_from(0).1 is Ok,
    ensures
        ({
            let a = s.accounts[k];
            let b = s.settle_funding_from(0).0.accounts[k];
            let exact = a.position_size@ * (s.funding_index_qpb_e6@ - a.funding_index@);
            &&& b.funding_index == s.funding_index_qpb_e6
            &&& exact <= (a.pnl@ - b.pnl@) * 1_000_000 < exact + 1_000_000
            &&& b == (Account { pnl: b.pnl, funding_index: b.funding_index, ..a })
        }),
{
    lemma_funding_from(s, 0, k);
}

proof fn lemma_funding_from(s: EngineState, i: int, k: int)
    requires
        s.wf(),
        s.is_used(k),
        0 <= i <= MAX_ACCOUNTS,
        s.settle_funding_from(i).1 is Ok,
    ensures
        ({
            let a = s.accounts[k];
            let b = s.settle_funding_from(i).0.accounts[k];
            let exact = a.position_size@ * (s.funding_index_qpb_e6@ - a.funding_index@);
            &&& k < i ==> b == a
            &&& k >= i ==> {
                &&& b.funding_index == s.funding_index_qpb_e6
                &&& exact <= (a.pnl@ - b.pnl@) * 1_000_000 < exact + 1_000_000
                &&& b == (Account { pnl: b.pnl, funding_index: b.funding_index, ..a })
            }
        }),
    decreases MAX_ACCOUNTS - i,
{
    if i < MAX_ACCOUNTS {
        if !s.is_used(i) {
            lemma_funding_from(s, i + 1, k);
        } else {
            law_settlement_takes_funding(s, i);
            let t = s.touch_account(i).0;
            assert(i != k ==> t.accounts[k] == s.accounts[k]);
            lemma_funding_from(t, i + 1, k);
        }
    }
}

} // verus!
