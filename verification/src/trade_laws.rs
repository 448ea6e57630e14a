//! What a trade does to both parties, told by their positions, profits and capital.
use vstd::prelude::*;

use crate::isolation_laws::{
    lemma_fees_frame, lemma_funding_frame, lemma_mark_frame, lemma_warmup_frame,
};
use crate::liquidation_laws::{covers, in_bounds, law_margin_is_a_part_of_value, part_of_value};
use crate::rounding::{magnitude, rounded_to_zero};
use crate::state::EngineState;
use crate::trade::{fill_is_valid, trade_fee, trade_pnl};
use crate::types::{Account, AccountKind, RiskError, TradeExecution, MAX_ACCOUNTS};

verus! {

broadcast use crate::wide::group_wide;

/// A fill is accepted only with a price up to a billion, and either empty or in the direction
/// of the request, no larger than it, and within the largest position.
pub proof fn law_fill_fits_request(size: i128, x: TradeExecution)
    requires
        size != i128::MIN,
    ensures
        fill_is_valid(size as int, x) <==> 0 < x.price <= 1_000_000_000_000_000 && (x.size == 0
            || (magnitude(x.size as int) <= 100_000_000_000_000_000_000 && magnitude(x.size as int)
            <= magnitude(size as int) && (x.size > 0 <==> size > 0))),
{
}

/// What a fill costs and brings, in plain numbers.
proof fn lemma_fill_numbers(s: EngineState, x: TradeExecution, oracle: u64)
    requires
        0 < x.price <= 1_000_000_000_000_000,
        -100_000_000_000_000_000_000 <= x.size <= 100_000_000_000_000_000_000,
        0 < oracle <= 1_000_000_000_000_000,
        s.params.trading_fee_bps <= 1_000_000_000,
    ensures
        trade_fee(s.params, x) == part_of_value(
            magnitude(x.size as int),
            x.price as int,
            s.params.trading_fee_bps as int,
        ),
        0 <= trade_fee(s.params, x) <= 10_000_000_000_000_000_000_000_000_000_000_000,
        rounded_to_zero(trade_pnl(oracle as int, x), (oracle - x.price) * x.size, 1_000_000),
        -100_000_000_000_000_000_000_000_000_000 <= trade_pnl(oracle as int, x)
            <= 100_000_000_000_000_000_000_000_000_000,
        -100_000_000_000_000_000_000_000_000_000_000_000 <= (oracle - x.price) * x.size
            <= 100_000_000_000_000_000_000_000_000_000_000_000,
{
    let size = magnitude(x.size as int);
    let price = x.price as int;
    let bps = s.params.trading_fee_bps as int;
    let most = 100_000_000_000_000_000_000_000_000_000_000_000int;
    assert(0 <= size * price <= most) by (nonlinear_arith)
        requires
            0 <= size <= 100_000_000_000_000_000_000,
            0 <= price <= 1_000_000_000_000_000,
            most == 100_000_000_000_000_000_000_000_000_000_000_000int,
    ;
    let n = size * price / 1_000_000;
    assert(0 <= n * bps <= 100_000_000_000_000_000_000_000_000_000_000_000_000int)
        by (nonlinear_arith)
        requires
            0 <= n <= 100_000_000_000_000_000_000_000_000_000,
            0 <= bps <= 1_000_000_000,
    ;
    let d = oracle - price;
    let q = x.size as int;
    assert(-most <= d * q <= most) by (nonlinear_arith)
        requires
            -100_000_000_000_000_000_000 <= q <= 100_000_000_000_000_000_000,
            -1_000_000_000_000_000 <= d <= 1_000_000_000_000_000,
            most == 100_000_000_000_000_000_000_000_000_000_000_000int,
    ;
}

/// Both parties hold no more profit, loss, capital and position than a quarter of the range
/// and the largest position allow.
pub open spec fn pair_in_bounds(s: EngineState, lp: int, user: int, oracle: u64) -> bool {
    &&& in_bounds(s.accounts[lp], oracle as int)
    &&& in_bounds(s.accounts[user], oracle as int)
    &&& i128::MIN / 4 <= s.accounts[user].fee_credits@ <= i128::MAX / 4
    &&& s.insurance_fund.balance@ <= i128::MAX
    &&& s.insurance_fund.fee_revenue@ <= i128::MAX
    &&& s.params.trading_fee_bps <= 1_000_000_000
    &&& s.params.maintenance_margin_bps <= 1_000_000_000
}

/// What a fill between settled parties books. The user's position rises by the size filled and
/// the provider's falls by it. The user gains what the units bought are worth at the oracle
/// less what was paid for them, in millionths rounded toward zero: a buyer gains below the
/// oracle price, a seller above it; the provider gains the opposite. The user pays the fee out
/// of profit, which the insurance fund receives and the user has as credits. Capital and vault
/// are not touched, and both positions are marked at the oracle price.
pub proof fn law_fill_books_both_sides(
    s: EngineState,
    lp: int,
    user: int,
    oracle: u64,
    x: TradeExecution,
)
    requires
        s.wf(),
        s.is_used(lp),
        s.is_used(user),
        lp != user,
        0 < oracle,
        0 < x.price <= 1_000_000_000_000_000,
        -100_000_000_000_000_000_000 <= x.size <= 100_000_000_000_000_000_000,
        pair_in_bounds(s, lp, user, oracle),
        s.fill_settled(lp, user, oracle, x).1 is Ok,
    ensures
        ({
            let t = s.fill_settled(lp, user, oracle, x).0;
            let u = s.accounts[user];
            let v = t.accounts[user];
            let l = s.accounts[lp];
            let k = t.accounts[lp];
            let fee = part_of_value(
                magnitude(x.size as int),
                x.price as int,
                s.params.trading_fee_bps as int,
            );
            let gained = v.pnl@ - u.pnl@ + fee;
            &&& v.position_size@ == u.position_size@ + x.size
            &&& k.position_size@ == l.position_size@ - x.size
            &&& rounded_to_zero(gained, (oracle - x.price) * x.size, 1_000_000)
            &&& k.pnl@ == l.pnl@ - gained
            &&& v.fee_credits@ == u.fee_credits@ + fee
            &&& k.fee_credits == l.fee_credits
            &&& t.insurance_fund.balance@ == s.insurance_fund.balance@ + fee
            &&& t.insurance_fund.fee_revenue@ == s.insurance_fund.fee_revenue@ + fee
            &&& v.capital == u.capital
            &&& k.capital == l.capital
            &&& v.entry_price == oracle
            &&& k.entry_price == oracle
            &&& t.vault == s.vault
            &&& forall|j: int|
                0 <= j < MAX_ACCOUNTS && j != lp && j != user ==> #[trigger] t.accounts[j]
                    == s.accounts[j]
        }),
{
    lemma_fill_numbers(s, x, oracle);
}

/// A fill changes the open interest by what both positions grew or shrank, and the totals over
/// liquidity providers by what the provider's did; no provider's position is larger than the
/// bound on them.
pub proof fn law_fill_moves_totals(
    s: EngineState,
    lp: int,
    user: int,
    oracle: u64,
    x: TradeExecution,
)
    requires
        s.is_used(lp),
        s.is_used(user),
        lp != user,
        s.total_open_interest@ <= i128::MAX,
        s.lp_sum_abs@ <= i128::MAX,
        i128::MIN / 2 <= s.net_lp_pos@ <= i128::MAX / 2,
        magnitude(s.accounts[lp].position_size@ as int) <= 100_000_000_000_000_000_000,
        magnitude(s.accounts[user].position_size@ as int) <= 100_000_000_000_000_000_000,
        s.fill_settled(lp, user, oracle, x).1 is Ok,
        s.wf(),
    ensures
        ({
            let t = s.fill_settled(lp, user, oracle, x).0;
            let grown_user = magnitude(t.accounts[user].position_size@ as int) - magnitude(
                s.accounts[user].position_size@ as int,
            );
            let grown_lp = magnitude(t.accounts[lp].position_size@ as int) - magnitude(
                s.accounts[lp].position_size@ as int,
            );
            let size = magnitude(t.accounts[lp].position_size@ as int);
            let interest = s.total_open_interest@ + grown_user + grown_lp;
            let sum = s.lp_sum_abs@ + grown_lp;
            &&& t.total_open_interest@ == if interest > 0 {
                interest
            } else {
                0
            }
            &&& t.lp_sum_abs@ == if sum > 0 {
                sum
            } else {
                0
            }
            &&& t.net_lp_pos@ == s.net_lp_pos@ - x.size
            &&& t.lp_max_abs@ == if size > s.lp_max_abs@ {
                size
            } else {
                s.lp_max_abs@ as int
            }
            &&& t.lp_max_abs_sweep@ == if size > s.lp_max_abs_sweep@ {
                size
            } else {
                s.lp_max_abs_sweep@ as int
            }
        }),
{
}

/// A fill at the oracle price moves no profit between the parties; off it, the buyer gains
/// exactly where the price is below the oracle and the seller where it is above, as far as a
/// whole unit comes of it.
pub proof fn law_better_price_is_a_gain(
    s: EngineState,
    lp: int,
    user: int,
    oracle: u64,
    x: TradeExecution,
)
    requires
        s.wf(),
        s.is_used(lp),
        s.is_used(user),
        lp != user,
        0 < oracle,
        0 < x.price <= 1_000_000_000_000_000,
        -100_000_000_000_000_000_000 <= x.size <= 100_000_000_000_000_000_000,
        pair_in_bounds(s, lp, user, oracle),
        s.fill_settled(lp, user, oracle, x).1 is Ok,
    ensures
        ({
            let t = s.fill_settled(lp, user, oracle, x).0;
            let given = s.accounts[lp].pnl@ - t.accounts[lp].pnl@;
            &&& x.size > 0 && x.price <= oracle ==> given >= 0
            &&& x.size > 0 && x.price >= oracle ==> given <= 0
            &&& x.size < 0 && x.price >= oracle ==> given >= 0
            &&& x.size < 0 && x.price <= oracle ==> given <= 0
            &&& magnitude(given as int) * 1_000_000 <= magnitude(oracle - x.price) * magnitude(
                x.size as int,
            ) < magnitude(given as int) * 1_000_000 + 1_000_000
        }),
{
    law_fill_books_both_sides(s, lp, user, oracle, x);
    let d = oracle - x.price;
    let q = x.size as int;
    assert((d >= 0 && q >= 0 ==> d * q >= 0) && (d <= 0 && q >= 0 ==> d * q <= 0) && (d >= 0 && q
        <= 0 ==> d * q <= 0) && (d <= 0 && q <= 0 ==> d * q >= 0)) by (nonlinear_arith);
    assert(magnitude(d) * magnitude(q) == magnitude(d * q)) by (nonlinear_arith);
}

/// A fill between settled parties goes through wherever both positions stay within the largest
/// and each party is flat, or covers its maintenance margin, with what the fill brings it.
pub proof fn law_fill_goes_through_if_covered(
    s: EngineState,
    lp: int,
    user: int,
    oracle: u64,
    x: TradeExecution,
    u: Account,
    l: Account,
    gained: int,
)
    requires
        s.wf(),
        s.is_used(lp),
        s.is_used(user),
        lp != user,
        0 < oracle,
        0 < x.price <= 1_000_000_000_000_000,
        -100_000_000_000_000_000_000 <= x.size <= 100_000_000_000_000_000_000,
        pair_in_bounds(s, lp, user, oracle),
        rounded_to_zero(gained, (oracle - x.price) * x.size, 1_000_000),
        u.capital == s.accounts[user].capital,
        l.capital == s.accounts[lp].capital,
        u.entry_price == oracle,
        l.entry_price == oracle,
        u.position_size@ == s.accounts[user].position_size@ + x.size,
        l.position_size@ == s.accounts[lp].position_size@ - x.size,
        l.pnl@ == s.accounts[lp].pnl@ - gained,
        u.pnl@ == s.accounts[user].pnl@ + gained - part_of_value(
            magnitude(x.size as int),
            x.price as int,
            s.params.trading_fee_bps as int,
        ),
        in_bounds(u, oracle as int),
        in_bounds(l, oracle as int),
    ensures
        s.fill_settled(lp, user, oracle, x).1 is Ok <==> (u.position_size@ == 0 || covers(
            u,
            oracle as int,
            s.params.maintenance_margin_bps as int,
        )) && (l.position_size@ == 0 || covers(
            l,
            oracle as int,
            s.params.maintenance_margin_bps as int,
        )),
        s.fill_settled(lp, user, oracle, x).1 is Err ==> s.fill_settled(lp, user, oracle, x) == (
            s,
            Err::<(), RiskError>(RiskError::Undercollateralized),
        ),
{
    lemma_fill_numbers(s, x, oracle);
    let bps = s.params.maintenance_margin_bps as int;
    law_margin_is_a_part_of_value(u, oracle as int, bps);
    law_margin_is_a_part_of_value(l, oracle as int, bps);
    let p = u.position_size@ as int;
    let q = l.position_size@ as int;
    assert(0 * p == 0 && 0 * q == 0) by (nonlinear_arith);
}

/// A trade is put to the matching engine exactly where a crank is recent, both accounts are
/// there, the provider's is one of a liquidity provider and the user's one of a user, price and
/// size are within bounds, and, if it takes either position further from zero, a sweep has
/// started recently and risk-increasing operations are not blocked.
pub proof fn law_trade_is_admitted(
    s: EngineState,
    lp: int,
    user: int,
    now: u64,
    oracle: u64,
    size: i128,
)
    requires
        s.is_used(lp) ==> magnitude(s.accounts[lp].position_size@ as int)
            <= 100_000_000_000_000_000_000,
        s.is_used(user) ==> magnitude(s.accounts[user].position_size@ as int)
            <= 100_000_000_000_000_000_000,
    ensures
        ({
            let l = s.accounts[lp];
            let u = s.accounts[user];
            let further = magnitude(u.position_size@ + size) > magnitude(u.position_size@ as int)
                || magnitude(l.position_size@ - size) > magnitude(l.position_size@ as int);
            s.check_trade(lp, user, now, oracle, size) is Ok <==> {
                &&& now <= s.last_crank_slot + s.max_crank_staleness_slots
                &&& s.is_used(lp)
                &&& s.is_used(user)
                &&& l.kind == AccountKind::LP
                &&& u.kind == AccountKind::User
                &&& 0 < oracle <= 1_000_000_000_000_000
                &&& size != 0
                &&& magnitude(size as int) <= 100_000_000_000_000_000_000
                &&& further ==> now <= s.last_full_sweep_start_slot + s.max_crank_staleness_slots
                    && !s.risk_reduction_only
            }
        }),
{
}

/// A trade over all: where it succeeds with a fill, each party ends with its position moved by
/// the fill, and with capital and profit together what they were once settled, plus what the
/// fill brought it; the fill was one that fits the request.
pub proof fn law_trade_moves_positions(
    s: EngineState,
    lp: int,
    user: int,
    now: u64,
    oracle: u64,
    size: i128,
    x: TradeExecution,
)
    requires
        s.wf(),
        s.execute_trade(lp, user, now, oracle, size, Ok(x)).1 is Ok,
        x.size != 0,
        pair_in_bounds(s.at_slot(now).pair_settled(lp, user, now, oracle).0, lp, user, oracle),
    ensures
        ({
            let s1 = s.at_slot(now).pair_settled(lp, user, now, oracle).0;
            let t = s.execute_trade(lp, user, now, oracle, size, Ok(x)).0;
            let fee = part_of_value(
                magnitude(x.size as int),
                x.price as int,
                s.params.trading_fee_bps as int,
            );
            let gained = s1.accounts[lp].capital@ + s1.accounts[lp].pnl@ - (t.accounts[lp].capital@
                + t.accounts[lp].pnl@);
            &&& lp != user
            &&& (x.size > 0) == (size > 0)
            &&& magnitude(x.size as int) <= magnitude(size as int)
            &&& t.accounts[user].position_size@ == s.accounts[user].position_size@ + x.size
            &&& t.accounts[lp].position_size@ == s.accounts[lp].position_size@ - x.size
            &&& rounded_to_zero(gained, (oracle - x.price) * x.size, 1_000_000)
            &&& t.accounts[user].capital@ + t.accounts[user].pnl@ == s1.accounts[user].capital@
                + s1.accounts[user].pnl@ + gained - fee
            &&& t.accounts[user].entry_price == oracle
            &&& t.accounts[lp].entry_price == oracle
            &&& t.insurance_fund.fee_revenue@ == s1.insurance_fund.fee_revenue@ + fee
            &&& t.insurance_fund.balance@ == s1.insurance_fund.balance@ + fee
            &&& t.vault == s.vault
        }),
{
    let s0 = s.at_slot(now);
    let s1 = s0.pair_settled(lp, user, now, oracle).0;
    lemma_pair_frame(s0, lp, user, now, oracle);
    law_fill_books_both_sides(s1, lp, user, oracle, x);
    let s2 = s1.fill_settled(lp, user, oracle, x).0;
    lemma_fill_numbers(s1, x, oracle);
    lemma_rewarmed(s2, lp, user);
}

/// A trade whose fill is empty changes no account and moves no funds, and one whose fill does
/// not fit the request is refused.
pub proof fn law_empty_fill_changes_nothing(
    s: EngineState,
    lp: int,
    user: int,
    now: u64,
    oracle: u64,
    size: i128,
    x: TradeExecution,
)
    requires
        s.check_trade(lp, user, now, oracle, size) is Ok,
    ensures
        ({
            let (t, r) = s.execute_trade(lp, user, now, oracle, size, Ok(x));
            &&& 0 < x.price <= 1_000_000_000_000_000 && x.size == 0 ==> r is Ok
            &&& x.price == 0 || x.price > 1_000_000_000_000_000 || (x.size > 0 && size < 0) || (
            x.size < 0 && size > 0) || magnitude(x.size as int) > magnitude(size as int) ==> r
                == Err::<(), RiskError>(RiskError::InvalidMatchingEngine)
            &&& x.size == 0 ==> t.accounts == s.accounts && t.vault == s.vault && t.insurance_fund
                == s.insurance_fund
        }),
{
}

proof fn lemma_pair_frame(s: EngineState, lp: int, user: int, now: u64, oracle: u64)
    requires
        s.wf(),
        s.is_used(lp),
        s.is_used(user),
        lp != user,
    ensures
        ({
            let t = s.pair_settled(lp, user, now, oracle).0;
            &&& t.wf()
            &&& t.used == s.used
            &&& t.accounts[user].position_size == s.accounts[user].position_size
            &&& t.accounts[lp].position_size == s.accounts[lp].position_size
            &&& t.params == s.params
            &&& t.vault == s.vault
        }),
{
    lemma_funding_frame(s, user);
    let s1 = s.touch_account(user).0;
    lemma_funding_frame(s1, lp);
    let s2 = s1.touch_account(lp).0;
    lemma_mark_frame(s2, user, oracle);
    let s3 = s2.settle_mark_to_oracle(user, oracle).0;
    lemma_mark_frame(s3, lp, oracle);
    let s4 = s3.settle_mark_to_oracle(lp, oracle).0;
    lemma_fees_frame(s4, user, now, oracle);
    let s5 = s4.settle_maintenance_fee(user, now, oracle).0;
    lemma_fees_frame(s5, lp, now, oracle);
}

/// Settling warmup turns profit and loss into capital, and nothing else.
pub proof fn lemma_warmup_moves_into_capital(s: EngineState, idx: int)
    requires
        s.wf(),
        s.is_used(idx),
        s.accounts[idx].capital@ <= i128::MAX / 2,
        i128::MIN / 2 <= s.accounts[idx].pnl@ <= i128::MAX / 2,
    ensures
        ({
            let t = s.settle_warmup_to_capital(idx).0;
            let a = s.accounts[idx];
            let b = t.accounts[idx];
            &&& a.capital@ + a.pnl@ == b.capital@ + b.pnl@
            &&& b.position_size == a.position_size
            &&& b.entry_price == a.entry_price
            &&& b.fee_credits == a.fee_credits
            &&& t.insurance_fund == s.insurance_fund
            &&& t.vault == s.vault
            &&& t.used == s.used
            &&& t.wf()
            &&& forall|j: int|
                0 <= j < MAX_ACCOUNTS && j != idx ==> #[trigger] t.accounts[j] == s.accounts[j]
        }),
{
    lemma_warmup_frame(s, idx);
    let a = s.accounts[idx].loss_paid();
    crate::warmup_laws::lemma_matured_nonneg(a, s.effective_slot());
}

proof fn lemma_rewarmed(s: EngineState, lp: int, user: int)
    requires
        s.wf(),
        s.is_used(lp),
        s.is_used(user),
        lp != user,
        s.accounts[lp].capital@ <= i128::MAX / 2,
        i128::MIN / 2 <= s.accounts[lp].pnl@ <= i128::MAX / 2,
        s.accounts[user].capital@ <= i128::MAX / 2,
        i128::MIN / 2 <= s.accounts[user].pnl@ <= i128::MAX / 2,
        s.pair_rewarmed(lp, user).1 is Ok,
    ensures
        ({
            let t = s.pair_rewarmed(lp, user).0;
            &&& t.accounts[user].capital@ + t.accounts[user].pnl@ == s.accounts[user].capital@
                + s.accounts[user].pnl@
            &&& t.accounts[lp].capital@ + t.accounts[lp].pnl@ == s.accounts[lp].capital@
                + s.accounts[lp].pnl@
            &&& t.accounts[user].position_size == s.accounts[user].position_size
            &&& t.accounts[lp].position_size == s.accounts[lp].position_size
            &&& t.accounts[user].entry_price == s.accounts[user].entry_price
            &&& t.accounts[lp].entry_price == s.accounts[lp].entry_price
            &&& t.insurance_fund == s.insurance_fund
            &&& t.vault == s.vault
        }),
{
    lemma_warmup_moves_into_capital(s, user);
    let s1 = s.settle_warmup_to_capital(user).0;
    lemma_warmup_moves_into_capital(s1, lp);
    let s2 = s1.settle_warmup_to_capital(lp).0;
    let s3 = s2.update_warmup_slope(user).0;
    assert(s2.accounts[user] == s1.accounts[user]);
    assert(s3.accounts[lp] == s2.accounts[lp]);
}

} // verus!
