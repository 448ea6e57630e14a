//! Conservation of funds when positions are closed or liquidated.
//!
//! As elsewhere, each law is stated where no balance is clamped; the predicates whose names
//! end in `exact` say where that is.
use vstd::prelude::*;

use crate::adl::Exempt;
use crate::adl_laws::law_adl_spares_exempt;
use crate::conservation_laws::{
    law_adl_frees_exactly_the_loss, law_fees_conserve, law_funding_settlement_conserves,
    law_warmup_conserves, lemma_same_worth, lemma_settled_account, lemma_worth_update,
};
use crate::liquidation::liquidation_fee;
use crate::margin::{liquidation_close, notional, price_move, slice_pnl};
use crate::math::{fits_i, max_int, min_int};
use crate::state::EngineState;
use crate::types::{Account, DeferredAdl};
use crate::wide::I128;

verus! {

broadcast use crate::wide::group_wide;

impl Account {
    /// Closing `size` units clamps nothing: funding is settled, the profit is in range, and
    /// what stays open carries no mark profit.
    pub open spec fn slice_exact(self, index: int, size: int, oracle: u64) -> bool {
        &&& self.funding_index@ == index
        &&& 0 <= size <= self.size()
        &&& slice_pnl(
            self.position_size@ as int,
            size,
            self.entry_price as int,
            oracle as int,
        ) is Some
        &&& fits_i(self.pnl@ + self.close_pnl(size, oracle))
        &&& size == self.size() || self.entry_price == oracle
    }

    /// Closing `size` units and paying the loss clamps nothing.
    pub open spec fn close_exact(self, index: int, size: int, oracle: u64) -> bool {
        self.slice_exact(index, size, oracle) && self.slice_closed(size, oracle).payable_loss()
            <= i128::MAX
    }
}

/// Closing part of a position turns mark profit into profit and changes nothing else.
pub proof fn lemma_slice_keeps_worth(a: Account, index: int, size: int, oracle: u64)
    requires
        a.slice_exact(index, size, oracle),
    ensures
        a.slice_closed(size, oracle).worth(index, oracle) == a.worth(index, oracle),
{
    let b = a.slice_closed(size, oracle);
    lemma_settled_account(a, index, oracle);
    lemma_settled_account(b, index, oracle);
    let d = price_move(a.position_size@ as int, a.entry_price as int, oracle as int);
    assert(d * 0 == 0) by (nonlinear_arith);
}

/// Clearing a loss adds what capital could not pay to what the account is worth.
pub proof fn lemma_cleared_worth(a: Account, index: int, oracle: u64)
    requires
        a.payable_loss() <= i128::MAX,
    ensures
        a.loss_cleared().worth(index, oracle) == a.worth(index, oracle) + a.unpaid_loss(),
        a.loss_cleared().pnl@ >= 0,
        a.unpaid_loss() >= 0,
{
}

/// Setting the vesting rate anew and restarting the clock change no value.
proof fn lemma_restart_keeps_surplus(s: EngineState, idx: int, oracle: u64)
    requires
        s.wf(),
        s.is_used(idx),
    ensures
        ({
            let s2 = s.update_warmup_slope(idx).0;
            s2.with_account(
                idx,
                s2.accounts[idx].warmup_restarted(s2.effective_slot()),
            ).surplus(oracle) == s.surplus(oracle)
        }),
{
    let s2 = s.update_warmup_slope(idx).0;
    let b = s2.accounts[idx].warmup_restarted(s2.effective_slot());
    let t = s2.with_account(idx, b);
    assert(t.accounts =~= s.accounts.update(idx, b));
    lemma_worth_update(s, t, idx, b, oracle);
}

proof fn lemma_close_deferred(s: EngineState, idx: int, size: int, oracle: u64)
    requires
        s.wf(),
        s.is_used(idx),
        s.accounts[idx].close_exact(s.funding_index_qpb_e6@ as int, size, oracle),
    ensures
        s.with_close_deferred(idx, size, oracle).0.surplus(oracle) + s.with_close_deferred(
            idx,
            size,
            oracle,
        ).1.unpaid_loss == s.surplus(oracle),
        s.with_close_deferred(idx, size, oracle).0.wf(),
        s.with_close_deferred(idx, size, oracle).0.same_pending(s),
        s.with_close_deferred(idx, size, oracle).0.accounts[idx].pnl@ >= 0,
        s.with_close_deferred(idx, size, oracle).0.accounts[idx].funding_index
            == s.accounts[idx].funding_index,
        s.accounts[idx].entry_price == oracle ==> s.with_close_deferred(
            idx,
            size,
            oracle,
        ).0.accounts[idx].entry_price == oracle,
{
    let index = s.funding_index_qpb_e6@ as int;
    let a = s.accounts[idx];
    let b = a.slice_closed(size, oracle);
    let c = b.loss_cleared();
    lemma_slice_keeps_worth(a, index, size, oracle);
    lemma_cleared_worth(b, index, oracle);
    let t = s.with_close_deferred(idx, size, oracle).0;
    assert(t.accounts =~= s.accounts.update(idx, c));
    lemma_worth_update(s, t, idx, c, oracle);
}

/// Closing part of a position loses exactly the loss that capital could not pay, which is
/// what is left to be socialized.
pub proof fn law_deferred_close_conserves(s: EngineState, idx: int, size: int, oracle: u64)
    requires
        s.wf(),
        s.is_used(idx),
        s.accounts[idx].close_exact(s.funding_index_qpb_e6@ as int, size, oracle),
    ensures
        s.close_slice_deferred(idx, size, oracle).1 is Ok,
        s.close_slice_deferred(idx, size, oracle).0.surplus(oracle) + s.close_slice_deferred(
            idx,
            size,
            oracle,
        ).1->Ok_0.1.unpaid_loss == s.surplus(oracle),
        s.close_slice_deferred(idx, size, oracle).1->Ok_0.1.profit_to_fund == max_int(
            s.accounts[idx].close_pnl(size, oracle),
            0,
        ),
{
    lemma_close_deferred(s, idx, size, oracle);
    lemma_restart_keeps_surplus(s.with_close_deferred(idx, size, oracle).0, idx, oracle);
}

/// A forced close loses exactly the loss that capital could not pay.
pub proof fn law_forced_close_conserves(s: EngineState, idx: int, oracle: u64)
    requires
        s.wf(),
        s.is_used(idx),
        s.accounts[idx].close_exact(
            s.funding_index_qpb_e6@ as int,
            s.accounts[idx].size(),
            oracle,
        ),
    ensures
        s.force_close(idx, oracle).0.surplus(oracle) + s.force_close(idx, oracle).1.1.unpaid_loss
            == s.surplus(oracle),
{
    let size = s.accounts[idx].size();
    if s.accounts[idx].position_size@ != 0 {
        lemma_close_deferred(s, idx, size, oracle);
        let s1 = s.with_close_deferred(idx, size, oracle).0;
        let t = s.force_close(idx, oracle).0;
        lemma_worth_update(s1, t, idx, t.accounts[idx], oracle);
    }
}

/// What a deferred close leaves of the account and the state.
proof fn lemma_deferred_close_keeps(s: EngineState, idx: int, size: int, oracle: u64)
    requires
        s.wf(),
        s.is_used(idx),
        s.accounts[idx].close_exact(s.funding_index_qpb_e6@ as int, size, oracle),
        s.accounts[idx].entry_price == oracle,
    ensures
        s.close_slice_deferred(idx, size, oracle).1 is Ok,
        ({
            let t = s.close_slice_deferred(idx, size, oracle).0;
            let b = t.accounts[idx];
            &&& t.wf()
            &&& t.same_pending(s)
            &&& t.funding_index_qpb_e6 == s.funding_index_qpb_e6
            &&& b.funding_index == s.accounts[idx].funding_index
            &&& b.entry_price == oracle
            &&& b.pnl@ >= 0
        }),
{
    lemma_close_deferred(s, idx, size, oracle);
}

/// A settled account at the oracle price can be closed without clamping.
proof fn lemma_close_is_exact(a: Account, index: int, size: int, oracle: u64)
    requires
        a.funding_index@ == index,
        a.entry_price == oracle,
        0 <= size <= a.size(),
        a.payable_loss() <= i128::MAX,
    ensures
        a.close_exact(index, size, oracle),
        a.close_pnl(size, oracle) == 0,
{
    lemma_settled_account(a, index, oracle);
    assert(slice_pnl(
        a.position_size@ as int,
        size,
        a.entry_price as int,
        oracle as int,
    ) == Some(0int));
}

proof fn lemma_fallback_close(
    s: EngineState,
    idx: int,
    oracle: u64,
    size: u128,
    deferred: DeferredAdl,
)
    requires
        s.wf(),
        s.is_used(idx),
        s.accounts[idx].funding_index@ == s.funding_index_qpb_e6@,
        s.accounts[idx].entry_price == oracle,
        s.accounts[idx].pnl@ >= 0,
    ensures
        s.with_fallback_close(idx, oracle, size, deferred).0.surplus(oracle) == s.surplus(oracle),
        s.with_fallback_close(idx, oracle, size, deferred).0.wf(),
        s.with_fallback_close(idx, oracle, size, deferred).0.same_pending(s),
        s.with_fallback_close(idx, oracle, size, deferred).1 matches Ok(Some((_, d)))
            && d.unpaid_loss == deferred.unpaid_loss && d.profit_to_fund
            == deferred.profit_to_fund,
{
    let a = s.accounts[idx];
    lemma_close_is_exact(a, s.funding_index_qpb_e6@ as int, a.size(), oracle);
    law_deferred_close_conserves(s, idx, a.size(), oracle);
    lemma_deferred_close_keeps(s, idx, a.size(), oracle);
    let b = a.slice_closed(a.size(), oracle);
    assert(b.pnl@ == a.pnl@);
    assert(s.with_slice_closed(idx, a.size(), oracle).accounts[idx]
        == b);
}

/// Bringing an account to its target margin loses exactly the loss that capital could not
/// pay.
pub proof fn lemma_liquidation_close(s: EngineState, idx: int, oracle: u64)
    requires
        s.wf(),
        s.is_used(idx),
        s.accounts[idx].funding_index@ == s.funding_index_qpb_e6@,
        s.accounts[idx].entry_price == oracle,
        s.accounts[idx].payable_loss() <= i128::MAX,
    ensures
        s.liquidation_closed(idx, oracle).0.wf(),
        s.liquidation_closed(idx, oracle).0.same_pending(s),
        s.liquidation_closed(idx, oracle).1 matches Ok(o) && s.liquidation_closed(
            idx,
            oracle,
        ).0.surplus(oracle) + (match o {
            Some((_, d)) => d.unpaid_loss as int,
            None => 0,
        }) == s.surplus(oracle) && (o matches Some((_, d)) ==> d.profit_to_fund == 0),
{
    let a = s.accounts[idx];
    let size = liquidation_close(s.params, a, oracle as int).0;
    if size != 0 && a.size() != 0 {
        let n = min_int(size, a.size());
        lemma_close_is_exact(a, s.funding_index_qpb_e6@ as int, n, oracle);
        law_deferred_close_conserves(s, idx, n, oracle);
        lemma_deferred_close_keeps(s, idx, n, oracle);
        let (s1, r) = s.close_slice_deferred(idx, n, oracle);
        lemma_fallback_close(s1, idx, oracle, r->Ok_0.0.abs_pos, r->Ok_0.1);
    }
}

impl EngineState {
    /// Settling account `idx` for liquidation clamps nothing.
    pub open spec fn liquidation_touch_exact(self, idx: int, now: u64, oracle: u64) -> bool {
        let s1 = self.touch_account(idx).0;
        let s2 = s1.settle_mark_to_oracle_best_effort(idx, oracle).0;
        let s3 = s2.with_fees_charged(idx, now);
        &&& s1.accounts[idx].mark(oracle as int) matches Some(m) ==> fits_i(
            s1.accounts[idx].pnl@ + m,
        )
        &&& s2.fees_exact(idx, now)
        &&& s3.accounts[idx].payable_loss() <= i128::MAX
    }

    /// The liquidation fee is not clamped on its way to the insurance fund.
    pub open spec fn liquidation_fee_exact(self, idx: int, size: int, oracle: u64) -> bool {
        self.insurance_fund.balance@ + min_int(
            liquidation_fee(self.params, size, oracle),
            self.accounts[idx].capital@ as int,
        ) <= u128::MAX
    }
}

/// Realizing mark profit, clamped where it is out of range, conserves value at the oracle
/// price where nothing is clamped.
pub proof fn law_clamped_mark_settlement_conserves(s: EngineState, idx: int, oracle: u64)
    requires
        s.wf(),
        s.accounts[idx].mark(oracle as int) matches Some(m) ==> fits_i(s.accounts[idx].pnl@ + m),
    ensures
        s.settle_mark_to_oracle_best_effort(idx, oracle).0.surplus(oracle) == s.surplus(oracle),
{
    if s.is_used(idx) {
        match s.accounts[idx].mark_settled_clamped(oracle) {
            Some(b) => {
                lemma_settled_account(b, s.funding_index_qpb_e6@ as int, oracle);
                lemma_settled_account(s.accounts[idx], s.funding_index_qpb_e6@ as int, oracle);
                lemma_worth_update(s, s.with_account(idx, b), idx, b, oracle);
            },
            None => {},
        }
    }
}

proof fn lemma_liquidation_touch(s: EngineState, idx: int, now: u64, oracle: u64)
    requires
        s.wf(),
        s.is_used(idx),
        s.liquidation_touch_exact(idx, now, oracle),
    ensures
        ({
            let (t, r) = s.touch_account_for_liquidation(idx, now, oracle);
            &&& t.surplus(oracle) == s.surplus(oracle)
            &&& t.wf()
            &&& t.same_pending(s)
            &&& r is Ok ==> {
                &&& t.accounts[idx].funding_index@ == t.funding_index_qpb_e6@
                &&& t.accounts[idx].entry_price == oracle
                &&& t.accounts[idx].payable_loss() <= i128::MAX
            }
        }),
{
    law_funding_settlement_conserves(s, idx, oracle);
    let s1 = s.touch_account(idx).0;
    law_clamped_mark_settlement_conserves(s1, idx, oracle);
    let s2 = s1.settle_mark_to_oracle_best_effort(idx, oracle).0;
    law_fees_conserve(s2, idx, now, oracle);
}

proof fn lemma_liquidate_settling(s: EngineState, idx: int, now: u64, oracle: u64)
    requires
        s.wf(),
        s.is_used(idx),
        s.liquidation_touch_exact(idx, now, oracle),
    ensures
        ({
            let (t, r) = s.liquidate_settling(idx, now, oracle);
            &&& t.wf()
            &&& t.same_pending(s)
            &&& match r {
                Ok(Some((_, d))) => t.surplus(oracle) + d.unpaid_loss == s.surplus(oracle)
                    && d.profit_to_fund == 0,
                _ => t.surplus(oracle) == s.surplus(oracle),
            }
        }),
{
    if s.accounts[idx].position_size@ != 0 {
        lemma_liquidation_touch(s, idx, now, oracle);
        let (s1, r) = s.touch_account_for_liquidation(idx, now, oracle);
        if r is Ok {
            lemma_liquidation_close(s1, idx, oracle);
        }
    }
}

/// A liquidation fee conserves value.
pub proof fn law_liquidation_fee_conserves(s: EngineState, idx: int, size: int, oracle: u64)
    requires
        s.wf(),
        s.is_used(idx),
        s.liquidation_fee_exact(idx, size, oracle),
        liquidation_fee(s.params, size, oracle) >= 0,
    ensures
        s.with_liquidation_fee(idx, size, oracle).surplus(oracle) == s.surplus(oracle),
{
    let t = s.with_liquidation_fee(idx, size, oracle);
    lemma_worth_update(s, t, idx, t.accounts[idx], oracle);
}

impl EngineState {
    /// A liquidation with socialization left for later clamps nothing.
    pub open spec fn deferred_liquidation_exact(self, idx: int, now: u64, oracle: u64) -> bool {
        let s0 = self.at_slot(now);
        let (s1, r) = s0.liquidate_settling(idx, now, oracle);
        &&& s0.liquidation_touch_exact(idx, now, oracle)
        &&& r matches Ok(Some((size, _))) ==> s1.liquidation_fee_exact(idx, size as int, oracle)
    }

    /// A liquidation clamps nothing.
    pub open spec fn liquidation_exact(self, idx: int, now: u64, oracle: u64) -> bool {
        let s0 = self.at_slot(now);
        let (s1, r) = s0.liquidate_settling(idx, now, oracle);
        &&& s0.liquidation_touch_exact(idx, now, oracle)
        &&& r matches Ok(Some((size, d))) ==> s1.deleverage_exact(
            d.unpaid_loss as int,
            Exempt::Nobody,
        ) && s1.deleverage(d.unpaid_loss as int, Exempt::Nobody).0.liquidation_fee_exact(
            idx,
            size as int,
            oracle,
        )
    }
}

pub proof fn lemma_fee_nonneg(s: EngineState, size: int, oracle: u64)
    requires
        size >= 0,
    ensures
        liquidation_fee(s.params, size, oracle) >= 0,
{
    assert(size * oracle >= 0) by (nonlinear_arith)
        requires
            size >= 0,
            oracle >= 0,
    ;
    let n = notional(size, oracle as int);
    let bps = s.params.liquidation_fee_bps as int;
    assert(n * bps >= 0) by (nonlinear_arith)
        requires
            n >= 0,
            bps >= 0,
    ;
}

/// A liquidation with socialization left for later loses exactly the loss that capital could
/// not pay, which is what it hands back; it never asks for a profit to be funded.
pub proof fn law_deferred_liquidation_conserves(s: EngineState, idx: int, now: u64, oracle: u64)
    requires
        s.wf(),
        s.is_used(idx) ==> s.deferred_liquidation_exact(idx, now, oracle),
    ensures
        ({
            let (t, r) = s.liquidate_deferred(idx, now, oracle);
            &&& t.wf()
            &&& t.same_pending(s)
            &&& t.surplus(oracle) + (match r {
                Ok((_, d)) => d.unpaid_loss as int,
                Err(_) => 0,
            }) == s.surplus(oracle)
            &&& r matches Ok((_, d)) ==> d.profit_to_fund == 0
        }),
{
    let s0 = s.at_slot(now);
    lemma_same_worth(s, s0, oracle);
    if s.is_used(idx) {
        lemma_liquidate_settling(s0, idx, now, oracle);
        let (s1, r) = s0.liquidate_settling(idx, now, oracle);
        if let Ok(Some((size, d))) = r {
            lemma_fee_nonneg(s1, size as int, oracle);
            law_liquidation_fee_conserves(s1, idx, size as int, oracle);
        }
    }
}

/// A liquidation that succeeds conserves value at the oracle price.
pub proof fn law_liquidation_conserves(s: EngineState, idx: int, now: u64, oracle: u64)
    requires
        s.wf(),
        s.is_used(idx) ==> s.liquidation_exact(idx, now, oracle),
        s.liquidate_at_oracle(idx, now, oracle).1 is Ok,
    ensures
        s.liquidate_at_oracle(idx, now, oracle).0.surplus(oracle) == s.surplus(oracle),
{
    let s0 = s.at_slot(now);
    lemma_same_worth(s, s0, oracle);
    if s.is_used(idx) {
        lemma_liquidate_settling(s0, idx, now, oracle);
        let (s1, r) = s0.liquidate_settling(idx, now, oracle);
        if let Ok(Some((size, d))) = r {
            law_adl_frees_exactly_the_loss(s1, d.unpaid_loss as int, Exempt::Nobody, oracle);
            let s3 = s1.deleverage(d.unpaid_loss as int, Exempt::Nobody).0;
            assert(s3.wf() && s3.is_used(idx));
            lemma_fee_nonneg(s3, size as int, oracle);
            law_liquidation_fee_conserves(s3, idx, size as int, oracle);
        }
    }
}

impl EngineState {
    /// Socializing the loss that settlement left on account `idx` clamps nothing.
    pub open spec fn residual_exact(self, idx: int) -> bool {
        self.accounts[idx].pnl@ < 0 ==> self.deleverage_exact(
            -(self.accounts[idx].pnl@ as int),
            Exempt::Nobody,
        )
    }

    /// Closing `size` units of account `idx`, with socialization at once, clamps nothing.
    pub open spec fn close_slice_exact(self, idx: int, size: int, oracle: u64) -> bool {
        let a = self.accounts[idx];
        let profit = max_int(a.close_pnl(size, oracle), 0);
        let s0 = self.with_slice_closed(idx, size, oracle);
        let s1 = s0.deleverage(profit, Exempt::One(idx as usize)).0;
        let s2 = s1.settle_warmup_to_capital(idx).0;
        &&& a.slice_exact(self.funding_index_qpb_e6@ as int, size, oracle)
        &&& s0.deleverage_exact(profit, Exempt::One(idx as usize))
        &&& s1.warmup_exact(idx)
        &&& s2.residual_exact(idx)
    }
}

/// Socializing a loss that settlement left, and writing it off, conserves value.
pub proof fn law_residual_socialization_conserves(s: EngineState, idx: int, oracle: u64)
    requires
        s.wf(),
        s.is_used(idx),
        s.residual_exact(idx),
        s.with_residual_socialized(idx).1 is Ok,
    ensures
        s.with_residual_socialized(idx).0.surplus(oracle) == s.surplus(oracle),
{
    let loss = -(s.accounts[idx].pnl@ as int);
    if loss > 0 {
        law_adl_frees_exactly_the_loss(s, loss, Exempt::Nobody, oracle);
        let s1 = s.deleverage(loss, Exempt::Nobody).0;
        law_adl_spares_exempt(s, loss, Exempt::Nobody, idx);
        let b = Account { pnl: I128::of(0), ..s1.accounts[idx] };
        lemma_worth_update(s1, s1.with_account(idx, b), idx, b, oracle);
    }
}

/// A close that succeeds frees exactly its profit: the other accounts have paid it.
pub proof fn law_close_frees_its_profit(s: EngineState, idx: int, size: int, oracle: u64)
    requires
        s.wf(),
        s.is_used(idx),
        s.close_slice_exact(idx, size, oracle),
        s.close_slice(idx, size, oracle).1 is Ok,
    ensures
        s.close_slice(idx, size, oracle).0.surplus(oracle) == s.surplus(oracle) + max_int(
            s.accounts[idx].close_pnl(size, oracle),
            0,
        ),
{
    let a = s.accounts[idx];
    let profit = max_int(a.close_pnl(size, oracle), 0);
    let s0 = s.with_slice_closed(idx, size, oracle);
    let b = a.slice_closed(size, oracle);
    lemma_slice_keeps_worth(a, s.funding_index_qpb_e6@ as int, size, oracle);
    lemma_worth_update(s, s0, idx, b, oracle);
    law_adl_frees_exactly_the_loss(s0, profit, Exempt::One(idx as usize), oracle);
    let s1 = s0.deleverage(profit, Exempt::One(idx as usize)).0;
    assert(s1.wf() && s1.is_used(idx));
    law_warmup_conserves(s1, idx, oracle);
    let s2 = s1.settle_warmup_to_capital(idx).0;
    assert(s2.wf() && s2.is_used(idx));
    law_residual_socialization_conserves(s2, idx, oracle);
}

} // verus!
