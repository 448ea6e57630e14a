//! Conservation of funds by trades and by settlements of all positions.
//!
//! As elsewhere, each law is stated where no balance is clamped; the predicates whose names
//! end in `exact` say where that is.
use vstd::prelude::*;

use crate::adl::Exempt;
use crate::close_laws::{
    law_forced_close_conserves, lemma_slice_keeps_worth,
};
use crate::conservation_laws::{
    law_adl_frees_exactly_the_loss, law_fees_conserve, law_funding_settlement_conserves,
    law_mark_settlement_conserves, law_warmup_conserves, lemma_same_worth, lemma_settled_account,
    lemma_worth_update,
};
use crate::margin::notional;
use crate::math::{abs_sat, fits_i, max_int, sat_i, sat_u};
use crate::state::EngineState;
use crate::trade::trade_fee;
use crate::types::{RiskError, TradeExecution, MAX_ACCOUNTS};

verus! {

broadcast use crate::wide::group_wide;

impl EngineState {
    /// Settling both parties of a trade clamps nothing.
    pub open spec fn pair_exact(self, lp: int, user: int, now: u64, oracle: u64) -> bool {
        let s2 = self.touch_account(user).0.touch_account(lp).0;
        let s4 = s2.settle_mark_to_oracle(user, oracle).0.settle_mark_to_oracle(lp, oracle).0;
        let s5 = s4.settle_maintenance_fee(user, now, oracle).0;
        s4.fees_exact(user, now) && s5.fees_exact(lp, now)
    }

    /// A fill clamps nothing.
    pub open spec fn fill_exact(self, x: TradeExecution) -> bool {
        let fee = trade_fee(self.params, x);
        fee <= i128::MAX && self.insurance_fund.balance@ + fee <= u128::MAX
    }

    /// Settling the warmup of both parties clamps nothing.
    pub open spec fn rewarm_exact(self, lp: int, user: int) -> bool {
        self.warmup_exact(user) && self.settle_warmup_to_capital(user).0.warmup_exact(lp)
    }

    /// A trade clamps nothing.
    pub open spec fn trade_exact(
        self,
        lp: int,
        user: int,
        now: u64,
        oracle: u64,
        x: TradeExecution,
    ) -> bool {
        let (s1, r1) = self.pair_settled(lp, user, now, oracle);
        let (s2, r2) = s1.fill_settled(lp, user, oracle, x);
        &&& self.pair_exact(lp, user, now, oracle)
        &&& r1 is Ok ==> s1.fill_exact(x)
        &&& r1 is Ok && r2 is Ok ==> s2.rewarm_exact(lp, user)
    }
}

/// Settling funding and mark of both parties conserves value.
proof fn lemma_pair_marked(s: EngineState, lp: int, user: int, oracle: u64)
    requires
        s.wf(),
        s.is_used(lp),
        s.is_used(user),
        lp != user,
    ensures
        ({
            let s1 = s.touch_account(user).0;
            let s2 = s1.touch_account(lp).0;
            let s3 = s2.settle_mark_to_oracle(user, oracle).0;
            let s4 = s3.settle_mark_to_oracle(lp, oracle).0;
            let ok = s.touch_account(user).1 is Ok && s1.touch_account(lp).1 is Ok
                && s2.settle_mark_to_oracle(user, oracle).1 is Ok && s3.settle_mark_to_oracle(
                lp,
                oracle,
            ).1 is Ok;
            &&& s1.surplus(oracle) == s.surplus(oracle)
            &&& s2.surplus(oracle) == s.surplus(oracle)
            &&& s3.surplus(oracle) == s.surplus(oracle)
            &&& s4.surplus(oracle) == s.surplus(oracle)
            &&& s4.wf()
            &&& s4.same_pending(s)
            &&& s4.funding_index_qpb_e6 == s.funding_index_qpb_e6
            &&& ok ==> s4.accounts[user].entry_price == oracle && s4.accounts[lp].entry_price
                == oracle && s4.accounts[user].funding_index == s.funding_index_qpb_e6
                && s4.accounts[lp].funding_index == s.funding_index_qpb_e6
        }),
{
    law_funding_settlement_conserves(s, user, oracle);
    let s1 = s.touch_account(user).0;
    law_funding_settlement_conserves(s1, lp, oracle);
    let s2 = s1.touch_account(lp).0;
    law_mark_settlement_conserves(s2, user, oracle);
    let s3 = s2.settle_mark_to_oracle(user, oracle).0;
    law_mark_settlement_conserves(s3, lp, oracle);
}

/// What charging fees leaves of the account and the state.
proof fn lemma_fees_keep(s: EngineState, idx: int, now: u64, oracle: u64)
    requires
        s.wf(),
        s.is_used(idx),
    ensures
        ({
            let t = s.settle_maintenance_fee(idx, now, oracle).0;
            let a = s.accounts[idx];
            let b = t.accounts[idx];
            &&& t.wf()
            &&& t.same_pending(s)
            &&& t.funding_index_qpb_e6 == s.funding_index_qpb_e6
            &&& b.entry_price == a.entry_price && b.funding_index == a.funding_index
                && b.position_size == a.position_size
            &&& forall|j: int|
                0 <= j < MAX_ACCOUNTS && j != idx ==> #[trigger] t.accounts[j] == s.accounts[j]
        }),
{
}

/// Settling both parties of a trade conserves value.
proof fn lemma_pair_settled(s: EngineState, lp: int, user: int, now: u64, oracle: u64)
    requires
        s.wf(),
        s.is_used(lp),
        s.is_used(user),
        lp != user,
        s.pair_exact(lp, user, now, oracle),
    ensures
        ({
            let (t, r) = s.pair_settled(lp, user, now, oracle);
            &&& t.surplus(oracle) == s.surplus(oracle)
            &&& t.wf()
            &&& t.same_pending(s)
            &&& r is Ok ==> t.accounts[user].entry_price == oracle && t.accounts[lp].entry_price
                == oracle && t.accounts[user].funding_index == t.funding_index_qpb_e6
                && t.accounts[lp].funding_index == t.funding_index_qpb_e6
        }),
{
    lemma_pair_marked(s, lp, user, oracle);
    let s2 = s.touch_account(user).0.touch_account(lp).0;
    let s4 = s2.settle_mark_to_oracle(user, oracle).0.settle_mark_to_oracle(lp, oracle).0;
    law_fees_conserve(s4, user, now, oracle);
    lemma_fees_keep(s4, user, now, oracle);
    let s5 = s4.settle_maintenance_fee(user, now, oracle).0;
    law_fees_conserve(s5, lp, now, oracle);
    lemma_fees_keep(s5, lp, now, oracle);
}

/// Booking a fill between settled parties conserves value: what one party gains by the price
/// the other loses, and the fee goes to the insurance fund.
pub proof fn law_fill_conserves(s: EngineState, lp: int, user: int, oracle: u64, x: TradeExecution)
    requires
        s.wf(),
        s.is_used(lp),
        s.is_used(user),
        lp != user,
        s.fill_in_range(lp, user, oracle, x),
        s.fill_exact(x),
        s.accounts[user].entry_price == oracle,
        s.accounts[lp].entry_price == oracle,
        s.accounts[user].funding_index == s.funding_index_qpb_e6,
        s.accounts[lp].funding_index == s.funding_index_qpb_e6,
    ensures
        s.with_fill(lp, user, oracle, x).surplus(oracle) == s.surplus(oracle),
        s.with_fill(lp, user, oracle, x).wf(),
        s.with_fill(lp, user, oracle, x).same_pending(s),
{
    let index = s.funding_index_qpb_e6@ as int;
    let fee = trade_fee(s.params, x);
    lemma_trade_fee_nonneg(s, x);
    let u = s.accounts[user];
    let l = s.accounts[lp];
    let u2 = u.credited(fee).filled(s.user_position(user, x), s.user_pnl(user, oracle, x), oracle);
    let l2 = l.filled(s.lp_position(lp, x), s.lp_pnl(lp, oracle, x), oracle);
    lemma_settled_account(u, index, oracle);
    lemma_settled_account(l, index, oracle);
    lemma_settled_account(u2, index, oracle);
    lemma_settled_account(l2, index, oracle);
    let s1 = s.with_account(user, u2);
    lemma_worth_update(s, s1, user, u2, oracle);
    lemma_worth_update(s1, s.with_fill(lp, user, oracle, x), lp, l2, oracle);
}

pub proof fn lemma_trade_fee_nonneg(s: EngineState, x: TradeExecution)
    ensures
        trade_fee(s.params, x) >= 0,
{
    let size = abs_sat(x.size as int);
    assert(size * x.price >= 0) by (nonlinear_arith)
        requires
            size >= 0,
            x.price >= 0,
    ;
    let n = notional(size, x.price as int);
    let bps = s.params.trading_fee_bps as int;
    assert(n * bps >= 0) by (nonlinear_arith)
        requires
            n >= 0,
            bps >= 0,
    ;
}

/// Settling the warmup of both parties, and setting their rates anew, conserves value.
proof fn lemma_pair_rewarmed(s: EngineState, lp: int, user: int, oracle: u64)
    requires
        s.wf(),
        s.is_used(lp),
        s.is_used(user),
        s.rewarm_exact(lp, user),
    ensures
        s.pair_rewarmed(lp, user).0.surplus(oracle) == s.surplus(oracle),
{
    law_warmup_conserves(s, user, oracle);
    let s1 = s.settle_warmup_to_capital(user).0;
    assert(s1.wf() && s1.used == s.used);
    law_warmup_conserves(s1, lp, oracle);
    let s2 = s1.settle_warmup_to_capital(lp).0;
    assert(s2.wf() && s2.used == s.used);
    let s3 = s2.update_warmup_slope(user).0;
    lemma_worth_update(s2, s3, user, s3.accounts[user], oracle);
    let s4 = s3.update_warmup_slope(lp).0;
    lemma_worth_update(s3, s4, lp, s4.accounts[lp], oracle);
}

/// A trade conserves value at the oracle price, whatever the matching engine answers, and even
/// where the trade fails.
pub proof fn law_trade_conserves(
    s: EngineState,
    lp: int,
    user: int,
    now: u64,
    oracle: u64,
    size: i128,
    answer: Result<TradeExecution, RiskError>,
)
    requires
        s.wf(),
        s.check_trade(lp, user, now, oracle, size) is Ok && answer is Ok ==> s.at_slot(
            now,
        ).trade_exact(lp, user, now, oracle, answer->Ok_0),
    ensures
        s.execute_trade(lp, user, now, oracle, size, answer).0.surplus(oracle) == s.surplus(oracle),
{
    let s0 = s.at_slot(now);
    lemma_same_worth(s, s0, oracle);
    if s.check_trade(lp, user, now, oracle, size) is Ok && answer is Ok {
        lemma_applied_fill(s0, lp, user, now, oracle, size, answer->Ok_0);
    }
}

proof fn lemma_applied_fill(
    s: EngineState,
    lp: int,
    user: int,
    now: u64,
    oracle: u64,
    size: i128,
    x: TradeExecution,
)
    requires
        s.wf(),
        s.is_used(lp),
        s.is_used(user),
        lp != user,
        s.trade_exact(lp, user, now, oracle, x),
    ensures
        s.apply_fill(lp, user, now, oracle, size, x).0.surplus(oracle) == s.surplus(oracle),
{
    lemma_pair_settled(s, lp, user, now, oracle);
    let (s1, r1) = s.pair_settled(lp, user, now, oracle);
    let (s2, r2) = s1.fill_settled(lp, user, oracle, x);
    if r1 is Ok && r2 is Ok {
        law_fill_conserves(s1, lp, user, oracle, x);
        lemma_pair_rewarmed(s2, lp, user, oracle);
    }
}

impl EngineState {
    /// Closing all positions from slot `i` on in an emergency settlement clamps nothing.
    pub open spec fn panic_close_exact(self, i: int, oracle: u64, loss: int, mark: int) -> bool
        decreases MAX_ACCOUNTS - i,
    {
        if i >= MAX_ACCOUNTS {
            true
        } else if !self.is_used(i) {
            self.panic_close_exact(i + 1, oracle, loss, mark)
        } else {
            match self.touch_account(i) {
                (s1, Err(e)) => true,
                (s1, Ok(_)) => {
                    let (s2, l, m) = s1.panic_close(i, oracle);
                    let a = s1.accounts[i];
                    &&& a.slice_exact(s1.funding_index_qpb_e6@ as int, a.size(), oracle)
                    &&& loss + l <= u128::MAX
                    &&& fits_i(mark + m)
                    &&& s2.panic_close_exact(i + 1, oracle, sat_u(loss + l), sat_i(mark + m))
                },
            }
        }
    }

    /// Settling the warmup of all accounts from slot `i` on clamps nothing.
    pub open spec fn warmup_all_exact(self, i: int) -> bool
        decreases MAX_ACCOUNTS - i,
    {
        if i >= MAX_ACCOUNTS {
            true
        } else if !self.is_used(i) {
            self.warmup_all_exact(i + 1)
        } else {
            &&& self.warmup_exact(i)
            &&& self.settle_warmup_to_capital(i).1 is Ok ==> self.settle_warmup_to_capital(
                i,
            ).0.warmup_all_exact(i + 1)
        }
    }

    /// An emergency settlement clamps nothing.
    pub open spec fn panic_exact(self, oracle: u64) -> bool {
        let s0 = self.panic_begun();
        &&& s0.panic_close_exact(0, oracle, 0, 0)
        &&& s0.panic_close_from(0, oracle, 0, 0) matches (s1, Ok((loss, mark))) ==> {
            let total = loss + max_int(mark as int, 0);
            &&& total <= u128::MAX
            &&& s1.with_lp_totals_reset().deleverage_exact(total, Exempt::Nobody)
            &&& s1.with_lp_totals_reset().deleverage(total, Exempt::Nobody).0.warmup_all_exact(0)
        }
    }
}

/// Closing a position in an emergency settlement adds the loss that is dropped to what the
/// account is worth.
proof fn lemma_panic_close(s: EngineState, i: int, oracle: u64)
    requires
        s.wf(),
        s.is_used(i),
        s.accounts[i].slice_exact(
            s.funding_index_qpb_e6@ as int,
            s.accounts[i].size(),
            oracle,
        ),
    ensures
        s.panic_close(i, oracle).0.surplus(oracle) + s.panic_close(i, oracle).1 == s.surplus(
            oracle,
        ),
        s.panic_close(i, oracle).0.wf(),
        s.panic_close(i, oracle).1 >= 0,
{
    let a = s.accounts[i];
    if a.position_size@ != 0 {
        let b = a.slice_closed(a.size(), oracle);
        lemma_slice_keeps_worth(a, s.funding_index_qpb_e6@ as int, a.size(), oracle);
        let t = s.panic_close(i, oracle).0;
        assert(t.accounts =~= s.accounts.update(i, b.loss_dropped()));
        lemma_worth_update(s, t, i, b.loss_dropped(), oracle);
    }
}

proof fn lemma_panic_close_from(s: EngineState, i: int, oracle: u64, loss: int, mark: int)
    requires
        s.wf(),
        0 <= i,
        0 <= loss <= u128::MAX,
        s.panic_close_exact(i, oracle, loss, mark),
    ensures
        s.panic_close_from(i, oracle, loss, mark) matches (t, r) && t.wf() && (r matches Ok((l, m))
            ==> t.surplus(oracle) + l == s.surplus(oracle) + loss),
    decreases MAX_ACCOUNTS - i,
{
    if i < MAX_ACCOUNTS {
        if !s.is_used(i) {
            lemma_panic_close_from(s, i + 1, oracle, loss, mark);
        } else {
            law_funding_settlement_conserves(s, i, oracle);
            let s1 = s.touch_account(i).0;
            if s.touch_account(i).1 is Ok {
                lemma_panic_close(s1, i, oracle);
                let (s2, l, m) = s1.panic_close(i, oracle);
                lemma_panic_close_from(s2, i + 1, oracle, loss + l, mark + m);
            }
        }
    }
}

proof fn lemma_warmup_from(s: EngineState, i: int, oracle: u64)
    requires
        s.wf(),
        0 <= i,
        s.warmup_all_exact(i),
    ensures
        s.settle_warmup_from(i).0.surplus(oracle) == s.surplus(oracle),
    decreases MAX_ACCOUNTS - i,
{
    if i < MAX_ACCOUNTS {
        if !s.is_used(i) {
            lemma_warmup_from(s, i + 1, oracle);
        } else {
            law_warmup_conserves(s, i, oracle);
            let (s1, r) = s.settle_warmup_to_capital(i);
            if r is Ok {
                lemma_warmup_from(s1, i + 1, oracle);
            }
        }
    }
}

/// An emergency settlement that succeeds frees exactly the mark profit that the positions do
/// not cancel out to; where they cancel out, it conserves value.
pub proof fn law_panic_settlement_conserves(s: EngineState, oracle: u64)
    requires
        s.wf(),
        s.panic_settle_all(oracle).1 is Ok,
        s.panic_exact(oracle),
    ensures
        s.panic_settle_all(oracle).0.surplus(oracle) == s.surplus(oracle) + max_int(
            s.panic_begun().panic_close_from(0, oracle, 0, 0).1->Ok_0.1 as int,
            0,
        ),
{
    let s0 = s.panic_begun();
    lemma_same_worth(s, s0, oracle);
    lemma_panic_close_from(s0, 0, oracle, 0, 0);
    let (closed, r) = s0.panic_close_from(0, oracle, 0, 0);
    let total = r->Ok_0.0 + max_int(r->Ok_0.1 as int, 0);
    let s1 = closed.with_lp_totals_reset();
    lemma_same_worth(closed, s1, oracle);
    law_adl_frees_exactly_the_loss(s1, total, Exempt::Nobody, oracle);
    let s2 = s1.deleverage(total, Exempt::Nobody).0;
    assert(s2.wf());
    lemma_warmup_from(s2, 0, oracle);
    let s3 = s2.settle_warmup_from(0).0;
    lemma_same_worth(s3, s3.with_reserve(), oracle);
}

impl EngineState {
    /// Closing all positions by force from slot `i` on clamps nothing.
    pub open spec fn force_close_all_exact(self, i: int, oracle: u64, unpaid: int, mark: int) -> bool
        decreases MAX_ACCOUNTS - i,
    {
        if i >= MAX_ACCOUNTS {
            true
        } else if !self.is_used(i) {
            self.force_close_all_exact(i + 1, oracle, unpaid, mark)
        } else {
            match self.touch_account(i) {
                (s1, Err(e)) => true,
                (s1, Ok(_)) => {
                    let (s2, (m, d)) = s1.force_close(i, oracle);
                    let a = s1.accounts[i];
                    &&& a.close_exact(s1.funding_index_qpb_e6@ as int, a.size(), oracle)
                    &&& unpaid + d.unpaid_loss <= u128::MAX
                    &&& fits_i(mark + m)
                    &&& s2.force_close_all_exact(
                        i + 1,
                        oracle,
                        sat_u(unpaid + d.unpaid_loss),
                        sat_i(mark + m),
                    )
                },
            }
        }
    }

    /// A forced realization of losses clamps nothing.
    pub open spec fn force_realize_exact(self, oracle: u64) -> bool {
        let s0 = self.in_risk_reduction();
        &&& s0.force_close_all_exact(0, oracle, 0, 0)
        &&& s0.force_close_from(0, oracle, 0, 0) matches (s1, Ok((unpaid, mark))) ==> {
            let total = unpaid + max_int(mark as int, 0);
            &&& total <= u128::MAX
            &&& s1.with_lp_totals_reset().deleverage_exact(total, Exempt::Nobody)
            &&& s1.with_lp_totals_reset().deleverage(total, Exempt::Nobody).1 is Ok
        }
    }
}

proof fn lemma_force_close_from(s: EngineState, i: int, oracle: u64, unpaid: int, mark: int)
    requires
        s.wf(),
        0 <= i,
        0 <= unpaid <= u128::MAX,
        s.force_close_all_exact(i, oracle, unpaid, mark),
    ensures
        s.force_close_from(i, oracle, unpaid, mark) matches (t, r) && t.wf() && (r matches Ok(
            (l, m),
        ) ==> t.surplus(oracle) + l == s.surplus(oracle) + unpaid),
    decreases MAX_ACCOUNTS - i,
{
    if i < MAX_ACCOUNTS {
        if !s.is_used(i) {
            lemma_force_close_from(s, i + 1, oracle, unpaid, mark);
        } else {
            law_funding_settlement_conserves(s, i, oracle);
            let s1 = s.touch_account(i).0;
            if s.touch_account(i).1 is Ok {
                law_forced_close_conserves(s1, i, oracle);
                let (s2, (m, d)) = s1.force_close(i, oracle);
                assert(s2.wf());
                lemma_force_close_from(s2, i + 1, oracle, unpaid + d.unpaid_loss, mark + m);
            }
        }
    }
}

/// A forced realization of losses frees exactly the mark profit that the positions do not
/// cancel out to; where they cancel out, it conserves value.
pub proof fn law_forced_realization_of_losses_conserves(s: EngineState, oracle: u64)
    requires
        s.wf(),
        s.force_realize_losses(oracle).1 is Ok,
        s.force_realize_exact(oracle),
    ensures
        s.force_realize_losses(oracle).0.surplus(oracle) == s.surplus(oracle) + max_int(
            s.in_risk_reduction().force_close_from(0, oracle, 0, 0).1->Ok_0.1 as int,
            0,
        ),
{
    let s0 = s.in_risk_reduction();
    lemma_same_worth(s, s0, oracle);
    lemma_force_close_from(s0, 0, oracle, 0, 0);
    let (closed, r) = s0.force_close_from(0, oracle, 0, 0);
    let total = r->Ok_0.0 + max_int(r->Ok_0.1 as int, 0);
    let s1 = closed.with_lp_totals_reset();
    lemma_same_worth(closed, s1, oracle);
    law_adl_frees_exactly_the_loss(s1, total, Exempt::Nobody, oracle);
    let s2 = s1.deleverage(total, Exempt::Nobody).0;
    lemma_same_worth(s2, s2.with_reserve(), oracle);
}

} // verus!
