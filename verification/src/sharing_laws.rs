//! How a loss is shared, told by what each account has less of afterwards.
use vstd::prelude::*;
use vstd::set_lib::lemma_len_subset;

use crate::adl::{exempt_of, lemma_weights_ok, Exempt};
use crate::adl_laws::{law_adl_spares_exempt, law_cuts_are_exact, law_cuts_are_proportional, lemma_cut_bound};
use crate::haircut::{
    ahead, among_first, borne, cuts, lemma_share_bound, lemma_sum_nonneg, lemma_those_ahead, rank,
    remainders, share, sum, sum_to, those_ahead, total_weight, units_left,
};
use crate::state::EngineState;
use crate::types::MAX_ACCOUNTS;

verus! {

broadcast use crate::wide::group_wide;

/// Young profit of the account in slot `i`: what is neither reserved nor matured, unless the
/// account is exempt.
pub open spec fn young(s: EngineState, e: Exempt, i: int) -> int {
    let a = s.accounts[i];
    let slot = if s.warmup_paused && s.warmup_pause_slot < s.current_slot {
        s.warmup_pause_slot
    } else {
        s.current_slot
    };
    let exempt = match e {
        Exempt::Nobody => false,
        Exempt::One(x) => x == i,
        Exempt::Marked => s.adl_exclude_scratch[i] != 0,
    };
    let vested = if slot > a.warmup_started_at_slot {
        a.warmup_slope_per_step@ * (slot - a.warmup_started_at_slot)
    } else {
        0
    };
    if !s.used[i] || exempt || a.pnl@ <= a.reserved_pnl + vested {
        0
    } else {
        a.pnl@ - a.reserved_pnl - vested
    }
}

/// Young profit of the first `n` slots.
pub open spec fn young_total(s: EngineState, e: Exempt, n: int) -> int
    decreases n,
{
    if n <= 0 {
        0
    } else {
        young_total(s, e, n - 1) + young(s, e, n - 1)
    }
}

/// What slot `i` has less profit of in `t` than in `s`.
pub open spec fn taken(s: EngineState, t: EngineState, i: int) -> int {
    s.accounts[i].pnl@ - t.accounts[i].pnl@
}

/// What the first `n` slots have less profit of in `t` than in `s`.
pub open spec fn taken_total(s: EngineState, t: EngineState, n: int) -> int
    decreases n,
{
    if n <= 0 {
        0
    } else {
        taken_total(s, t, n - 1) + taken(s, t, n - 1)
    }
}

proof fn lemma_young_is_weight(s: EngineState, e: Exempt, i: int)
    requires
        0 <= i < MAX_ACCOUNTS,
    ensures
        s.adl_weights(e)[i] == young(s, e, i),
{
    let a = s.accounts[i];
    let slot = s.effective_slot();
    let r = a.warmup_slope_per_step@ as int;
    assert(r * 0 == 0) by (nonlinear_arith);
    let n = slot - a.warmup_started_at_slot;
    if n > 0 {
        assert(r * n >= 0) by (nonlinear_arith)
            requires
                r >= 0,
                n > 0,
        ;
    }
}

proof fn lemma_young_total(s: EngineState, e: Exempt, n: int)
    requires
        0 <= n <= MAX_ACCOUNTS,
    ensures
        young_total(s, e, n) == sum_to(s.adl_weights(e), n),
    decreases n,
{
    if n > 0 {
        lemma_young_total(s, e, n - 1);
        lemma_young_is_weight(s, e, n - 1);
    }
}

proof fn lemma_taken(s: EngineState, e: Exempt, loss: int, i: int)
    requires
        s.wf(),
        loss > 0,
        0 <= i < MAX_ACCOUNTS,
        s.deleverage(loss, e).1 is Ok,
    ensures
        taken(s, s.deleverage(loss, e).0, i) == cuts(s.adl_weights(e), loss)[i],
{
    let w = s.adl_weights(e);
    lemma_weights_ok(s, e);
    lemma_cut_bound(w, loss, i);
}

proof fn lemma_taken_total(s: EngineState, e: Exempt, loss: int, n: int)
    requires
        s.wf(),
        loss > 0,
        0 <= n <= MAX_ACCOUNTS,
        s.deleverage(loss, e).1 is Ok,
    ensures
        taken_total(s, s.deleverage(loss, e).0, n) == sum_to(cuts(s.adl_weights(e), loss), n),
    decreases n,
{
    if n > 0 {
        lemma_taken_total(s, e, loss, n - 1);
        lemma_taken(s, e, loss, n - 1);
    }
}

/// A loss is taken off young profit first, all of it if there is as much. Each account bears a
/// part in proportion to its young profit, up to less than one unit, and never more than it
/// has. Exempt accounts bear nothing.
pub proof fn law_young_profit_bears_loss(s: EngineState, loss: int, e: Exempt)
    requires
        s.wf(),
        loss > 0,
        young_total(s, e, MAX_ACCOUNTS as int) <= u128::MAX,
        s.deleverage(loss, e).1 is Ok,
    ensures
        ({
            let t = s.deleverage(loss, e).0;
            let total = young_total(s, e, MAX_ACCOUNTS as int);
            let born = taken_total(s, t, MAX_ACCOUNTS as int);
            &&& loss <= total ==> born == loss
            &&& loss > total ==> born == total
            &&& forall|i: int|
                0 <= i < MAX_ACCOUNTS ==> 0 <= #[trigger] taken(s, t, i) <= young(s, e, i)
            &&& forall|i: int|
                0 <= i < MAX_ACCOUNTS && total > 0 ==> born * young(s, e, i) - total < (
                #[trigger] taken(s, t, i)) * total < born * young(s, e, i) + total
        }),
{
    let t = s.deleverage(loss, e).0;
    let w = s.adl_weights(e);
    let n = MAX_ACCOUNTS as int;
    lemma_young_total(s, e, n);
    lemma_taken_total(s, e, loss, n);
    lemma_weights_ok(s, e);
    lemma_sum_nonneg(w, n);
    law_cuts_are_exact(w, loss);
    assert forall|i: int| 0 <= i < MAX_ACCOUNTS implies 0 <= #[trigger] taken(s, t, i) <= young(
        s,
        e,
        i,
    ) by {
        lemma_taken(s, e, loss, i);
        lemma_young_is_weight(s, e, i);
        lemma_cut_bound(w, loss, i);
    }
    let total = young_total(s, e, n);
    let born = taken_total(s, t, n);
    if total > 0 {
        assert forall|i: int| 0 <= i < MAX_ACCOUNTS implies born * young(s, e, i) - total < (
        #[trigger] taken(s, t, i)) * total < born * young(s, e, i) + total by {
            lemma_taken(s, e, loss, i);
            lemma_young_is_weight(s, e, i);
            law_cuts_are_proportional(w, loss, i);
        }
    }
}

/// Where rounding leaves units over, they go to the accounts that it cost most, and among
/// these to the one in the lower slot: who got a unit was owed at least as large a part of one
/// as who was owed a part and got none.
pub proof fn law_largest_remainders_bear_units(
    s: EngineState,
    loss: int,
    e: Exempt,
    i: int,
    j: int,
)
    requires
        s.wf(),
        loss > 0,
        0 < young_total(s, e, MAX_ACCOUNTS as int) <= u128::MAX,
        s.deleverage(loss, e).1 is Ok,
        0 <= i < MAX_ACCOUNTS,
        0 <= j < MAX_ACCOUNTS,
        ({
            let t = s.deleverage(loss, e).0;
            let total = young_total(s, e, MAX_ACCOUNTS as int);
            let born = taken_total(s, t, MAX_ACCOUNTS as int);
            &&& taken(s, t, i) * total > born * young(s, e, i)
            &&& taken(s, t, j) * total < born * young(s, e, j)
        }),
    ensures
        ({
            let t = s.deleverage(loss, e).0;
            let total = young_total(s, e, MAX_ACCOUNTS as int);
            let born = taken_total(s, t, MAX_ACCOUNTS as int);
            let part = born * young(s, e, i) - (taken(s, t, i) - 1) * total;
            let other = born * young(s, e, j) - taken(s, t, j) * total;
            part > other || (part == other && i < j)
        }),
{
    let t = s.deleverage(loss, e).0;
    let w = s.adl_weights(e);
    let n = MAX_ACCOUNTS as int;
    lemma_young_total(s, e, n);
    lemma_taken_total(s, e, loss, n);
    lemma_weights_ok(s, e);
    law_cuts_are_exact(w, loss);
    lemma_taken(s, e, loss, i);
    lemma_taken(s, e, loss, j);
    lemma_young_is_weight(s, e, i);
    lemma_young_is_weight(s, e, j);
    lemma_share_bound(w, loss, i);
    lemma_share_bound(w, loss, j);
    let total = total_weight(w);
    let r = remainders(w, loss);
    let p = share(w, loss, i);
    let q = share(w, loss, j);
    assert((p + 1 - 1) * total == p * total && (q + 1) * total == q * total + total)
        by (nonlinear_arith);
    assert(among_first(r, i, units_left(w, loss)));
    assert(!among_first(r, j, units_left(w, loss)));
    lemma_rank_orders(r, i, j);
}

proof fn lemma_rank_orders(r: Seq<int>, i: int, j: int)
    requires
        0 <= i < r.len(),
        0 <= j < r.len(),
        rank(r, i) < rank(r, j),
    ensures
        ahead(r, i, j),
{
    if !ahead(r, i, j) {
        lemma_those_ahead(r, i);
        lemma_those_ahead(r, j);
        assert forall|k: int| those_ahead(r, j).contains(k) implies those_ahead(r, i).contains(
            k,
        ) by {
            assert(ahead(r, k, j));
        }
        lemma_len_subset(those_ahead(r, j), those_ahead(r, i));
    }
}

/// What young profit does not bear of a loss, insurance above floor and reserve pays, and what
/// that does not cover is accumulated. Where anything is, or the floor is reached, only risk is
/// reduced from then on. Vault and capital are not touched.
pub proof fn law_insurance_bears_the_rest(s: EngineState, loss: int, e: Exempt)
    requires
        s.wf(),
        loss > 0,
        young_total(s, e, MAX_ACCOUNTS as int) <= u128::MAX,
        s.loss_accum@ + loss <= u128::MAX,
        s.deleverage(loss, e).1 is Ok,
    ensures
        ({
            let t = s.deleverage(loss, e).0;
            let rest = loss - taken_total(s, t, MAX_ACCOUNTS as int);
            let free = s.insurance_fund.balance@ - s.params.risk_reduction_threshold@
                - s.warmup_insurance_reserved@;
            let spent = s.insurance_fund.balance@ - t.insurance_fund.balance@;
            let piled = t.loss_accum@ - s.loss_accum@;
            &&& spent + piled == rest
            &&& free <= 0 ==> spent == 0
            &&& 0 < free && rest <= free ==> spent == rest
            &&& 0 < free < rest ==> spent == free
            &&& if rest > 0 && (piled > 0 || t.insurance_fund.balance@
                <= s.params.risk_reduction_threshold@) {
                t.risk_reduction_only && t.warmup_paused
            } else {
                t.risk_reduction_only == s.risk_reduction_only && t.warmup_paused
                    == s.warmup_paused
            }
            &&& t.insurance_fund.fee_revenue == s.insurance_fund.fee_revenue
            &&& t.vault == s.vault
            &&& forall|i: int|
                0 <= i < MAX_ACCOUNTS ==> (#[trigger] t.accounts[i]).capital
                    == s.accounts[i].capital && t.accounts[i].position_size
                    == s.accounts[i].position_size
        }),
{
    let w = s.adl_weights(e);
    let n = MAX_ACCOUNTS as int;
    let c = cuts(w, loss);
    law_young_profit_bears_loss(s, loss, e);
    lemma_taken_total(s, e, loss, n);
    lemma_young_total(s, e, n);
    lemma_weights_ok(s, e);
    law_cuts_are_exact(w, loss);
    lemma_sum_nonneg(w, n);
    let t = s.deleverage(loss, e).0;
    let u = s.with_cuts(c, n);
    let rest = loss - sum(c);
    assert(rest == loss - taken_total(s, t, n));
    assert(t == u.with_loss_covered(rest).with_reserve());
    assert(0 <= u.spendable_unreserved() <= u.insurance_fund.balance@);
}

/// No loss, no change.
pub proof fn law_no_loss_is_shared_at_no_cost(s: EngineState, e: Exempt)
    ensures
        s.deleverage(0, e).0 == s,
        s.deleverage(0, e).1 is Ok,
{
}

/// A loss is shared wherever it times the young profit of each account is in range.
pub proof fn law_loss_in_range_is_shared(s: EngineState, loss: int, e: Exempt)
    requires
        s.wf(),
        loss >= 0,
        young_total(s, e, MAX_ACCOUNTS as int) <= u128::MAX,
        forall|i: int| 0 <= i < MAX_ACCOUNTS ==> loss * #[trigger] young(s, e, i) <= u128::MAX,
    ensures
        s.deleverage(loss, e).1 is Ok,
{
    let w = s.adl_weights(e);
    lemma_weights_ok(s, e);
    if borne(w, loss) > 0 {
        assert forall|i: int| 0 <= i < w.len() implies !crate::haircut::too_big(w, loss, i) by {
            lemma_young_is_weight(s, e, i);
            let x = young(s, e, i);
            let l = borne(w, loss);
            assert(l * x <= loss * x) by (nonlinear_arith)
                requires
                    l <= loss,
                    x >= 0,
            ;
        }
        lemma_none_too_big(w, loss, 0);
    }
}

proof fn lemma_none_too_big(w: Seq<int>, loss: int, i: int)
    requires
        0 <= i <= w.len(),
        forall|k: int| 0 <= k < w.len() ==> !crate::haircut::too_big(w, loss, k),
    ensures
        crate::haircut::first_too_big(w, loss, i) == w.len(),
    decreases w.len() - i,
{
    if i < w.len() {
        lemma_none_too_big(w, loss, i + 1);
    }
}

/// Whoever is left out by name bears nothing, and with nobody named nobody is left out.
pub proof fn law_named_account_is_left_out(s: EngineState, loss: int, i: usize)
    requires
        s.wf(),
        i < MAX_ACCOUNTS,
    ensures
        s.deleverage(loss, exempt_of(Some(i))).0.accounts[i as int] == s.accounts[i as int],
        exempt_of(None) == Exempt::Nobody,
        forall|j: int|
            j != i && 0 <= j < MAX_ACCOUNTS ==> #[trigger] young(s, exempt_of(Some(i)), j)
                == young(s, Exempt::Nobody, j),
{
    law_adl_spares_exempt(s, loss, exempt_of(Some(i)), i as int);
}

} // verus!
