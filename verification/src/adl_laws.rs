//! What holds of deleveraging and socialization, whatever the loss.
use vstd::prelude::*;
use vstd::set_lib::{lemma_int_range, lemma_len_subset, set_int_range};

use crate::adl::{lemma_weights_ok, Exempt};
use crate::haircut::{
    ahead, among_first, borne, cut, cuts, lemma_raised_sum, lemma_share_bound, lemma_shares_scaled,
    lemma_sum_nonneg, lemma_sum_zero, lemma_those_ahead, raised, remainder, remainders, share,
    shares, sum, sum_to, those_ahead, total_weight, units_left, weights_ok,
};
use crate::math::min_int;
use crate::state::EngineState;
use crate::types::{Account, MAX_ACCOUNTS};

verus! {

broadcast use crate::wide::group_wide;

/// Two states hold the same accounts but for their profits.
pub open spec fn differ_in_profit_only(s: EngineState, t: EngineState) -> bool {
    &&& s.used == t.used
    &&& s.accounts.len() == t.accounts.len()
    &&& forall|i: int|
        0 <= i < s.accounts.len() ==> #[trigger] t.accounts[i] == (Account {
            pnl: t.accounts[i].pnl,
            ..s.accounts[i]
        })
}

/// Deleveraging takes nothing but profit: capital and all else that an account holds stay as
/// they are, even where it fails.
pub proof fn law_adl_takes_only_profit(s: EngineState, loss: int, e: Exempt)
    requires
        s.wf(),
    ensures
        differ_in_profit_only(s, s.deleverage(loss, e).0),
        forall|i: int|
            0 <= i < MAX_ACCOUNTS ==> (#[trigger] s.deleverage(loss, e).0.accounts[i]).capital
                == s.accounts[i].capital,
{
}

/// Bounded socialization takes nothing but profit.
pub proof fn law_socialization_takes_only_profit(s: EngineState, idx: int, slot: u64, epoch: u16)
    requires
        s.wf(),
        0 <= idx < MAX_ACCOUNTS,
    ensures
        differ_in_profit_only(s, s.sweep_socialize(idx, slot, epoch)),
{
}

/// An account that is exempt, or has no profit, is left as it is.
pub proof fn law_adl_spares_exempt(s: EngineState, loss: int, e: Exempt, i: int)
    requires
        s.wf(),
        0 <= i < MAX_ACCOUNTS,
        s.is_exempt(e, i) || !s.used[i] || s.accounts[i].pnl@ <= 0,
    ensures
        s.deleverage(loss, e).0.accounts[i] == s.accounts[i],
{
    lemma_weights_ok(s, e);
    assert(s.adl_weights(e)[i] >= 0);
    lemma_zero_weight_spared(s, loss, e, i);
}

proof fn lemma_zero_weight_spared(s: EngineState, loss: int, e: Exempt, i: int)
    requires
        s.wf(),
        0 <= i < MAX_ACCOUNTS,
        weights_ok(s.adl_weights(e)),
        s.adl_weights(e)[i] == 0,
    ensures
        s.deleverage(loss, e).0.accounts[i] == s.accounts[i],
{
    let w = s.adl_weights(e);
    if borne(w, loss) > 0 {
        lemma_share_bound(w, loss, i);
    }
    lemma_cut_bound(w, loss, i);
}

/// No account loses profit that is reserved or has matured, and none is left with a loss that
/// it did not have.
pub proof fn law_adl_spares_matured_profit(s: EngineState, loss: int, e: Exempt, i: int)
    requires
        s.wf(),
        0 <= i < MAX_ACCOUNTS,
    ensures
        ({
            let a = s.accounts[i];
            let b = s.deleverage(loss, e).0.accounts[i];
            &&& b.pnl@ <= a.pnl@
            &&& a.pnl@ > 0 ==> b.pnl@ >= min_int(
                a.pnl@ as int,
                a.reserved_pnl + a.matured_pnl(s.effective_slot()),
            )
            &&& a.pnl@ <= 0 ==> b.pnl@ == a.pnl@
        }),
{
    let w = s.adl_weights(e);
    lemma_weights_ok(s, e);
    lemma_cut_bound(w, loss, i);
    if borne(w, loss) > 0 {
        lemma_share_bound(w, loss, i);
    }
}

/// A cut is at most the weight, and the share up to one unit.
pub proof fn lemma_cut_bound(w: Seq<int>, loss: int, i: int)
    requires
        weights_ok(w),
        0 <= i < w.len(),
    ensures
        0 <= cut(w, loss, i) <= w[i],
        borne(w, loss) > 0 ==> share(w, loss, i) <= cut(w, loss, i) <= share(w, loss, i) + 1,
{
    if borne(w, loss) > 0 {
        lemma_share_bound(w, loss, i);
    }
}

/// Every cut is proportional to the weight, up to less than one unit.
pub proof fn law_cuts_are_proportional(w: Seq<int>, loss: int, i: int)
    requires
        weights_ok(w),
        0 <= i < w.len(),
        borne(w, loss) > 0,
    ensures
        ({
            let exact = borne(w, loss) * w[i];
            let c = cut(w, loss, i) * total_weight(w);
            exact - total_weight(w) < c < exact + total_weight(w)
        }),
{
    lemma_share_bound(w, loss, i);
    let t = total_weight(w);
    let q = share(w, loss, i);
    let r = remainder(w, loss, i);
    let c = cut(w, loss, i);
    if c == q + 1 {
        assert(remainders(w, loss)[i] > 0);
        assert((q + 1) * t == q * t + t) by (nonlinear_arith);
    }
}

/// The shares and the units left over make up the loss, and fewer units are left over than
/// there are remainders.
proof fn lemma_units_left(w: Seq<int>, loss: int)
    requires
        weights_ok(w),
        borne(w, loss) > 0,
        sum(w) <= u128::MAX,
    ensures
        units_left(w, loss) == borne(w, loss) - sum(shares(w, loss)),
        units_left(w, loss) * total_weight(w) == sum(remainders(w, loss)),
{
    let n = w.len() as int;
    let l = borne(w, loss);
    let t = total_weight(w);
    lemma_shares_scaled(w, loss, n);
    let a = sum(shares(w, loss));
    let r = sum(remainders(w, loss));
    assert(r >= 0) by {
        assert(weights_ok(remainders(w, loss))) by {
            assert forall|i: int| 0 <= i < n implies #[trigger] remainders(w, loss)[i] >= 0 by {
                lemma_share_bound(w, loss, i);
            }
        }
        lemma_sum_nonneg(remainders(w, loss), n);
    }
    assert(a * t + r == l * t);
    assert((l - a) * t == l * t - a * t) by (nonlinear_arith);
    assert(a <= l) by (nonlinear_arith)
        requires
            a * t + r == l * t,
            r >= 0,
            t > 0,
    ;
}

/// The indices with a remainder, among the first `n`.
spec fn with_remainder(r: Seq<int>, n: int) -> Set<int> {
    set_int_range(0, n).filter(|i: int| r[i] > 0)
}

proof fn lemma_with_remainder(r: Seq<int>, n: int)
    requires
        0 <= n,
    ensures
        with_remainder(r, n).finite(),
        forall|i: int|
            #![trigger with_remainder(r, n).contains(i)]
            with_remainder(r, n).contains(i) <==> 0 <= i < n && r[i] > 0,
{
    lemma_int_range(0, n);
}

/// The remainders add up to less than as many totals as there are remainders.
proof fn lemma_remainders_small(r: Seq<int>, t: int, n: int)
    requires
        0 <= n <= r.len(),
        t > 0,
        forall|i: int| 0 <= i < r.len() ==> 0 <= #[trigger] r[i] < t,
    ensures
        sum_to(r, n) <= with_remainder(r, n).len() * t,
        with_remainder(r, n).len() > 0 ==> sum_to(r, n) < with_remainder(r, n).len() * t,
    decreases n,
{
    lemma_with_remainder(r, n);
    if n > 0 {
        lemma_remainders_small(r, t, n - 1);
        lemma_with_remainder(r, n - 1);
        let p = with_remainder(r, n - 1);
        let k = p.len() as int;
        assert((k + 1) * t == k * t + t) by (nonlinear_arith);
        if r[n - 1] > 0 {
            assert(with_remainder(r, n) =~= p.insert(n - 1));
        } else {
            assert(with_remainder(r, n) =~= p);
        }
    } else {
        assert(with_remainder(r, n) =~= Set::<int>::empty());
        assert(0 * t == 0) by (nonlinear_arith);
    }
}

/// There are exactly `n` indices among the first `n` with a remainder, if there are that many
/// with a remainder at all.
proof fn lemma_first_exist(r: Seq<int>, n: int) -> (p: Set<int>)
    requires
        0 <= n <= with_remainder(r, r.len() as int).len(),
    ensures
        p.finite(),
        p.len() == n,
        forall|i: int| #[trigger] p.contains(i) ==> 0 <= i < r.len(),
        forall|i: int| 0 <= i < r.len() ==> (#[trigger] p.contains(i) <==> among_first(r, i, n)),
    decreases n,
{
    let all = with_remainder(r, r.len() as int);
    lemma_with_remainder(r, r.len() as int);
    if n == 0 {
        Set::empty()
    } else {
        let q = lemma_first_exist(r, n - 1);
        assert(exists|i: int| #[trigger] all.contains(i) && !q.contains(i)) by {
            if forall|i: int| #[trigger] all.contains(i) ==> q.contains(i) {
                assert(all.subset_of(q));
                lemma_len_subset(all, q);
            }
        }
        let c = choose|i: int| #[trigger] all.contains(i) && !q.contains(i);
        let best = lemma_best(r, q, r.len() as int, c);
        let p = q.insert(best);
        assert forall|i: int, j: int|
            #![trigger p.contains(i), r[j]]
            p.contains(i) && 0 <= j < r.len() && r[j] > 0 && !p.contains(j) implies ahead(
            r,
            i,
            j,
        ) by {
            if i != best {
                lemma_rank_orders(r, i, j, n - 1);
            }
        }
        crate::haircut::lemma_first_by_rank(r, p, n);
        p
    }
}

/// Of two indices with a remainder, the one among the first comes before the one that is not.
proof fn lemma_rank_orders(r: Seq<int>, i: int, j: int, n: int)
    requires
        0 <= i < r.len(),
        0 <= j < r.len(),
        r[j] > 0,
        among_first(r, i, n),
        !among_first(r, j, n),
    ensures
        ahead(r, i, j),
{
    if !ahead(r, i, j) {
        lemma_those_ahead(r, i);
        lemma_those_ahead(r, j);
        assert(those_ahead(r, j).subset_of(those_ahead(r, i))) by {
            assert forall|k: int| those_ahead(r, j).contains(k) implies those_ahead(
                r,
                i,
            ).contains(k) by {
                assert(ahead(r, k, j));
            }
        }
        lemma_len_subset(those_ahead(r, j), those_ahead(r, i));
    }
}

/// The index that comes first among those with a remainder that are not in `q`.
proof fn lemma_best(r: Seq<int>, q: Set<int>, n: int, c: int) -> (best: int)
    requires
        0 <= n <= r.len(),
        0 <= c < r.len(),
        r[c] > 0,
        !q.contains(c),
    ensures
        0 <= best < r.len(),
        r[best] > 0,
        !q.contains(best),
        best == c || ahead(r, best, c),
        forall|j: int|
            0 <= j < n && #[trigger] r[j] > 0 && !q.contains(j) ==> j == best || ahead(r, best, j),
    decreases n,
{
    if n == 0 {
        c
    } else {
        let b = lemma_best(r, q, n - 1, c);
        if r[n - 1] > 0 && !q.contains(n - 1) && ahead(r, n - 1, b) {
            n - 1
        } else {
            b
        }
    }
}

proof fn lemma_sum_with_units(w: Seq<int>, loss: int, p: Set<int>)
    requires
        p.finite(),
        borne(w, loss) > 0,
        forall|i: int| #[trigger] p.contains(i) ==> 0 <= i < w.len(),
        forall|i: int|
            0 <= i < w.len() ==> (#[trigger] p.contains(i) <==> among_first(
                remainders(w, loss),
                i,
                units_left(w, loss),
            )),
    ensures
        sum(cuts(w, loss)) == sum(shares(w, loss)) + p.len(),
{
    let q = shares(w, loss);
    lemma_raised_sum(q, p);
    assert(cuts(w, loss) =~= raised(q, p));
}

/// The cuts add up to exactly what the weights bear: nothing is lost to rounding.
pub proof fn law_cuts_are_exact(w: Seq<int>, loss: int)
    requires
        weights_ok(w),
        loss >= 0,
        sum(w) <= u128::MAX,
    ensures
        sum(cuts(w, loss)) == borne(w, loss),
{
    let n = w.len() as int;
    lemma_sum_nonneg(w, n);
    if borne(w, loss) <= 0 {
        lemma_sum_zero(cuts(w, loss), n);
    } else {
        let t = total_weight(w);
        let r = remainders(w, loss);
        assert forall|i: int| 0 <= i < r.len() implies 0 <= #[trigger] r[i] < t by {
            lemma_share_bound(w, loss, i);
        }
        lemma_units_left(w, loss);
        lemma_remainders_small(r, t, n);
        let k = with_remainder(r, n).len() as int;
        let u = units_left(w, loss);
        assert(u <= k) by (nonlinear_arith)
            requires
                u * t <= k * t,
                t > 0,
        ;
        let p = lemma_first_exist(r, u);
        lemma_sum_with_units(w, loss, p);
    }
}

/// Insurance is spent only as far as it lies above the floor and is not reserved.
pub proof fn law_adl_spares_floor_and_reserve(s: EngineState, loss: int, e: Exempt)
    requires
        s.wf(),
        loss >= 0,
        s.insurance_fund.balance@ >= s.params.risk_reduction_threshold@
            + s.warmup_insurance_reserved@,
    ensures
        s.deleverage(loss, e).0.insurance_fund.balance@ >= s.params.risk_reduction_threshold@
            + s.warmup_insurance_reserved@,
        s.deleverage(loss, e).0.insurance_fund.balance@ <= s.insurance_fund.balance@,
{
    if loss != 0 && s.deleverage(loss, e).1 is Ok {
        let c = cuts(s.adl_weights(e), loss);
        let t = s.with_cuts(c, MAX_ACCOUNTS as int);
        let rest = loss - sum(c);
        assert(t.with_loss_covered(rest).insurance_fund.balance@ >= s.params.risk_reduction_threshold@
            + s.warmup_insurance_reserved@);
    }
}

} // verus!
