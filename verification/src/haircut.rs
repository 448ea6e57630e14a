//! Pro-rata haircuts by the largest-remainder method, over the unlimited integers.
//!
//! A loss is shared among weights in proportion, rounded down, and the units that rounding
//! leaves over go one each to the largest remainders; among equal remainders the lower index
//! comes first.
use vstd::prelude::*;
use vstd::set_lib::{lemma_int_range, lemma_len_subset, set_int_range};

use crate::math::{max_int, min_int, monus};

verus! {

/// Sum of the first `n` numbers.
pub open spec fn sum_to(s: Seq<int>, n: int) -> int
    decreases n,
{
    if n <= 0 {
        0
    } else {
        sum_to(s, n - 1) + s[n - 1]
    }
}

pub open spec fn sum(s: Seq<int>) -> int {
    sum_to(s, s.len() as int)
}

/// The sum of the weights, clamped to the range of `u128`.
pub open spec fn total_weight(w: Seq<int>) -> int {
    min_int(sum(w), u128::MAX as int)
}

/// The part of the loss that the weights can bear.
pub open spec fn borne(w: Seq<int>, loss: int) -> int {
    min_int(loss, total_weight(w))
}

/// The share of index `i` in the loss, rounded down.
pub open spec fn share(w: Seq<int>, loss: int, i: int) -> int {
    (borne(w, loss) * w[i]) / total_weight(w)
}

/// What rounding took off the share of index `i`, in parts of the total weight.
pub open spec fn remainder(w: Seq<int>, loss: int, i: int) -> int {
    (borne(w, loss) * w[i]) % total_weight(w)
}

pub open spec fn shares(w: Seq<int>, loss: int) -> Seq<int> {
    Seq::new(w.len(), |i: int| share(w, loss, i))
}

pub open spec fn remainders(w: Seq<int>, loss: int) -> Seq<int> {
    Seq::new(w.len(), |i: int| remainder(w, loss, i))
}

/// Units of the loss that the shares leave over.
pub open spec fn units_left(w: Seq<int>, loss: int) -> int {
    monus(borne(w, loss), sum(shares(w, loss)))
}

/// Whether index `a` comes before index `b`: by larger remainder, then by lower index.
pub open spec fn ahead(r: Seq<int>, a: int, b: int) -> bool {
    r[a] > r[b] || (r[a] == r[b] && a < b)
}

/// The indices that come before index `i`.
pub open spec fn those_ahead(r: Seq<int>, i: int) -> Set<int> {
    set_int_range(0, r.len() as int).filter(|j: int| ahead(r, j, i))
}

/// How many indices come before index `i`.
pub open spec fn rank(r: Seq<int>, i: int) -> nat {
    those_ahead(r, i).len()
}

/// Whether index `i` is among the first `n` of those with a remainder.
pub open spec fn among_first(r: Seq<int>, i: int, n: int) -> bool {
    r[i] > 0 && rank(r, i) < n
}

/// What index `i` bears: its share, and a unit if its remainder is large enough.
pub open spec fn cut(w: Seq<int>, loss: int, i: int) -> int {
    if borne(w, loss) <= 0 {
        0
    } else {
        share(w, loss, i) + if among_first(remainders(w, loss), i, units_left(w, loss)) {
            1int
        } else {
            0
        }
    }
}

pub open spec fn cuts(w: Seq<int>, loss: int) -> Seq<int> {
    Seq::new(w.len(), |i: int| cut(w, loss, i))
}

/// Whether the share of index `i` needs a product beyond the range of `u128`.
pub open spec fn too_big(w: Seq<int>, loss: int, i: int) -> bool {
    borne(w, loss) * w[i] > u128::MAX
}

/// The first index from `i` on whose share needs too large a product, or the number of
/// indices.
pub open spec fn first_too_big(w: Seq<int>, loss: int, i: int) -> int
    decreases w.len() - i,
{
    if i >= w.len() {
        w.len() as int
    } else if too_big(w, loss, i) {
        i
    } else {
        first_too_big(w, loss, i + 1)
    }
}

/// Weights as they occur: none is negative.
pub open spec fn weights_ok(w: Seq<int>) -> bool {
    forall|i: int| 0 <= i < w.len() ==> #[trigger] w[i] >= 0
}

pub proof fn lemma_sum_nonneg(s: Seq<int>, n: int)
    requires
        n <= s.len(),
        weights_ok(s),
    ensures
        sum_to(s, n) >= 0,
        forall|i: int| 0 <= i < n ==> #[trigger] s[i] <= sum_to(s, n),
    decreases n,
{
    if n > 0 {
        lemma_sum_nonneg(s, n - 1);
    }
}

pub proof fn lemma_sum_monotone(s: Seq<int>, m: int, n: int)
    requires
        m <= n <= s.len(),
        weights_ok(s),
    ensures
        sum_to(s, m) <= sum_to(s, n),
    decreases n,
{
    if m < n && n > 0 {
        lemma_sum_monotone(s, m, n - 1);
    }
}

pub proof fn lemma_sum_ext(a: Seq<int>, b: Seq<int>, n: int)
    requires
        n <= a.len(),
        n <= b.len(),
        forall|i: int| 0 <= i < n ==> a[i] == b[i],
    ensures
        sum_to(a, n) == sum_to(b, n),
    decreases n,
{
    if n > 0 {
        lemma_sum_ext(a, b, n - 1);
    }
}

pub proof fn lemma_sum_zero(c: Seq<int>, n: int)
    requires
        n <= c.len(),
        forall|i: int| 0 <= i < n ==> #[trigger] c[i] == 0,
    ensures
        sum_to(c, n) == 0,
    decreases n,
{
    if n > 0 {
        lemma_sum_zero(c, n - 1);
    }
}

pub proof fn lemma_sum_update(s: Seq<int>, i: int, v: int, n: int)
    requires
        0 <= i < s.len(),
        0 <= n <= s.len(),
    ensures
        sum_to(s.update(i, v), n) == sum_to(s, n) + if i < n {
            v - s[i]
        } else {
            0
        },
    decreases n,
{
    if n > 0 {
        lemma_sum_update(s, i, v, n - 1);
    }
}

/// A share is at most the weight, and less where it leaves a remainder.
pub proof fn lemma_share_bound(w: Seq<int>, loss: int, i: int)
    requires
        weights_ok(w),
        0 <= i < w.len(),
        borne(w, loss) > 0,
    ensures
        0 <= share(w, loss, i) <= w[i],
        remainder(w, loss, i) > 0 ==> share(w, loss, i) < w[i],
        0 <= remainder(w, loss, i) < total_weight(w),
        borne(w, loss) * w[i] == share(w, loss, i) * total_weight(w) + remainder(w, loss, i),
        w[i] == 0 ==> share(w, loss, i) == 0 && remainder(w, loss, i) == 0,
        borne(w, loss) * w[i] >= 0,
{
    let l = borne(w, loss);
    let t = total_weight(w);
    let x = w[i];
    let q = share(w, loss, i);
    let r = remainder(w, loss, i);
    assert(l * x >= 0) by (nonlinear_arith)
        requires
            l > 0,
            x >= 0,
    ;
    assert(l * x <= t * x) by (nonlinear_arith)
        requires
            l <= t,
            x >= 0,
    ;
    vstd::arithmetic::div_mod::lemma_fundamental_div_mod(l * x, t);
    vstd::arithmetic::div_mod::lemma_div_pos_is_pos(l * x, t);
    assert(l * x == q * t + r) by (nonlinear_arith)
        requires
            l * x == t * q + r,
    ;
    assert(q <= x && (r > 0 ==> q < x)) by (nonlinear_arith)
        requires
            q * t + r <= t * x,
            r >= 0,
            t > 0,
    ;
    if x == 0 {
        assert(l * x == 0) by (nonlinear_arith)
            requires
                x == 0,
        ;
        assert(r == 0 && q == 0) by (nonlinear_arith)
            requires
                q * t + r == 0,
                q >= 0,
                r >= 0,
                t > 0,
        ;
    }
}

/// The shares add up to no more than the loss; where the total weight had to be clamped,
/// each is at most one.
pub proof fn lemma_shares_bound(w: Seq<int>, loss: int, n: int)
    requires
        weights_ok(w),
        0 <= n <= w.len(),
        borne(w, loss) > 0,
        forall|i: int| 0 <= i < n ==> !too_big(w, loss, i),
    ensures
        0 <= sum_to(shares(w, loss), n) <= max_int(borne(w, loss), n),
        sum(w) <= u128::MAX ==> sum_to(shares(w, loss), n) <= borne(w, loss),
{
    let l = borne(w, loss);
    let t = total_weight(w);
    let q = shares(w, loss);
    lemma_shares_scaled(w, loss, n);
    assert(weights_ok(q)) by {
        assert forall|i: int| 0 <= i < q.len() implies #[trigger] q[i] >= 0 by {
            lemma_share_bound(w, loss, i);
        }
    }
    lemma_sum_nonneg(q, n);
    lemma_sum_monotone(w, n, w.len() as int);
    if sum(w) <= u128::MAX {
        assert(sum_to(q, n) <= l) by (nonlinear_arith)
            requires
                sum_to(q, n) * t <= l * sum_to(w, n),
                sum_to(w, n) <= t,
                l > 0,
                t > 0,
        ;
    } else {
        assert forall|i: int| 0 <= i < n implies #[trigger] q[i] <= 1 by {
            lemma_share_bound(w, loss, i);
            assert(!too_big(w, loss, i));
            let x = q[i];
            assert(x <= 1) by (nonlinear_arith)
                requires
                    x * t <= t,
                    t > 0,
            ;
        }
        lemma_sum_small(q, n);
    }
}

proof fn lemma_sum_small(s: Seq<int>, n: int)
    requires
        0 <= n <= s.len(),
        forall|i: int| 0 <= i < n ==> #[trigger] s[i] <= 1,
    ensures
        sum_to(s, n) <= n,
    decreases n,
{
    if n > 0 {
        lemma_sum_small(s, n - 1);
    }
}

/// The shares of a prefix, scaled by the total weight, and its remainders make up the
/// products.
pub proof fn lemma_shares_scaled(w: Seq<int>, loss: int, n: int)
    requires
        weights_ok(w),
        0 <= n <= w.len(),
        borne(w, loss) > 0,
    ensures
        sum_to(shares(w, loss), n) * total_weight(w) + sum_to(remainders(w, loss), n) == borne(
            w,
            loss,
        ) * sum_to(w, n),
        sum_to(remainders(w, loss), n) >= 0,
        sum_to(shares(w, loss), n) * total_weight(w) <= borne(w, loss) * sum_to(w, n),
    decreases n,
{
    let l = borne(w, loss);
    let t = total_weight(w);
    if n > 0 {
        lemma_shares_scaled(w, loss, n - 1);
        lemma_share_bound(w, loss, n - 1);
        let a = sum_to(shares(w, loss), n - 1);
        let q = share(w, loss, n - 1);
        let b = sum_to(w, n - 1);
        let x = w[n - 1];
        assert((a + q) * t == a * t + q * t) by (nonlinear_arith);
        assert(l * (b + x) == l * b + l * x) by (nonlinear_arith);
    } else {
        assert(0 * t == 0 && l * 0 == 0) by (nonlinear_arith);
    }
}

pub proof fn lemma_those_ahead(r: Seq<int>, i: int)
    ensures
        those_ahead(r, i).finite(),
        forall|j: int|
            #![trigger those_ahead(r, i).contains(j)]
            those_ahead(r, i).contains(j) <==> 0 <= j < r.len() && ahead(r, j, i),
{
    lemma_int_range(0, r.len() as int);
}

/// The set of the first `n` indices with a remainder, known by its members being ahead of
/// all others.
pub proof fn lemma_first_by_rank(r: Seq<int>, p: Set<int>, n: int)
    requires
        p.finite(),
        p.len() == n,
        forall|i: int| p.contains(i) ==> 0 <= i < r.len() && r[i] > 0,
        forall|i: int, j: int|
            #![trigger p.contains(i), r[j]]
            p.contains(i) && 0 <= j < r.len() && r[j] > 0 && !p.contains(j) ==> ahead(r, i, j),
    ensures
        forall|i: int| 0 <= i < r.len() ==> (#[trigger] p.contains(i) <==> among_first(r, i, n)),
{
    assert forall|i: int| 0 <= i < r.len() implies (#[trigger] p.contains(i) <==> among_first(
        r,
        i,
        n,
    )) by {
        let q = those_ahead(r, i);
        lemma_those_ahead(r, i);
        if p.contains(i) {
            assert(q.subset_of(p.remove(i))) by {
                assert forall|j: int| q.contains(j) implies p.remove(i).contains(j) by {
                    if !p.contains(j) {
                        assert(r[j] > 0);
                        assert(ahead(r, i, j));
                    }
                }
            }
            lemma_len_subset(q, p.remove(i));
        } else if r[i] > 0 {
            assert(p.subset_of(q)) by {
                assert forall|j: int| p.contains(j) implies q.contains(j) by {
                    assert(ahead(r, j, i));
                }
            }
            lemma_len_subset(p, q);
        }
    }
}

/// The numbers, each raised by one where its index is in `p`.
pub open spec fn raised(q: Seq<int>, p: Set<int>) -> Seq<int> {
    Seq::new(
        q.len(),
        |i: int|
            q[i] + if p.contains(i) {
                1int
            } else {
                0
            },
    )
}

/// Raising numbers by one adds one for each to their sum.
pub proof fn lemma_raised_sum(q: Seq<int>, p: Set<int>)
    requires
        p.finite(),
        forall|i: int| #[trigger] p.contains(i) ==> 0 <= i < q.len(),
    ensures
        sum(raised(q, p)) == sum(q) + p.len(),
    decreases p.len(),
{
    if p.len() == 0 {
        p.lemma_len0_is_empty();
        assert(raised(q, p) =~= q);
    } else {
        let a = p.choose();
        let p1 = p.remove(a);
        lemma_raised_sum(q, p1);
        let c1 = raised(q, p1);
        lemma_sum_update(c1, a, c1[a] + 1, c1.len() as int);
        assert(raised(q, p) =~= c1.update(a, c1[a] + 1));
    }
}

} // verus!
