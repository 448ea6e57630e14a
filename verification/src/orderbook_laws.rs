//! What holds of the order book as a whole.
use vstd::prelude::*;

use crate::math::min_int;
use crate::orderbook::{
    acceptable, cost_of, fill_of, index_of_id, insert_position, is_sorted, lemma_qty_monotone,
    lemma_reach, live, qty_of, reach, reduced, whole_fills, Book, MAX_ORDERS_PER_SIDE, MatchResult,
    Order, OrderbookError, Side,
};

verus! {

/// No two orders of a side have the same id.
pub open spec fn ids_differ(s: Seq<Order>) -> bool {
    forall|i: int, j: int|
        0 <= i < j < s.len() ==> (#[trigger] s[i]).order_id != (#[trigger] s[j]).order_id
}

impl Book {
    /// No two orders of the book have the same id.
    pub open spec fn distinct_ids(self) -> bool {
        &&& ids_differ(self.bids)
        &&& ids_differ(self.asks)
        &&& forall|i: int, j: int|
            0 <= i < self.bids.len() && 0 <= j < self.asks.len() ==> (
            #[trigger] self.bids[i]).order_id != (#[trigger] self.asks[j]).order_id
    }

    /// All ids in the book have been handed out before the next one.
    pub open spec fn ids_below_next(self) -> bool {
        &&& forall|i: int|
            0 <= i < self.bids.len() ==> (#[trigger] self.bids[i]).order_id < self.next_order_id
        &&& forall|i: int|
            0 <= i < self.asks.len() ==> (#[trigger] self.asks[i]).order_id < self.next_order_id
    }

    /// Where matching an order stops on the side that it is matched to.
    pub open spec fn match_reach(self, side: Side, limit: i64) -> int {
        reach(self.orders(Self::against(side)), side, limit as int, 0)
    }
}

pub proof fn lemma_position(s: Seq<Order>, o: Order, side: Side, i: int)
    requires
        0 <= i <= s.len(),
    ensures
        i <= insert_position(s, o, side, i) <= s.len(),
        forall|k: int|
            i <= k < insert_position(s, o, side, i) ==> !o.precedes(#[trigger] s[k], side),
        insert_position(s, o, side, i) < s.len() ==> o.precedes(
            s[insert_position(s, o, side, i)],
            side,
        ),
    decreases s.len() - i,
{
    if i < s.len() && !o.precedes(s[i], side) {
        lemma_position(s, o, side, i + 1);
    }
}

pub proof fn lemma_index(s: Seq<Order>, id: u64, i: int)
    requires
        0 <= i <= s.len(),
    ensures
        match index_of_id(s, id, i) {
            Some(k) => i <= k < s.len() && s[k].order_id == id,
            None => forall|k: int| i <= k < s.len() ==> (#[trigger] s[k]).order_id != id,
        },
    decreases s.len() - i,
{
    if i < s.len() && s[i].order_id != id {
        lemma_index(s, id, i + 1);
    }
}

proof fn lemma_sorted_insert(s: Seq<Order>, o: Order, side: Side)
    requires
        is_sorted(s, side),
    ensures
        is_sorted(s.insert(insert_position(s, o, side, 0), o), side),
{
    lemma_position(s, o, side, 0);
    let p = insert_position(s, o, side, 0);
    let t = s.insert(p, o);
    assert forall|i: int, j: int| 0 <= i < j < t.len() implies !(#[trigger] t[j]).precedes(
        #[trigger] t[i],
        side,
    ) by {
        if i < p && j == p {
            assert(t[i] == s[i]);
        } else if i == p {
            assert(t[j] == s[j - 1]);
            assert(o.precedes(s[p], side));
            if j - 1 > p {
                assert(!s[j - 1].precedes(s[p], side));
            }
        } else if j < p {
            assert(t[i] == s[i] && t[j] == s[j]);
        } else if i < p {
            assert(t[i] == s[i] && t[j] == s[j - 1]);
        } else {
            assert(t[i] == s[i - 1] && t[j] == s[j - 1]);
        }
    }
}

proof fn lemma_sorted_remove(s: Seq<Order>, k: int, side: Side)
    requires
        is_sorted(s, side),
        0 <= k < s.len(),
    ensures
        is_sorted(s.remove(k), side),
{
    let t = s.remove(k);
    assert forall|i: int, j: int| 0 <= i < j < t.len() implies !(#[trigger] t[j]).precedes(
        #[trigger] t[i],
        side,
    ) by {
        let a = if i < k {
            i
        } else {
            i + 1
        };
        let b = if j < k {
            j
        } else {
            j + 1
        };
        assert(t[i] == s[a] && t[j] == s[b]);
    }
}

/// Putting an order in keeps both sides in price-time order.
pub proof fn law_insert_keeps_order(
    b: Book,
    owner_id: u64,
    side: Side,
    price: i64,
    qty: i64,
    timestamp: u64,
)
    requires
        b.sorted(),
    ensures
        b.insert_order(owner_id, side, price, qty, timestamp).0.sorted(),
{
    let o = Order { order_id: b.next_order_id, owner_id, side, price, qty, timestamp };
    lemma_sorted_insert(b.orders(side), o, side);
}

/// Taking an order out keeps both sides in price-time order.
pub proof fn law_remove_keeps_order(b: Book, id: u64)
    requires
        b.sorted(),
    ensures
        b.remove_order(id).0.sorted(),
{
    lemma_index(b.bids, id, 0);
    lemma_index(b.asks, id, 0);
    match index_of_id(b.bids, id, 0) {
        Some(i) => lemma_sorted_remove(b.bids, i, Side::Buy),
        None => match index_of_id(b.asks, id, 0) {
            Some(i) => lemma_sorted_remove(b.asks, i, Side::Sell),
            None => {},
        },
    }
}

proof fn lemma_remove_listed_keeps_order(b: Book, s: Seq<Order>, m: int, k: int)
    requires
        b.sorted(),
    ensures
        b.remove_listed(s, m, k).sorted(),
    decreases m - k,
{
    if k < m {
        law_remove_keeps_order(b, s[k].order_id);
        lemma_remove_listed_keeps_order(b.remove_order(s[k].order_id).0, s, m, k + 1);
    }
}

proof fn lemma_reduced_sorted(s: Seq<Order>, d: int, q: int, side: Side)
    requires
        is_sorted(s, side),
    ensures
        is_sorted(reduced(s, d, q), side),
{
    let t = reduced(s, d, q);
    assert forall|i: int, j: int| 0 <= i < j < t.len() implies !(#[trigger] t[j]).precedes(
        #[trigger] t[i],
        side,
    ) by {
        assert(!s[j].precedes(s[i], side));
    }
}

/// Matching keeps both sides in price-time order.
pub proof fn law_match_keeps_order(b: Book, side: Side, qty: i64, limit: i64)
    requires
        b.sorted(),
    ensures
        b.match_orders(side, qty, limit).0.sorted(),
{
    let a = Book::against(side);
    let s = b.orders(a);
    let d = b.match_reach(side, limit);
    lemma_reduced_sorted(s, d, qty as int, a);
    lemma_remove_listed_keeps_order(
        b.with_orders(a, reduced(s, d, qty as int)),
        s,
        whole_fills(s, d, qty as int),
        0,
    );
}

/// A new order gets an id that is not in the book, until the ids are used up.
pub proof fn law_insert_keeps_ids_distinct(
    b: Book,
    owner_id: u64,
    side: Side,
    price: i64,
    qty: i64,
    timestamp: u64,
)
    requires
        b.distinct_ids(),
        b.ids_below_next(),
        b.next_order_id < u64::MAX,
    ensures
        b.insert_order(owner_id, side, price, qty, timestamp).0.distinct_ids(),
        b.insert_order(owner_id, side, price, qty, timestamp).0.ids_below_next(),
{
    let o = Order { order_id: b.next_order_id, owner_id, side, price, qty, timestamp };
    let s = b.orders(side);
    lemma_position(s, o, side, 0);
    let p = insert_position(s, o, side, 0);
    let t = s.insert(p, o);
    let c = b.insert_order(owner_id, side, price, qty, timestamp).0;
    if price > 0 && qty > 0 && s.len() < MAX_ORDERS_PER_SIDE {
        assert(forall|i: int|
            0 <= i < t.len() ==> #[trigger] t[i] == (if i < p {
                s[i]
            } else if i == p {
                o
            } else {
                s[i - 1]
            }));
        assert(c.orders(side) == t);
        assert(ids_differ(t));
        assert(c.distinct_ids());
    }
}

/// Successive orders get rising ids, until the ids are used up.
pub proof fn law_ids_rise(
    b: Book,
    owner_id: u64,
    side: Side,
    price: i64,
    qty: i64,
    timestamp: u64,
)
    requires
        b.next_order_id < u64::MAX,
    ensures
        ({
            let (c, r) = b.insert_order(owner_id, side, price, qty, timestamp);
            r matches Ok(id) ==> id == b.next_order_id && c.next_order_id == id + 1
        }),
{
}

/// An order can be taken out only once.
pub proof fn law_removed_once(b: Book, id: u64)
    requires
        b.distinct_ids(),
        b.remove_order(id).1 is Ok,
    ensures
        b.remove_order(id).0.remove_order(id).1 == Err::<Order, OrderbookError>(
            OrderbookError::OrderNotFound,
        ),
        b.remove_order(id).0.distinct_ids(),
{
    let c = b.remove_order(id).0;
    lemma_index(b.bids, id, 0);
    lemma_index(b.asks, id, 0);
    lemma_index(c.bids, id, 0);
    lemma_index(c.asks, id, 0);
    match index_of_id(b.bids, id, 0) {
        Some(k) => lemma_ids_after_remove(b.bids, k),
        None => match index_of_id(b.asks, id, 0) {
            Some(k) => lemma_ids_after_remove(b.asks, k),
            None => {},
        },
    }
}

proof fn lemma_ids_after_remove(s: Seq<Order>, k: int)
    requires
        ids_differ(s),
        0 <= k < s.len(),
    ensures
        ids_differ(s.remove(k)),
        forall|i: int|
            0 <= i < s.len() - 1 ==> (#[trigger] s.remove(k)[i]).order_id != s[k].order_id,
        forall|i: int|
            0 <= i < s.len() - 1 ==> #[trigger] s.remove(k)[i] == (if i < k {
                s[i]
            } else {
                s[i + 1]
            }),
{
    let t = s.remove(k);
    assert(forall|i: int|
        0 <= i < t.len() ==> #[trigger] t[i] == (if i < k {
            s[i]
        } else {
            s[i + 1]
        }));
}

pub proof fn lemma_whole(s: Seq<Order>, d: int, q: int)
    requires
        0 <= d <= s.len(),
        forall|k: int| 0 <= k < s.len() ==> live(#[trigger] s[k]),
    ensures
        0 <= whole_fills(s, d, q) <= d,
        q > 0 ==> qty_of(s, whole_fills(s, d, q)) <= q,
        forall|k: int|
            0 <= k < whole_fills(s, d, q) ==> fill_of(s, d, q, k) == (#[trigger] s[k]).qty,
    decreases d,
{
    if d > 0 {
        if qty_of(s, d) <= q && qty_of(s, d - 1) < q {
            assert forall|k: int| 0 <= k < d implies fill_of(s, d, q, k) == (
            #[trigger] s[k]).qty by {
                lemma_qty_monotone(s, k + 1, d);
                lemma_qty_monotone(s, k, d);
                assert(live(s[k]));
            }
        } else {
            lemma_whole(s, d - 1, q);
        }
    }
}

/// An order is filled only after all orders before it were filled as a whole.
pub proof fn law_fills_keep_priority(s: Seq<Order>, d: int, q: int, i: int, j: int)
    requires
        0 <= i < j < s.len(),
        d <= s.len(),
        forall|k: int| 0 <= k < s.len() ==> live(#[trigger] s[k]),
        fill_of(s, d, q, j) > 0,
    ensures
        fill_of(s, d, q, i) == s[i].qty,
{
    lemma_qty_monotone(s, 0, i);
    lemma_qty_monotone(s, i + 1, j);
    assert(live(s[i]));
}

/// No more is filled than was asked for, nor than the book holds at acceptable prices; no
/// order gives more than it has.
pub proof fn law_fill_is_bounded(b: Book, side: Side, qty: i64, limit: i64)
    requires
        b.wf(),
    ensures
        ({
            let s = b.orders(Book::against(side));
            let d = b.match_reach(side, limit);
            &&& b.match_orders(side, qty, limit).1 matches Ok(m) ==> 0 < m.filled_qty <= qty
                && m.filled_qty <= qty_of(s, d) <= qty_of(s, s.len() as int)
            &&& forall|i: int|
                0 <= i < s.len() ==> 0 <= #[trigger] fill_of(s, d, qty as int, i) <= s[i].qty
        }),
{
    let s = b.orders(Book::against(side));
    let d = b.match_reach(side, limit);
    lemma_reach(s, side, limit as int, 0);
    lemma_qty_monotone(s, 0, d);
    lemma_qty_monotone(s, d, s.len() as int);
    assert forall|i: int| 0 <= i < s.len() implies 0 <= #[trigger] fill_of(s, d, qty as int, i)
        <= s[i].qty by {
        assert(live(s[i]));
    }
}

proof fn lemma_fills_sum(s: Seq<Order>, d: int, q: int, n: int, lo: int, hi: int)
    requires
        0 <= n <= d <= s.len(),
        q > 0,
        forall|k: int| 0 <= k < s.len() ==> live(#[trigger] s[k]),
        forall|k: int|
            0 <= k < d && fill_of(s, d, q, k) > 0 ==> lo <= (#[trigger] s[k]).price <= hi,
    ensures
        min_int(q, qty_of(s, n)) * lo <= cost_of(s, d, q, n) <= min_int(q, qty_of(s, n)) * hi,
        min_int(q, qty_of(s, n)) >= 0,
    decreases n,
{
    if n > 0 {
        lemma_fills_sum(s, d, q, n - 1, lo, hi);
        lemma_qty_monotone(s, 0, n - 1);
        assert(live(s[n - 1]));
        let f = fill_of(s, d, q, n - 1);
        let p = s[n - 1].price as int;
        let t = min_int(q, qty_of(s, n - 1));
        assert(min_int(q, qty_of(s, n)) == t + f);
        assert(f * lo <= f * p <= f * hi) by (nonlinear_arith)
            requires
                f >= 0,
                f > 0 ==> lo <= p <= hi,
        ;
        assert((t + f) * lo == t * lo + f * lo && (t + f) * hi == t * hi + f * hi)
            by (nonlinear_arith);
    } else {
        assert(0 * lo == 0 && 0 * hi == 0) by (nonlinear_arith);
    }
}

/// The average price lies between the lowest and the highest price among the orders that give
/// something.
pub proof fn law_vwap_is_bounded(b: Book, side: Side, qty: i64, limit: i64, lo: int, hi: int)
    requires
        b.wf(),
        ({
            let s = b.orders(Book::against(side));
            let d = b.match_reach(side, limit);
            forall|k: int|
                0 <= k < d && fill_of(s, d, qty as int, k) > 0 ==> lo <= (#[trigger] s[k]).price
                    <= hi
        }),
    ensures
        b.match_orders(side, qty, limit).1 matches Ok(m) ==> lo <= m.vwap_px <= hi,
{
    let s = b.orders(Book::against(side));
    let d = b.match_reach(side, limit);
    lemma_reach(s, side, limit as int, 0);
    lemma_qty_monotone(s, 0, d);
    if b.match_orders(side, qty, limit).1 is Ok {
        lemma_fills_sum(s, d, qty as int, d, lo, hi);
        lemma_fills_sum_positive(s, d, qty as int, d);
        let f = min_int(qty as int, qty_of(s, d));
        let n = cost_of(s, d, qty as int, d);
        assert(lo <= n / f <= hi) by (nonlinear_arith)
            requires
                f > 0,
                f * lo <= n <= f * hi,
        ;
        assert(0 <= n / f <= i64::MAX) by (nonlinear_arith)
            requires
                f > 0,
                0 <= n <= f * i64::MAX,
        ;
    }
}

pub proof fn lemma_fills_sum_positive(s: Seq<Order>, d: int, q: int, n: int)
    requires
        0 <= n <= d <= s.len(),
        q > 0,
        forall|k: int| 0 <= k < s.len() ==> live(#[trigger] s[k]),
    ensures
        min_int(q, qty_of(s, n)) <= cost_of(s, d, q, n) <= min_int(q, qty_of(s, n)) * i64::MAX,
{
    assert forall|k: int| 0 <= k < d implies 1 <= (#[trigger] s[k]).price <= i64::MAX by {
        assert(live(s[k]));
    }
    lemma_fills_sum(s, d, q, n, 1, i64::MAX as int);
}

/// One for the side that a buyer is matched to, where prices rise from the front; minus one for
/// the other, where they fall.
spec fn slope(side: Side) -> int {
    match side {
        Side::Buy => 1,
        Side::Sell => -1,
    }
}

/// The order in which the last unit of a fill of `q` is found.
proof fn lemma_last_filled(s: Seq<Order>, d: int, q: int) -> (p: int)
    requires
        0 <= d <= s.len(),
        0 < q <= qty_of(s, d),
    ensures
        0 <= p < d,
        qty_of(s, p) < q <= qty_of(s, p + 1),
    decreases d,
{
    if qty_of(s, d - 1) < q {
        d - 1
    } else {
        lemma_last_filled(s, d - 1, q)
    }
}

/// A fill of `q` costs a buyer at most the price of the order with its last unit, for each
/// unit; and each unit by which a fill of `r` is larger costs at least that much. For a
/// seller it is the other way round.
proof fn lemma_costs_around(
    s: Seq<Order>,
    side: Side,
    d: int,
    q: int,
    r: int,
    p: int,
    n: int,
)
    requires
        0 <= n <= d <= s.len(),
        0 <= p < d,
        0 < q <= r,
        qty_of(s, p) < q <= qty_of(s, p + 1),
        forall|k: int| 0 <= k < s.len() ==> live(#[trigger] s[k]),
        is_sorted(s, Book::against(side)),
    ensures
        ({
            let f = min_int(q, qty_of(s, n));
            let g = min_int(r, qty_of(s, n));
            let price = slope(side) * s[p].price;
            &&& slope(side) * cost_of(s, d, q, n) <= f * price
            &&& slope(side) * cost_of(s, d, r, n) - slope(side) * cost_of(s, d, q, n) >= (g - f)
                * price
            &&& 0 <= f <= g
        }),
    decreases n,
{
    let price = slope(side) * s[p].price;
    if n > 0 {
        lemma_costs_around(s, side, d, q, r, p, n - 1);
        lemma_qty_monotone(s, 0, n - 1);
        let o = s[n - 1];
        assert(live(o));
        let x = slope(side) * o.price;
        let a = fill_of(s, d, q, n - 1);
        let b = fill_of(s, d, r, n - 1);
        let f = min_int(q, qty_of(s, n - 1));
        let g = min_int(r, qty_of(s, n - 1));
        assert(min_int(q, qty_of(s, n)) == f + a && min_int(r, qty_of(s, n)) == g + b);
        if n - 1 < p {
            lemma_qty_monotone(s, n, p);
            assert(a == o.qty && b == o.qty);
            assert(!s[p].precedes(o, Book::against(side)));
            assert(x <= price);
        } else if n - 1 > p {
            lemma_qty_monotone(s, p + 1, n - 1);
            assert(a == 0);
            assert(!o.precedes(s[p], Book::against(side)));
            assert(x >= price);
        }
        let c = cost_of(s, d, q, n - 1);
        let e = cost_of(s, d, r, n - 1);
        let m = slope(side);
        assert(m * (c + a * o.price) == m * c + a * x && m * (e + b * o.price) == m * e + b * x)
            by (nonlinear_arith)
            requires
                x == m * o.price,
        ;
        assert(a * x <= a * price && b * x - a * x >= (b - a) * price) by (nonlinear_arith)
            requires
                0 <= a <= b,
                x <= price || a == 0,
                x >= price || a == b,
        ;
        assert((f + a) * price == f * price + a * price && ((g + b) - (f + a)) * price == (g - f)
            * price + (b - a) * price) by (nonlinear_arith);
    } else {
        assert(0 * price == 0) by (nonlinear_arith);
        assert(slope(side) * 0 == 0) by (nonlinear_arith);
    }
}

/// Where the book has nothing more to give, asking for more costs the same.
proof fn lemma_exhausted(s: Seq<Order>, d: int, q: int, r: int, n: int)
    requires
        0 <= n <= d <= s.len(),
        qty_of(s, d) <= q <= r,
        forall|k: int| 0 <= k < s.len() ==> live(#[trigger] s[k]),
    ensures
        cost_of(s, d, q, n) == cost_of(s, d, r, n),
    decreases n,
{
    if n > 0 {
        lemma_exhausted(s, d, q, r, n - 1);
        lemma_qty_monotone(s, n, d);
        assert(live(s[n - 1]));
        assert(fill_of(s, d, q, n - 1) == s[n - 1].qty);
        assert(fill_of(s, d, r, n - 1) == s[n - 1].qty);
    }
}

/// The average price is monotonic: who takes more from a book in order gets an average that is
/// no better.
pub proof fn law_vwap_is_monotonic(b: Book, side: Side, less: i64, more: i64, limit: i64)
    requires
        b.wf(),
        b.sorted(),
        less <= more,
    ensures
        b.match_orders(side, less, limit).1 matches Ok(m) ==> (b.match_orders(
            side,
            more,
            limit,
        ).1 matches Ok(n) && acceptable(side, m.vwap_px as int, n.vwap_px as int)),
{
    let s = b.orders(Book::against(side));
    let d = b.match_reach(side, limit);
    let q = less as int;
    let r = more as int;
    lemma_reach(s, side, limit as int, 0);
    lemma_qty_monotone(s, 0, d);
    if b.match_orders(side, less, limit).1 is Ok {
        let f = min_int(q, qty_of(s, d));
        let g = min_int(r, qty_of(s, d));
        let c = cost_of(s, d, q, d);
        let e = cost_of(s, d, r, d);
        lemma_fills_sum_positive(s, d, q, d);
        lemma_fills_sum_positive(s, d, r, d);
        if qty_of(s, d) <= q {
            lemma_exhausted(s, d, q, r, d);
        } else {
            let p = lemma_last_filled(s, d, q);
            lemma_costs_around(s, side, d, q, r, p, d);
            let price = slope(side) * s[p].price;
            let m = slope(side);
            assert(m * c * g <= m * e * f) by (nonlinear_arith)
                requires
                    m * c <= f * price,
                    m * e - m * c >= (g - f) * price,
                    0 < f <= g,
            ;
            match side {
                Side::Buy => lemma_quotients(c, f, e, g),
                Side::Sell => {
                    assert(e * f <= c * g) by (nonlinear_arith)
                        requires
                            (-1) * c * g <= (-1) * e * f,
                    ;
                    lemma_quotients(e, g, c, f);
                },
            }
        }
        lemma_average_fits(c, f);
        lemma_average_fits(e, g);
    }
}

/// Rounded quotients are in the order of the quotients.
proof fn lemma_quotients(c: int, f: int, e: int, g: int)
    by (nonlinear_arith)
    requires
        f > 0,
        g > 0,
        c * g <= e * f,
    ensures
        c / f <= e / g,
{
    let x = c / f;
    assert(x * f <= c);
    assert(x * f * g <= c * g);
    assert(x * g * f <= e * f);
    assert(x * g <= e);
}

proof fn lemma_average_fits(c: int, f: int)
    by (nonlinear_arith)
    requires
        f > 0,
        0 <= c <= f * i64::MAX,
    ensures
        0 <= c / f <= i64::MAX,
{
}

/// A buyer never pays more than the limit on average, and a seller never gets less.
pub proof fn law_vwap_respects_limit(b: Book, side: Side, qty: i64, limit: i64)
    requires
        b.wf(),
    ensures
        b.match_orders(side, qty, limit).1 matches Ok(m) ==> acceptable(
            side,
            m.vwap_px as int,
            limit as int,
        ) && match side {
            Side::Buy => m.vwap_px <= limit,
            Side::Sell => m.vwap_px >= limit,
        },
{
    let s = b.orders(Book::against(side));
    lemma_reach(s, side, limit as int, 0);
    match side {
        Side::Buy => law_vwap_is_bounded(b, side, qty, limit, i64::MIN as int, limit as int),
        Side::Sell => law_vwap_is_bounded(b, side, qty, limit, limit as int, i64::MAX as int),
    }
}

/// Matching never overflows. The average price is positive, and the notional is the filled
/// quantity at that price wherever that fits.
pub proof fn law_match_does_not_overflow(b: Book, side: Side, qty: i64, limit: i64)
    requires
        b.wf(),
    ensures
        b.match_orders(side, qty, limit).1 != Err::<MatchResult, OrderbookError>(
            OrderbookError::Overflow,
        ),
        b.match_orders(side, qty, limit).1 matches Ok(m) ==> m.vwap_px > 0 && (m.filled_qty
            * m.vwap_px / 1_000_000 <= i64::MAX ==> m.notional == m.filled_qty * m.vwap_px
            / 1_000_000 && m.notional >= 0),
{
    let s = b.orders(Book::against(side));
    let d = b.match_reach(side, limit);
    lemma_reach(s, side, limit as int, 0);
    if b.match_orders(side, qty, limit).1 is Ok {
        let f = min_int(qty as int, qty_of(s, d));
        let n = cost_of(s, d, qty as int, d);
        lemma_fills_sum_positive(s, d, qty as int, d);
        lemma_qty_monotone(s, 0, d);
        assert(1 <= n / f <= i64::MAX) by (nonlinear_arith)
            requires
                f > 0,
                f <= n <= f * i64::MAX,
        ;
        let v = n / f;
        assert(f * v >= 0) by (nonlinear_arith)
            requires
                f > 0,
                v >= 0,
        ;
    }
}

proof fn lemma_remove_front(b: Book, side: Side, s: Seq<Order>, r: Seq<Order>, m: int, k: int)
    requires
        0 <= k <= m <= s.len(),
        r.len() == s.len(),
        forall|i: int| 0 <= i < s.len() ==> (#[trigger] r[i]).order_id == s[i].order_id,
        b.orders(side) == r.skip(k),
        b.distinct_ids(),
    ensures
        b.remove_listed(s, m, k) == b.with_orders(side, r.skip(m)),
        b.with_orders(side, r.skip(m)).distinct_ids(),
    decreases m - k,
{
    if k < m {
        let id = s[k].order_id;
        let t = b.orders(side);
        assert(t[0] == r[k]);
        lemma_index(b.bids, id, 0);
        lemma_index(b.asks, id, 0);
        assert(index_of_id(t, id, 0) == Some(0int));
        let c = b.remove_order(id).0;
        assert(t.remove(0) =~= r.skip(k + 1));
        assert(c == b.with_orders(side, r.skip(k + 1))) by {
            if side == Side::Sell {
                assert(forall|i: int| 0 <= i < b.bids.len() ==> (#[trigger] b.bids[i]).order_id
                    != b.asks[0].order_id);
            }
        }
        law_removed_once(b, id);
        lemma_remove_front(c, side, s, r, m, k + 1);
    } else {
        assert(b.with_orders(side, r.skip(m)) =~= b);
    }
}

/// Matching takes exactly the orders that were filled as a whole off the front of the side;
/// the first that remains has given its part, and nothing else changes.
pub proof fn law_match_takes_from_front(b: Book, side: Side, qty: i64, limit: i64)
    requires
        b.wf(),
        b.distinct_ids(),
        b.match_orders(side, qty, limit).1 is Ok,
    ensures
        ({
            let a = Book::against(side);
            let s = b.orders(a);
            let d = b.match_reach(side, limit);
            &&& b.match_orders(side, qty, limit).0 == b.with_orders(
                a,
                reduced(s, d, qty as int).skip(whole_fills(s, d, qty as int)),
            )
            &&& b.match_orders(side, qty, limit).0.distinct_ids()
        }),
{
    let a = Book::against(side);
    let s = b.orders(a);
    let d = b.match_reach(side, limit);
    let r = reduced(s, d, qty as int);
    lemma_reach(s, side, limit as int, 0);
    lemma_whole(s, d, qty as int);
    let c = b.with_orders(a, r);
    assert(r.skip(0) =~= r);
    assert(c.distinct_ids()) by {
        assert(forall|i: int| 0 <= i < r.len() ==> (#[trigger] r[i]).order_id == s[i].order_id);
    }
    lemma_remove_front(c, a, s, r, whole_fills(s, d, qty as int), 0);
}

/// Matching does not make the sides cross.
pub proof fn law_match_keeps_spread(b: Book, side: Side, qty: i64, limit: i64)
    requires
        b.wf(),
        b.sorted(),
        b.distinct_ids(),
        b.spread_ok(),
    ensures
        b.match_orders(side, qty, limit).0.spread_ok(),
{
    if b.match_orders(side, qty, limit).1 is Ok {
        law_match_takes_from_front(b, side, qty, limit);
        let s = b.orders(Book::against(side));
        let d = b.match_reach(side, limit);
        lemma_reach(s, side, limit as int, 0);
        lemma_whole(s, d, qty as int);
        let m = whole_fills(s, d, qty as int);
        let t = reduced(s, d, qty as int).skip(m);
        if t.len() > 0 {
            assert(t[0].price == s[m].price);
            if m > 0 {
                assert(!s[m].precedes(s[0], Book::against(side)));
            }
        }
    }
}

/// What is taken off the side is exactly what was filled.
pub proof fn law_match_moves_quantity(b: Book, side: Side, qty: i64, limit: i64)
    requires
        b.wf(),
        b.distinct_ids(),
        b.match_orders(side, qty, limit).1 is Ok,
    ensures
        ({
            let a = Book::against(side);
            let before = b.orders(a);
            let after = b.match_orders(side, qty, limit).0.orders(a);
            &&& b.match_orders(side, qty, limit).1 matches Ok(m) && qty_of(
                before,
                before.len() as int,
            ) - qty_of(after, after.len() as int) == m.filled_qty
        }),
{
    law_match_takes_from_front(b, side, qty, limit);
    let a = Book::against(side);
    let s = b.orders(a);
    let q = qty as int;
    let d = b.match_reach(side, limit);
    let r = reduced(s, d, q);
    let m = whole_fills(s, d, q);
    lemma_reach(s, side, limit as int, 0);
    lemma_whole(s, d, q);
    lemma_reduced_qty(s, d, q, s.len() as int);
    lemma_qty_monotone(s, 0, d);
    assert forall|k: int| 0 <= k < m implies (#[trigger] r[k]).qty == 0 by {
        assert(fill_of(s, d, q, k) == s[k].qty);
    }
    lemma_qty_skip(r, m, r.len() as int);
}

proof fn lemma_reduced_qty(s: Seq<Order>, d: int, q: int, n: int)
    requires
        0 <= n <= s.len(),
        0 <= d <= s.len(),
        q > 0,
        forall|k: int| 0 <= k < s.len() ==> live(#[trigger] s[k]),
    ensures
        qty_of(reduced(s, d, q), n) == qty_of(s, n) - min_int(q, qty_of(s, min_int(n, d))),
    decreases n,
{
    if n > 0 {
        lemma_reduced_qty(s, d, q, n - 1);
        assert(live(s[n - 1]));
        lemma_qty_monotone(s, 0, n - 1);
    }
}

proof fn lemma_qty_skip(r: Seq<Order>, m: int, n: int)
    requires
        0 <= m <= n <= r.len(),
        forall|k: int| 0 <= k < m ==> (#[trigger] r[k]).qty == 0,
    ensures
        qty_of(r.skip(m), n - m) == qty_of(r, n),
    decreases n,
{
    if n > m {
        lemma_qty_skip(r, m, n - 1);
        assert(r.skip(m)[n - m - 1] == r[n - 1]);
    } else {
        lemma_qty_zero(r, m);
    }
}

proof fn lemma_qty_zero(r: Seq<Order>, m: int)
    requires
        0 <= m <= r.len(),
        forall|k: int| 0 <= k < m ==> (#[trigger] r[k]).qty == 0,
    ensures
        qty_of(r, m) == 0,
    decreases m,
{
    if m > 0 {
        lemma_qty_zero(r, m - 1);
    }
}

} // verus!
