//! What the order book does, told by the orders that rest in it before and after.
use vstd::prelude::*;

use crate::math::min_int;
use crate::orderbook::{
    cost_of, fill_of, index_of_id, insert_position, is_sorted, lemma_qty_monotone, lemma_reach,
    live, qty_of, reach, reduced, whole_fills, Book, MatchResult, Order, OrderbookError, Side,
};
use crate::orderbook_laws::{
    law_match_moves_quantity, law_match_takes_from_front, law_vwap_respects_limit, lemma_index,
    lemma_position, lemma_whole,
};
use crate::rounding::rounded_down;

verus! {

/// The orders that an incoming order on `side` meets.
pub open spec fn met_by(b: Book, side: Side) -> Seq<Order> {
    if side == Side::Buy {
        b.asks
    } else {
        b.bids
    }
}

/// The orders that an incoming order on `side` would rest with.
pub open spec fn beside(b: Book, side: Side) -> Seq<Order> {
    if side == Side::Buy {
        b.bids
    } else {
        b.asks
    }
}

/// What the orders of a side are worth at their own prices.
pub open spec fn value_of(s: Seq<Order>) -> int
    decreases s.len(),
{
    if s.len() == 0 {
        0
    } else {
        value_of(s.drop_last()) + s.last().qty * s.last().price
    }
}

/// The quantity that the orders of a side offer.
pub open spec fn offered(s: Seq<Order>) -> int
    decreases s.len(),
{
    if s.len() == 0 {
        0
    } else {
        offered(s.drop_last()) + s.last().qty
    }
}

/// `t` is what is left of `s` when the first `m` orders have gone and the next has given a
/// part: nothing else differs.
pub open spec fn left_from(s: Seq<Order>, t: Seq<Order>, m: int) -> bool {
    &&& 0 <= m <= s.len()
    &&& t.len() == s.len() - m
    &&& t.len() > 0 ==> t[0] == (Order { qty: t[0].qty, ..s[m] }) && 0 <= t[0].qty <= s[m].qty
    &&& forall|k: int| 1 <= k < t.len() ==> #[trigger] t[k] == s[m + k]
}

proof fn lemma_value_reduced(s: Seq<Order>, d: int, q: int, n: int)
    requires
        0 <= n <= s.len(),
        forall|k: int| 0 <= k < s.len() ==> live(#[trigger] s[k]),
        q > 0,
    ensures
        value_of(reduced(s, d, q).take(n)) == value_of(s.take(n)) - cost_of(s, d, q, n),
    decreases n,
{
    if n > 0 {
        lemma_value_reduced(s, d, q, n - 1);
        let r = reduced(s, d, q);
        assert(r.take(n).drop_last() =~= r.take(n - 1));
        assert(s.take(n).drop_last() =~= s.take(n - 1));
        assert(live(s[n - 1]));
        let f = fill_of(s, d, q, n - 1);
        let p = s[n - 1].price as int;
        let x = s[n - 1].qty as int;
        assert((x - f) * p == x * p - f * p) by (nonlinear_arith);
        assert(r[n - 1].qty == x - f);
    }
}

proof fn lemma_cost_past_reach(s: Seq<Order>, d: int, q: int, n: int)
    requires
        0 <= d <= n <= s.len(),
    ensures
        cost_of(s, d, q, n) == cost_of(s, d, q, d),
    decreases n,
{
    if n > d {
        lemma_cost_past_reach(s, d, q, n - 1);
        let p = s[n - 1].price as int;
        assert(0 * p == 0) by (nonlinear_arith);
    }
}

proof fn lemma_value_skip(r: Seq<Order>, m: int)
    requires
        0 <= m <= r.len(),
        forall|k: int| 0 <= k < m ==> (#[trigger] r[k]).qty == 0,
    ensures
        value_of(r.skip(m)) == value_of(r),
    decreases r.len(),
{
    if r.len() > m {
        lemma_value_skip(r.drop_last(), m);
        assert(r.skip(m).drop_last() =~= r.drop_last().skip(m));
        assert(r.skip(m).last() == r.last());
    } else {
        assert(r.skip(m) =~= Seq::<Order>::empty());
        if r.len() > 0 {
            lemma_value_skip(r.drop_last(), r.len() - 1);
            assert(r.drop_last().skip(r.len() - 1) =~= Seq::<Order>::empty());
            let p = r.last().price as int;
            assert(0 * p == 0) by (nonlinear_arith);
        }
    }
}

proof fn lemma_offered(s: Seq<Order>)
    ensures
        offered(s) == qty_of(s, s.len() as int),
    decreases s.len(),
{
    if s.len() > 0 {
        lemma_offered(s.drop_last());
        lemma_qty_prefix(s, s.len() - 1);
    }
}

proof fn lemma_qty_prefix(s: Seq<Order>, n: int)
    requires
        0 <= n < s.len(),
    ensures
        qty_of(s.drop_last(), n) == qty_of(s, n),
    decreases n,
{
    if n > 0 {
        lemma_qty_prefix(s, n - 1);
    }
}

/// Past the orders that are filled as a whole and the next one, nothing is taken.
proof fn lemma_whole_is_last(s: Seq<Order>, d: int, q: int)
    requires
        0 <= d <= s.len(),
        q > 0,
        forall|k: int| 0 <= k < s.len() ==> live(#[trigger] s[k]),
    ensures
        forall|j: int| #[trigger]
            qty_of(s, j) <= q && whole_fills(s, d, q) < j <= d ==> qty_of(s, j - 1) >= q,
    decreases d,
{
    if d > 0 && !(qty_of(s, d) <= q && qty_of(s, d - 1) < q) {
        lemma_whole_is_last(s, d - 1, q);
    }
}

proof fn lemma_left_from(s: Seq<Order>, d: int, q: int)
    requires
        0 <= d <= s.len(),
        q > 0,
        forall|k: int| 0 <= k < s.len() ==> live(#[trigger] s[k]),
    ensures
        ({
            let m = whole_fills(s, d, q);
            left_from(s, reduced(s, d, q).skip(m), m)
        }),
{
    let m = whole_fills(s, d, q);
    let t = reduced(s, d, q).skip(m);
    lemma_whole(s, d, q);
    lemma_whole_is_last(s, d, q);
    if t.len() > 0 {
        assert(live(s[m]));
        assert(t[0] == reduced(s, d, q)[m]);
    }
    assert forall|k: int| 1 <= k < t.len() implies #[trigger] t[k] == s[m + k] by {
        assert(t[k] == reduced(s, d, q)[m + k]);
        assert(live(s[m + k]));
        if m + k < d {
            lemma_qty_monotone(s, m + 1, m + k);
            assert(qty_of(s, m + 1) <= q ==> qty_of(s, m) >= q);
            lemma_qty_monotone(s, m, m + 1);
        }
    }
}

/// A fill takes orders from the front of the side that it meets, and only orders whose price is
/// within the limit: a buyer's at or below it, a seller's at or above it. All orders gone, and
/// the one that gave a part, are within it, and so is the average price. The side that the
/// order would have rested on is as it was.
pub proof fn law_fill_is_within_limit(b: Book, side: Side, qty: i64, limit: i64) -> (m: int)
    requires
        b.wf(),
        b.distinct_ids(),
        b.match_orders(side, qty, limit).1 is Ok,
    ensures
        ({
            let (c, r) = b.match_orders(side, qty, limit);
            let s = met_by(b, side);
            let t = met_by(c, side);
            &&& left_from(s, t, m)
            &&& forall|k: int|
                0 <= k < m ==> if side == Side::Buy {
                    (#[trigger] s[k]).price <= limit
                } else {
                    s[k].price >= limit
                }
            &&& t.len() > 0 && t[0].qty < s[m].qty ==> if side == Side::Buy {
                s[m].price <= limit
            } else {
                s[m].price >= limit
            }
            &&& if side == Side::Buy {
                r->Ok_0.vwap_px <= limit
            } else {
                r->Ok_0.vwap_px >= limit
            }
            &&& beside(c, side) == beside(b, side)
            &&& c.next_order_id == b.next_order_id
        }),
{
    let s = b.orders(Book::against(side));
    let d = b.match_reach(side, limit);
    law_match_takes_from_front(b, side, qty, limit);
    law_vwap_respects_limit(b, side, qty, limit);
    lemma_reach(s, side, limit as int, 0);
    lemma_whole(s, d, qty as int);
    lemma_left_from(s, d, qty as int);
    let m = whole_fills(s, d, qty as int);
    m
}

/// What a fill comes to: the quantity that the side it meets has less of, and as the average
/// price the value that the side has less of, for each unit of it, rounded down. Its notional
/// is that price times the quantity, in millionths, wherever that fits.
pub proof fn law_fill_is_what_the_side_gave(b: Book, side: Side, qty: i64, limit: i64)
    requires
        b.wf(),
        b.distinct_ids(),
        b.match_orders(side, qty, limit).1 is Ok,
    ensures
        ({
            let (c, r) = b.match_orders(side, qty, limit);
            let s = met_by(b, side);
            let t = met_by(c, side);
            let x = r->Ok_0;
            &&& x.filled_qty == offered(s) - offered(t)
            &&& 0 < x.filled_qty <= qty
            &&& rounded_down(x.vwap_px as int, value_of(s) - value_of(t), x.filled_qty as int)
        }),
{
    let s = b.orders(Book::against(side));
    let q = qty as int;
    let d = b.match_reach(side, limit);
    let r = reduced(s, d, q);
    let m = whole_fills(s, d, q);
    lemma_reach(s, side, limit as int, 0);
    lemma_qty_monotone(s, 0, d);
    law_match_takes_from_front(b, side, qty, limit);
    law_match_moves_quantity(b, side, qty, limit);
    lemma_offered(s);
    lemma_offered(r.skip(m));
    lemma_whole(s, d, q);
    assert forall|k: int| 0 <= k < m implies (#[trigger] r[k]).qty == 0 by {
        assert(fill_of(s, d, q, k) == s[k].qty);
    }
    lemma_value_skip(r, m);
    let n = s.len() as int;
    lemma_value_reduced(s, d, q, n);
    assert(s.take(n) =~= s && r.take(n) =~= r);
    lemma_cost_past_reach(s, d, q, n);
    crate::orderbook_laws::law_match_does_not_overflow(b, side, qty, limit);
    let f = min_int(q, qty_of(s, d));
    let c = cost_of(s, d, q, d);
    lemma_average(s, d, q);
    assert(rounded_down(c / f, c, f)) by (nonlinear_arith)
        requires
            f > 0,
    ;
}

proof fn lemma_average(s: Seq<Order>, d: int, q: int)
    requires
        0 <= d <= s.len(),
        q > 0,
        forall|k: int| 0 <= k < s.len() ==> live(#[trigger] s[k]),
        min_int(q, qty_of(s, d)) > 0,
    ensures
        0 <= cost_of(s, d, q, d) / min_int(q, qty_of(s, d)) <= i64::MAX,
{
    let f = min_int(q, qty_of(s, d));
    let c = cost_of(s, d, q, d);
    crate::orderbook_laws::lemma_fills_sum_positive(s, d, q, d);
    assert(0 <= c / f <= i64::MAX) by (nonlinear_arith)
        requires
            f > 0,
            f <= c <= f * i64::MAX,
    ;
}

/// An order that is not filled in full has taken all there was within its limit: whatever is
/// left on the side is beyond the limit, or offers nothing.
pub proof fn law_fill_takes_all_within_limit(b: Book, side: Side, qty: i64, limit: i64)
    requires
        b.wf(),
        b.sorted(),
        b.distinct_ids(),
        b.match_orders(side, qty, limit).1 matches Ok(x) && x.filled_qty < qty,
    ensures
        forall|k: int|
            0 <= k < met_by(b.match_orders(side, qty, limit).0, side).len() ==> {
                let o = #[trigger] met_by(b.match_orders(side, qty, limit).0, side)[k];
                o.qty == 0 || if side == Side::Buy {
                    o.price > limit
                } else {
                    o.price < limit
                }
            },
{
    let s = b.orders(Book::against(side));
    let q = qty as int;
    let d = b.match_reach(side, limit);
    let r = reduced(s, d, q);
    let m = whole_fills(s, d, q);
    law_match_takes_from_front(b, side, qty, limit);
    lemma_reach(s, side, limit as int, 0);
    lemma_whole(s, d, q);
    lemma_qty_monotone(s, 0, d);
    let t = r.skip(m);
    assert forall|k: int| 0 <= k < t.len() implies {
        let o = #[trigger] t[k];
        o.qty == 0 || if side == Side::Buy {
            o.price > limit
        } else {
            o.price < limit
        }
    } by {
        let i = m + k;
        assert(t[k] == r[i]);
        assert(live(s[i]));
        if i < d {
            lemma_qty_monotone(s, i + 1, d);
            lemma_qty_monotone(s, 0, i);
        } else if i > d {
            assert(!s[i].precedes(s[d], Book::against(side)));
        }
    }
}

/// A match is refused exactly where the quantity or the limit is not positive, or where nothing
/// is offered within the limit. A refused match changes nothing.
pub proof fn law_match_is_refused(b: Book, side: Side, qty: i64, limit: i64)
    requires
        b.wf(),
        b.sorted(),
    ensures
        ({
            let (c, r) = b.match_orders(side, qty, limit);
            let s = met_by(b, side);
            let none = forall|k: int|
                0 <= k < s.len() ==> (#[trigger] s[k]).qty == 0 || if side == Side::Buy {
                    s[k].price > limit
                } else {
                    s[k].price < limit
                };
            &&& r is Err ==> c == b
            &&& r == Err::<MatchResult, OrderbookError>(OrderbookError::InvalidQuantity) <==> qty
                <= 0
            &&& r == Err::<MatchResult, OrderbookError>(OrderbookError::InvalidPrice) <==> qty > 0
                && limit <= 0
            &&& r == Err::<MatchResult, OrderbookError>(OrderbookError::NoLiquidity) <==> qty > 0
                && limit > 0 && none
            &&& r is Ok <==> qty > 0 && limit > 0 && !none
        }),
{
    let s = b.orders(Book::against(side));
    let d = reach(s, side, limit as int, 0);
    lemma_reach(s, side, limit as int, 0);
    lemma_qty_monotone(s, 0, d);
    if qty_of(s, d) == 0 {
        assert forall|k: int| 0 <= k < s.len() implies (#[trigger] s[k]).qty == 0 || if side
            == Side::Buy {
            s[k].price > limit
        } else {
            s[k].price < limit
        } by {
            assert(live(s[k]));
            if k < d {
                lemma_qty_monotone(s, 0, k);
                lemma_qty_monotone(s, k + 1, d);
            } else if k > d {
                assert(!s[k].precedes(s[d], Book::against(side)));
            }
        }
    } else {
        let k = lemma_some_offer(s, d);
        assert(live(s[k]));
    }
}

proof fn lemma_some_offer(s: Seq<Order>, d: int) -> (k: int)
    requires
        0 <= d <= s.len(),
        qty_of(s, d) != 0,
    ensures
        0 <= k < d,
        s[k].qty != 0,
    decreases d,
{
    if s[d - 1].qty != 0 {
        d - 1
    } else {
        lemma_some_offer(s, d - 1)
    }
}

/// A new order is refused exactly where its price or quantity is not positive or its side has
/// nineteen orders. Otherwise it gets the next id and rests on its own side with what it was
/// given; the orders there stay in their order around it, and the other side is as it was.
pub proof fn law_order_rests_on_its_side(
    b: Book,
    owner_id: u64,
    side: Side,
    price: i64,
    qty: i64,
    timestamp: u64,
) -> (p: int)
    requires
        b.wf(),
    ensures
        ({
            let (c, r) = b.insert_order(owner_id, side, price, qty, timestamp);
            let s = beside(b, side);
            let t = beside(c, side);
            let o = Order { order_id: b.next_order_id, owner_id, side, price, qty, timestamp };
            &&& r == Err::<u64, OrderbookError>(OrderbookError::InvalidPrice) <==> price <= 0
            &&& r == Err::<u64, OrderbookError>(OrderbookError::InvalidQuantity) <==> price > 0
                && qty <= 0
            &&& r == Err::<u64, OrderbookError>(OrderbookError::BookFull) <==> price > 0 && qty
                > 0 && s.len() >= 19
            &&& r is Ok <==> price > 0 && qty > 0 && s.len() < 19
            &&& met_by(c, side) == met_by(b, side)
            &&& r is Err ==> t == s
            &&& r is Ok ==> {
                &&& r == Ok::<u64, OrderbookError>(b.next_order_id)
                &&& 0 <= p <= s.len()
                &&& t.len() == s.len() + 1
                &&& t[p] == o
                &&& forall|k: int| 0 <= k < p ==> #[trigger] t[k] == s[k]
                &&& forall|k: int| p < k < t.len() ==> #[trigger] t[k] == s[k - 1]
            }
        }),
{
    let o = Order { order_id: b.next_order_id, owner_id, side, price, qty, timestamp };
    let s = b.orders(side);
    lemma_position(s, o, side, 0);
    insert_position(s, o, side, 0)
}

/// On a side in order a new order goes behind all orders with a better price, and behind those
/// with its own price that came no later; all others are behind it.
pub proof fn law_new_order_has_its_place(
    b: Book,
    owner_id: u64,
    side: Side,
    price: i64,
    qty: i64,
    timestamp: u64,
    p: int,
)
    requires
        b.wf(),
        b.sorted(),
        b.insert_order(owner_id, side, price, qty, timestamp).1 is Ok,
        p == place_of(b, side, price, timestamp),
    ensures
        ({
            let c = b.insert_order(owner_id, side, price, qty, timestamp).0;
            beside(c, side)[p].order_id == b.next_order_id && beside(c, side)[p].owner_id
                == owner_id && beside(c, side).remove(p) == beside(b, side)
        }),
{
    let o = Order { order_id: b.next_order_id, owner_id, side, price, qty, timestamp };
    let s = b.orders(side);
    lemma_position(s, o, side, 0);
    let q = insert_position(s, o, side, 0);
    assert forall|k: int| 0 <= k < s.len() implies (k < q <==> #[trigger] goes_ahead(
        s[k],
        side,
        price,
        timestamp,
    )) by {
        if k > q {
            assert(!s[k].precedes(s[q], side));
        }
    }
    lemma_ahead_count(s, side, price, timestamp, q, s.len() as int);
    assert(s.insert(q, o).remove(q) =~= s);
}

/// Whether a resting order stays ahead of a new one: by a better price, or by the same price
/// and no later time.
pub open spec fn goes_ahead(o: Order, side: Side, price: i64, timestamp: u64) -> bool {
    ||| (side == Side::Buy && o.price > price)
    ||| (side == Side::Sell && o.price < price)
    ||| (o.price == price && o.timestamp <= timestamp)
}

/// How many of the first `n` orders stay ahead of a new one.
pub open spec fn ahead_count(s: Seq<Order>, side: Side, price: i64, timestamp: u64, n: int) -> int
    decreases n,
{
    if n <= 0 {
        0
    } else {
        ahead_count(s, side, price, timestamp, n - 1) + if goes_ahead(
            s[n - 1],
            side,
            price,
            timestamp,
        ) {
            1int
        } else {
            0int
        }
    }
}

/// Where a new order belongs: behind all that stay ahead of it.
pub open spec fn place_of(b: Book, side: Side, price: i64, timestamp: u64) -> int {
    ahead_count(beside(b, side), side, price, timestamp, beside(b, side).len() as int)
}

proof fn lemma_ahead_count(
    s: Seq<Order>,
    side: Side,
    price: i64,
    timestamp: u64,
    q: int,
    n: int,
)
    requires
        0 <= q <= s.len(),
        0 <= n <= s.len(),
        forall|k: int|
            0 <= k < s.len() ==> (k < q <==> #[trigger] goes_ahead(s[k], side, price, timestamp)),
    ensures
        ahead_count(s, side, price, timestamp, n) == min_int(n, q),
    decreases n,
{
    if n > 0 {
        lemma_ahead_count(s, side, price, timestamp, q, n - 1);
        assert(n - 1 < q <==> goes_ahead(s[n - 1], side, price, timestamp));
    }
}

/// A side in order goes from its best price to its worst, highest first for buy orders and
/// lowest first for sell orders; among equal prices, from the earliest to the latest.
pub proof fn law_order_is_price_then_time(s: Seq<Order>, side: Side)
    ensures
        is_sorted(s, side) <==> forall|i: int, j: int|
            0 <= i < j < s.len() ==> {
                let a = #[trigger] s[i];
                let b = #[trigger] s[j];
                &&& side == Side::Buy ==> a.price >= b.price
                &&& side == Side::Sell ==> a.price <= b.price
                &&& a.price == b.price ==> a.timestamp <= b.timestamp
            },
{
    assert forall|i: int, j: int| 0 <= i < j < s.len() implies !(#[trigger] s[j]).precedes(
        #[trigger] s[i],
        side,
    ) == {
        &&& side == Side::Buy ==> s[i].price >= s[j].price
        &&& side == Side::Sell ==> s[i].price <= s[j].price
        &&& s[i].price == s[j].price ==> s[i].timestamp <= s[j].timestamp
    } by {}
}

/// Whether the sides do not cross: one is empty, or the first bid is below the first ask.
pub proof fn law_spread_is_positive(b: Book)
    ensures
        b.spread_ok() <==> (b.bids.len() > 0 && b.asks.len() > 0 ==> b.bids[0].price
            < b.asks[0].price),
{
}

/// Taking an order out by its id gives back an order with that id, and takes that one out and
/// no other; it fails exactly where there is none, and changes nothing then.
pub proof fn law_removal_takes_the_order(b: Book, id: u64)
    ensures
        ({
            let (c, r) = b.remove_order(id);
            let there = (exists|k: int|
                0 <= k < b.bids.len() && (#[trigger] b.bids[k]).order_id == id) || (exists|k: int|
                0 <= k < b.asks.len() && (#[trigger] b.asks[k]).order_id == id);
            &&& c.next_order_id == b.next_order_id
            &&& r is Ok <==> there
            &&& r is Err ==> c == b && r == Err::<Order, OrderbookError>(
                OrderbookError::OrderNotFound,
            )
            &&& r matches Ok(o) ==> o.order_id == id && ((exists|k: int|
                0 <= k < b.bids.len() && #[trigger] b.bids[k] == o && c.bids == b.bids.remove(k)
                    && c.asks == b.asks) || (exists|k: int|
                0 <= k < b.asks.len() && #[trigger] b.asks[k] == o && c.asks == b.asks.remove(k)
                    && c.bids == b.bids))
        }),
{
    lemma_index(b.bids, id, 0);
    lemma_index(b.asks, id, 0);
    let (c, r) = b.remove_order(id);
    match index_of_id(b.bids, id, 0) {
        Some(k) => {
            assert(b.bids[k] == r->Ok_0 && c.bids == b.bids.remove(k));
        },
        None => match index_of_id(b.asks, id, 0) {
            Some(k) => {
                assert(b.asks[k] == r->Ok_0 && c.asks == b.asks.remove(k));
            },
            None => {},
        },
    }
}

} // verus!
