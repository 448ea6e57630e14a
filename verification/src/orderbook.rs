//! A two-sided order book with price-time priority.
use vstd::prelude::*;

use crate::math::{low_bits_i64, low_i64, min_int, monus};

verus! {

/// Maximum orders per side
pub const MAX_ORDERS_PER_SIDE: usize = 19;

/// Order side
#[derive(Debug, Clone, Copy, PartialEq, Eq, Structural)]
pub enum Side {
    /// Buy order
    Buy,
    /// Sell order
    Sell,
}

/// A resting limit order
#[derive(Debug, Clone, Copy, PartialEq, Eq, Structural)]
pub struct Order {
    /// Order id; zero marks an empty slot
    pub order_id: u64,
    /// Owner
    pub owner_id: u64,
    /// Side
    pub side: Side,
    /// Limit price, scaled by a million
    pub price: i64,
    /// Remaining quantity, scaled by a million
    pub qty: i64,
    /// Time of arrival
    pub timestamp: u64,
}

/// Order book
#[derive(Debug, Clone, Copy)]
pub struct Orderbook {
    /// Next order id
    pub next_order_id: u64,
    /// Number of buy orders
    pub num_bids: u16,
    /// Number of sell orders
    pub num_asks: u16,
    /// Buy orders, by falling price and then by time
    pub bids: [Order; MAX_ORDERS_PER_SIDE],
    /// Sell orders, by rising price and then by time
    pub asks: [Order; MAX_ORDERS_PER_SIDE],
}

/// What an incoming order was matched to
#[derive(Debug, Clone, Copy, PartialEq, Eq, Structural)]
pub struct MatchResult {
    /// Quantity filled
    pub filled_qty: i64,
    /// Volume-weighted average price
    pub vwap_px: i64,
    /// Filled quantity at the average price
    pub notional: i64,
}

/// Order book errors
#[derive(Debug, Clone, Copy, PartialEq, Eq, Structural)]
pub enum OrderbookError {
    /// The side is full
    BookFull,
    /// There is no such order
    OrderNotFound,
    /// The price is not positive
    InvalidPrice,
    /// The quantity is not positive
    InvalidQuantity,
    /// An amount is out of range
    Overflow,
    /// Nothing can be filled
    NoLiquidity,
}

/// The model of an order book: the orders of each side, in the order in which they match.
#[verifier::ext_equal]
pub struct Book {
    pub next_order_id: u64,
    pub bids: Seq<Order>,
    pub asks: Seq<Order>,
}

impl View for Orderbook {
    type V = Book;

    open spec fn view(&self) -> Book {
        Book {
            next_order_id: self.next_order_id,
            bids: self.bids@.take(self.num_bids as int),
            asks: self.asks@.take(self.num_asks as int),
        }
    }
}

impl Order {
    pub open spec fn vacant() -> Order {
        Order { order_id: 0, owner_id: 0, side: Side::Buy, price: 0, qty: 0, timestamp: 0 }
    }

    /// Creates an empty order.
    pub fn empty() -> (r: Order)
        ensures
            r == Self::vacant(),
    {
        Order { order_id: 0, owner_id: 0, side: Side::Buy, price: 0, qty: 0, timestamp: 0 }
    }

    /// Whether this is an empty slot.
    pub fn is_empty(&self) -> (r: bool)
        ensures
            r == (self.order_id == 0),
    {
        self.order_id == 0
    }

    /// Whether the order goes before `other` on a side: by better price, then by earlier time.
    pub open spec fn precedes(self, other: Order, side: Side) -> bool {
        let better = match side {
            Side::Buy => self.price > other.price,
            Side::Sell => self.price < other.price,
        };
        better || (self.price == other.price && self.timestamp < other.timestamp)
    }
}

/// A positive price, and a quantity that is not negative.
pub open spec fn live(o: Order) -> bool {
    o.price > 0 && o.qty >= 0
}

/// Whether neighbouring orders are in order.
pub open spec fn is_sorted(s: Seq<Order>, side: Side) -> bool {
    forall|i: int, j: int| 0 <= i < j < s.len() ==> !(#[trigger] s[j]).precedes(#[trigger] s[i], side)
}

/// The first position from `i` on whose order a new one goes before.
pub open spec fn insert_position(s: Seq<Order>, o: Order, side: Side, i: int) -> int
    decreases s.len() - i,
{
    if i >= s.len() {
        s.len() as int
    } else if o.precedes(s[i], side) {
        i
    } else {
        insert_position(s, o, side, i + 1)
    }
}

/// The first position from `i` on of an order with the given id.
pub open spec fn index_of_id(s: Seq<Order>, id: u64, i: int) -> Option<int>
    decreases s.len() - i,
{
    if i >= s.len() {
        None
    } else if s[i].order_id == id {
        Some(i)
    } else {
        index_of_id(s, id, i + 1)
    }
}

/// Whether an order at `price` is good enough for an incoming order on `side`.
pub open spec fn acceptable(side: Side, price: int, limit: int) -> bool {
    match side {
        Side::Buy => price <= limit,
        Side::Sell => price >= limit,
    }
}

/// How many orders from `i` on are good enough, up to the first that is not: the position of
/// that one.
pub open spec fn reach(s: Seq<Order>, side: Side, limit: int, i: int) -> int
    decreases s.len() - i,
{
    if i >= s.len() {
        s.len() as int
    } else if !acceptable(side, s[i].price as int, limit) {
        i
    } else {
        reach(s, side, limit, i + 1)
    }
}

/// Quantity of the first `n` orders.
pub open spec fn qty_of(s: Seq<Order>, n: int) -> int
    decreases n,
{
    if n <= 0 {
        0
    } else {
        qty_of(s, n - 1) + s[n - 1].qty
    }
}

/// What order `i` contributes to a fill of `q` from the first `d` orders.
pub open spec fn fill_of(s: Seq<Order>, d: int, q: int, i: int) -> int {
    if i < d {
        min_int(s[i].qty as int, monus(q, qty_of(s, i)))
    } else {
        0
    }
}

/// Price times quantity of what the first `n` orders contribute.
pub open spec fn cost_of(s: Seq<Order>, d: int, q: int, n: int) -> int
    decreases n,
{
    if n <= 0 {
        0
    } else {
        cost_of(s, d, q, n - 1) + fill_of(s, d, q, n - 1) * s[n - 1].price
    }
}

/// How many of the first `d` orders are filled as a whole, before all of `q` is filled.
pub open spec fn whole_fills(s: Seq<Order>, d: int, q: int) -> int
    decreases d,
{
    if d <= 0 {
        0
    } else if qty_of(s, d) <= q && qty_of(s, d - 1) < q {
        d
    } else {
        whole_fills(s, d - 1, q)
    }
}

/// The orders with what they contribute taken off.
pub open spec fn reduced(s: Seq<Order>, d: int, q: int) -> Seq<Order> {
    Seq::new(
        s.len(),
        |i: int| Order { qty: (s[i].qty - fill_of(s, d, q, i)) as i64, ..s[i] },
    )
}

impl Book {
    pub open spec fn wf(self) -> bool {
        &&& self.bids.len() <= MAX_ORDERS_PER_SIDE
        &&& self.asks.len() <= MAX_ORDERS_PER_SIDE
        &&& forall|i: int| 0 <= i < self.bids.len() ==> live(#[trigger] self.bids[i])
        &&& forall|i: int| 0 <= i < self.asks.len() ==> live(#[trigger] self.asks[i])
    }

    /// Both sides are in price-time order.
    pub open spec fn sorted(self) -> bool {
        is_sorted(self.bids, Side::Buy) && is_sorted(self.asks, Side::Sell)
    }

    /// The orders of a side.
    pub open spec fn orders(self, side: Side) -> Seq<Order> {
        match side {
            Side::Buy => self.bids,
            Side::Sell => self.asks,
        }
    }

    pub open spec fn with_orders(self, side: Side, s: Seq<Order>) -> Book {
        match side {
            Side::Buy => Book { bids: s, ..self },
            Side::Sell => Book { asks: s, ..self },
        }
    }

    /// A new order put in its place. A refused order uses up an id if its price and quantity
    /// are positive.
    pub open spec fn insert_order(
        self,
        owner_id: u64,
        side: Side,
        price: i64,
        qty: i64,
        timestamp: u64,
    ) -> (Book, Result<u64, OrderbookError>) {
        let id = self.next_order_id;
        let o = Order { order_id: id, owner_id, side, price, qty, timestamp };
        let b = Book {
            next_order_id: if id == u64::MAX {
                0
            } else {
                (id + 1) as u64
            },
            ..self
        };
        let s = self.orders(side);
        if price <= 0 {
            (self, Err(OrderbookError::InvalidPrice))
        } else if qty <= 0 {
            (self, Err(OrderbookError::InvalidQuantity))
        } else if s.len() >= MAX_ORDERS_PER_SIDE {
            (b, Err(OrderbookError::BookFull))
        } else {
            (b.with_orders(side, s.insert(insert_position(s, o, side, 0), o)), Ok(id))
        }
    }

    /// The first order with the given id taken out; buy orders are looked through first.
    pub open spec fn remove_order(self, id: u64) -> (Book, Result<Order, OrderbookError>) {
        match index_of_id(self.bids, id, 0) {
            Some(i) => (Book { bids: self.bids.remove(i), ..self }, Ok(self.bids[i])),
            None => match index_of_id(self.asks, id, 0) {
                Some(i) => (Book { asks: self.asks.remove(i), ..self }, Ok(self.asks[i])),
                None => (self, Err(OrderbookError::OrderNotFound)),
            },
        }
    }

    /// The first `m` of the listed orders taken out by their ids, from the `k`-th on.
    pub open spec fn remove_listed(self, s: Seq<Order>, m: int, k: int) -> Book
        decreases m - k,
    {
        if k >= m {
            self
        } else {
            self.remove_order(s[k].order_id).0.remove_listed(s, m, k + 1)
        }
    }

    /// The side that an incoming order is matched to.
    pub open spec fn against(side: Side) -> Side {
        match side {
            Side::Buy => Side::Sell,
            Side::Sell => Side::Buy,
        }
    }

    /// An incoming order matched to the other side from its front, as far as prices are good
    /// enough. Orders filled as a whole are taken out.
    pub open spec fn match_orders(self, side: Side, qty: i64, limit: i64) -> (
        Book,
        Result<MatchResult, OrderbookError>,
    ) {
        let s = self.orders(Self::against(side));
        let d = reach(s, side, limit as int, 0);
        let filled = min_int(qty as int, qty_of(s, d));
        let vwap = cost_of(s, d, qty as int, d) / filled;
        if qty <= 0 {
            (self, Err(OrderbookError::InvalidQuantity))
        } else if limit <= 0 {
            (self, Err(OrderbookError::InvalidPrice))
        } else if filled == 0 {
            (self, Err(OrderbookError::NoLiquidity))
        } else {
            (
                self.with_orders(
                    Self::against(side),
                    reduced(s, d, qty as int),
                ).remove_listed(s, whole_fills(s, d, qty as int), 0),
                Ok(
                    MatchResult {
                        filled_qty: filled as i64,
                        vwap_px: vwap as i64,
                        notional: low_i64(filled * vwap / 1_000_000) as i64,
                    },
                ),
            )
        }
    }

    /// Whether the best bid is below the best ask, if there are both.
    pub open spec fn spread_ok(self) -> bool {
        self.bids.len() == 0 || self.asks.len() == 0 || self.bids[0].price < self.asks[0].price
    }
}

/// Slots of a side that held one of the first `m` orders before, and hold none of the first
/// `n` after, are vacant after; slots past both counts are as they were.
pub open spec fn cleared_past(before: Seq<Order>, m: int, after: Seq<Order>, n: int) -> bool {
    &&& forall|k: int| n <= k < m ==> #[trigger] after[k] == Order::vacant()
    &&& forall|k: int|
        m <= k < MAX_ORDERS_PER_SIDE && n <= k ==> #[trigger] after[k] == before[k]
}

impl Orderbook {
    /// All slots past the orders of a side are vacant.
    pub open spec fn is_tidy(&self) -> bool {
        &&& forall|k: int|
            self.num_bids <= k < MAX_ORDERS_PER_SIDE ==> #[trigger] self.bids@[k]
                == Order::vacant()
        &&& forall|k: int|
            self.num_asks <= k < MAX_ORDERS_PER_SIDE ==> #[trigger] self.asks@[k]
                == Order::vacant()
    }

    /// The slots that `after` gave up are vacant, and those that neither book uses are as
    /// they were.
    pub open spec fn leaves_cleared(&self, after: &Orderbook) -> bool {
        &&& cleared_past(
            self.bids@,
            self.num_bids as int,
            after.bids@,
            after.num_bids as int,
        )
        &&& cleared_past(
            self.asks@,
            self.num_asks as int,
            after.asks@,
            after.num_asks as int,
        )
    }

    /// Nothing differs between the two books, not even in slots that hold no order.
    pub open spec fn same_as(&self, other: &Orderbook) -> bool {
        &&& self.next_order_id == other.next_order_id
        &&& self.num_bids == other.num_bids
        &&& self.num_asks == other.num_asks
        &&& self.bids@ == other.bids@
        &&& self.asks@ == other.asks@
    }

    /// No side is over-full.
    pub open spec fn fits(&self) -> bool {
        self.num_bids <= MAX_ORDERS_PER_SIDE && self.num_asks <= MAX_ORDERS_PER_SIDE
    }

    /// The book's invariant: no side is over-full, and resting orders have a positive price
    /// and no negative quantity.
    pub open spec fn wf(&self) -> bool {
        self.fits() && self@.wf()
    }

    /// Creates an empty book.
    pub fn new() -> (r: Orderbook)
        ensures
            r@ == (Book { next_order_id: 1, bids: Seq::empty(), asks: Seq::empty() }),
            r.wf(),
            r.is_tidy(),
    {
        Orderbook {
            next_order_id: 1,
            num_bids: 0,
            num_asks: 0,
            bids: [Order::empty();19],
            asks: [Order::empty();19],
        }
    }
}

/// Whether an order goes before another on a side.
fn goes_before(a: &Order, b: &Order, side: Side) -> (r: bool)
    ensures
        r == a.precedes(*b, side),
{
    let better: bool = match side {
        Side::Buy => a.price > b.price,
        Side::Sell => a.price < b.price,
    };
    better || (a.price == b.price && a.timestamp < b.timestamp)
}

/// Whether the first `count` orders are in the order of a side.
fn is_sorted_side(orders: &[Order], count: usize, side: Side) -> (r: bool)
    requires
        count <= orders@.len(),
    ensures
        r == is_sorted(orders@.take(count as int), side),
{
    let ghost s = orders@.take(count as int);
    if count == 0 {
        return true;
    }
    let mut i: usize = 1;
    while i < count
        invariant
            1 <= i <= count <= orders@.len(),
            s == orders@.take(count as int),
            is_sorted(s.take(i as int), side),
        decreases count - i,
    {
        if goes_before(&orders[i], &orders[i - 1], side) {
            assert(s[i as int].precedes(s[i - 1], side));
            return false;
        }
        proof {
            lemma_sorted_extends(s, i as int, side);
        }
        i += 1;
    }
    assert(s.take(count as int) =~= s);
    true
}

/// Whether the first `count` orders are in the order of the buy side: falling prices, and
/// rising times among equal prices.
pub fn is_sorted_bids(orders: &[Order], count: usize) -> (r: bool)
    requires
        count <= orders@.len(),
    ensures
        r == is_sorted(orders@.take(count as int), Side::Buy),
{
    is_sorted_side(orders, count, Side::Buy)
}

/// Whether the first `count` orders are in the order of the sell side: rising prices, and
/// rising times among equal prices.
pub fn is_sorted_asks(orders: &[Order], count: usize) -> (r: bool)
    requires
        count <= orders@.len(),
    ensures
        r == is_sorted(orders@.take(count as int), Side::Sell),
{
    is_sorted_side(orders, count, Side::Sell)
}

/// Where a new order goes among the first `count`.
pub fn find_insert_position(orders: &[Order], count: usize, order: &Order, side: Side) -> (r: usize)
    requires
        count <= orders@.len(),
    ensures
        r == insert_position(orders@.take(count as int), *order, side, 0),
        r <= count,
{
    let ghost s = orders@.take(count as int);
    let mut i: usize = 0;
    while i < count
        invariant
            i <= count <= orders@.len(),
            s == orders@.take(count as int),
            insert_position(s, *order, side, i as int) == insert_position(s, *order, side, 0),
        decreases count - i,
    {
        if goes_before(order, &orders[i], side) {
            return i;
        }
        i += 1;
    }
    count
}

/// Puts an order at `pos`, and moves those from there on up by one.
fn insert_at(orders: &mut [Order; MAX_ORDERS_PER_SIDE], count: usize, pos: usize, order: Order)
    requires
        pos <= count < MAX_ORDERS_PER_SIDE,
    ensures
        final(orders)@.take(count + 1) == old(orders)@.take(count as int).insert(
            pos as int,
            order,
        ),
        forall|k: int| count < k < MAX_ORDERS_PER_SIDE ==> final(orders)@[k] == old(orders)@[k],
{
    let mut i: usize = count;
    while i > pos
        invariant
            pos <= i <= count < MAX_ORDERS_PER_SIDE,
            orders@.len() == MAX_ORDERS_PER_SIDE,
            old(orders)@.len() == MAX_ORDERS_PER_SIDE,
            forall|k: int| 0 <= k < i ==> orders@[k] == old(orders)@[k],
            forall|k: int| i < k <= count ==> orders@[k] == old(orders)@[k - 1],
            forall|k: int| count < k < MAX_ORDERS_PER_SIDE ==> orders@[k] == old(orders)@[k],
        decreases i,
    {
        let moved: Order = orders[i - 1];
        orders[i] = moved;
        i -= 1;
    }
    orders[pos] = order;
    assert(orders@.take(count + 1) =~= old(orders)@.take(count as int).insert(pos as int, order));
}

/// Takes out the order at `idx`, and moves those after it down by one. The last slot is vacant
/// then.
fn remove_at(orders: &mut [Order; MAX_ORDERS_PER_SIDE], count: usize, idx: usize)
    requires
        idx < count <= MAX_ORDERS_PER_SIDE,
    ensures
        final(orders)@.take(count - 1) == old(orders)@.take(count as int).remove(idx as int),
        final(orders)@[count - 1] == Order::vacant(),
        forall|k: int| count <= k < MAX_ORDERS_PER_SIDE ==> final(orders)@[k] == old(orders)@[k],
{
    let mut i: usize = idx;
    while i < count - 1
        invariant
            idx <= i < count <= MAX_ORDERS_PER_SIDE,
            orders@.len() == MAX_ORDERS_PER_SIDE,
            old(orders)@.len() == MAX_ORDERS_PER_SIDE,
            forall|k: int| 0 <= k < idx ==> orders@[k] == old(orders)@[k],
            forall|k: int| idx <= k < i ==> orders@[k] == old(orders)@[k + 1],
            forall|k: int| i <= k < MAX_ORDERS_PER_SIDE ==> orders@[k] == old(orders)@[k],
        decreases count - i,
    {
        let moved: Order = orders[i + 1];
        orders[i] = moved;
        i += 1;
    }
    orders[count - 1] = Order::empty();
    assert(orders@.take(count - 1) =~= old(orders)@.take(count as int).remove(idx as int));
}

/// Puts a new order into the book by price-time priority; returns its id.
pub fn insert_order(
    book: &mut Orderbook,
    owner_id: u64,
    side: Side,
    price: i64,
    qty: i64,
    timestamp: u64,
) -> (r: Result<u64, OrderbookError>)
    requires
        old(book).wf(),
    ensures
        final(book)@ == old(book)@.insert_order(owner_id, side, price, qty, timestamp).0,
        r == old(book)@.insert_order(owner_id, side, price, qty, timestamp).1,
        final(book).wf(),
        old(book).leaves_cleared(final(book)),
        old(book).is_tidy() ==> final(book).is_tidy(),
{
    if price <= 0 {
        return Err(OrderbookError::InvalidPrice);
    }
    if qty <= 0 {
        return Err(OrderbookError::InvalidQuantity);
    }
    let order_id: u64 = book.next_order_id;
    book.next_order_id = book.next_order_id.wrapping_add(1);
    let order: Order = Order { order_id, owner_id, side, price, qty, timestamp };
    match side {
        Side::Buy => {
            let count: usize = book.num_bids as usize;
            if count >= MAX_ORDERS_PER_SIDE {
                return Err(OrderbookError::BookFull);
            }
            let pos: usize = find_insert_position(&book.bids, count, &order, side);
            insert_at(&mut book.bids, count, pos, order);
            book.num_bids = book.num_bids + 1;
        },
        Side::Sell => {
            let count: usize = book.num_asks as usize;
            if count >= MAX_ORDERS_PER_SIDE {
                return Err(OrderbookError::BookFull);
            }
            let pos: usize = find_insert_position(&book.asks, count, &order, side);
            insert_at(&mut book.asks, count, pos, order);
            book.num_asks = book.num_asks + 1;
        },
    }
    Ok(order_id)
}

/// Where the order with the given id is among the first `count`.
pub fn find_order_index(orders: &[Order], count: usize, order_id: u64) -> (r: Option<usize>)
    requires
        count <= orders@.len(),
    ensures
        match index_of_id(orders@.take(count as int), order_id, 0) {
            Some(i) => r == Some(i as usize) && 0 <= i < count,
            None => r is None,
        },
{
    let ghost s = orders@.take(count as int);
    let mut i: usize = 0;
    while i < count
        invariant
            i <= count <= orders@.len(),
            s == orders@.take(count as int),
            index_of_id(s, order_id, i as int) == index_of_id(s, order_id, 0),
        decreases count - i,
    {
        if orders[i].order_id == order_id {
            return Some(i);
        }
        i += 1;
    }
    None
}

/// Takes an order out of the book by its id. The slot that its side gives up is vacant then;
/// the other side is as it was. Where there is no such order, nothing changes.
pub fn remove_order(book: &mut Orderbook, order_id: u64) -> (r: Result<Order, OrderbookError>)
    requires
        old(book).fits(),
    ensures
        final(book)@ == old(book)@.remove_order(order_id).0,
        r == old(book)@.remove_order(order_id).1,
        final(book).fits(),
        old(book).wf() ==> final(book).wf(),
        old(book).leaves_cleared(final(book)),
        old(book).is_tidy() ==> final(book).is_tidy(),
        match index_of_id(old(book)@.bids, order_id, 0) {
            Some(_) => {
                &&& final(book).num_bids == old(book).num_bids - 1
                &&& final(book).bids@[old(book).num_bids - 1] == Order::vacant()
                &&& final(book).num_asks == old(book).num_asks
                &&& final(book).asks@ == old(book).asks@
            },
            None => match index_of_id(old(book)@.asks, order_id, 0) {
                Some(_) => {
                    &&& final(book).num_asks == old(book).num_asks - 1
                    &&& final(book).asks@[old(book).num_asks - 1] == Order::vacant()
                    &&& final(book).num_bids == old(book).num_bids
                    &&& final(book).bids@ == old(book).bids@
                },
                None => old(book).same_as(final(book)),
            },
        },
{
    if let Some(idx) = find_order_index(&book.bids, book.num_bids as usize, order_id) {
        let order: Order = book.bids[idx];
        let count: usize = book.num_bids as usize;
        remove_at(&mut book.bids, count, idx);
        book.num_bids = book.num_bids - 1;
        return Ok(order);
    }
    if let Some(idx) = find_order_index(&book.asks, book.num_asks as usize, order_id) {
        let order: Order = book.asks[idx];
        let count: usize = book.num_asks as usize;
        remove_at(&mut book.asks, count, idx);
        book.num_asks = book.num_asks - 1;
        return Ok(order);
    }
    Err(OrderbookError::OrderNotFound)
}

/// Whether a price is good enough for an incoming order.
fn is_acceptable(side: Side, price: i64, limit_px: i64) -> (r: bool)
    ensures
        r == acceptable(side, price as int, limit_px as int),
{
    match side {
        Side::Buy => price <= limit_px,
        Side::Sell => price >= limit_px,
    }
}

/// Fills an incoming order from the front of a side. Returns the quantity filled, what it
/// cost, and how many orders were filled as a whole.
fn walk(
    orders: &mut [Order; MAX_ORDERS_PER_SIDE],
    count: usize,
    side: Side,
    qty: i64,
    limit_px: i64,
) -> (r: (i64, i128, usize))
    requires
        count <= MAX_ORDERS_PER_SIDE,
        qty > 0,
        forall|i: int| 0 <= i < count ==> live(#[trigger] old(orders)@[i]),
    ensures
        ({
            let s = old(orders)@.take(count as int);
            let d = reach(s, side, limit_px as int, 0);
            &&& final(orders)@.take(count as int) == reduced(s, d, qty as int)
            &&& r.0 == min_int(qty as int, qty_of(s, d))
            &&& r.1 == cost_of(s, d, qty as int, d)
            &&& r.2 == whole_fills(s, d, qty as int)
            &&& 0 <= r.1 <= r.0 * i64::MAX
            &&& r.2 <= count
        }),
        forall|k: int| count <= k < MAX_ORDERS_PER_SIDE ==> final(orders)@[k] == old(orders)@[k],
{
    let ghost s = orders@.take(count as int);
    let ghost d = reach(s, side, limit_px as int, 0);
    let ghost q = qty as int;
    let mut remaining: i64 = qty;
    let mut total_notional: i128 = 0;
    let mut total_filled: i64 = 0;
    let mut whole: usize = 0;
    let mut i: usize = 0;
    proof {
        lemma_reach(s, side, limit_px as int, 0);
    }
    while i < count
        invariant_except_break
            reach(s, side, limit_px as int, i as int) == d,
        invariant
            i <= count <= MAX_ORDERS_PER_SIDE,
            s == old(orders)@.take(count as int),
            orders@.len() == MAX_ORDERS_PER_SIDE,
            old(orders)@.len() == MAX_ORDERS_PER_SIDE,
            forall|k: int| 0 <= k < count ==> live(#[trigger] s[k]),
            q == qty,
            q > 0,
            d == reach(s, side, limit_px as int, 0),
            i <= d <= count,
            remaining == monus(q, qty_of(s, i as int)),
            total_filled == min_int(q, qty_of(s, i as int)),
            total_notional == cost_of(s, d, q, i as int),
            0 <= total_notional <= total_filled * i64::MAX,
            whole == whole_fills(s, i as int, q),
            whole <= i,
            forall|k: int|
                0 <= k < i ==> #[trigger] orders@[k] == (Order {
                    qty: (s[k].qty - fill_of(s, d, q, k)) as i64,
                    ..s[k]
                }),
            forall|k: int| i <= k < count ==> #[trigger] orders@[k] == s[k],
            forall|k: int| count <= k < MAX_ORDERS_PER_SIDE ==> orders@[k] == old(orders)@[k],
        ensures
            i == d || remaining == 0,
        decreases count - i,
    {
        if remaining <= 0 {
            break;
        }
        let order: Order = orders[i];
        assert(order == s[i as int]);
        assert(live(s[i as int]));
        if !is_acceptable(side, order.price, limit_px) {
            break;
        }
        let fill_qty: i64 = if remaining < order.qty {
            remaining
        } else {
            order.qty
        };
        proof {
            lemma_reach(s, side, limit_px as int, i + 1);
            let f = fill_qty as int;
            let p = order.price as int;
            let t = total_filled as int;
            assert(0 <= f * p <= f * i64::MAX) by (nonlinear_arith)
                requires
                    f >= 0,
                    0 < p <= i64::MAX,
            ;
            assert((t + f) * i64::MAX == t * i64::MAX + f * i64::MAX) by (nonlinear_arith);
            assert((t + f) * i64::MAX <= i64::MAX * i64::MAX) by (nonlinear_arith)
                requires
                    t + f <= i64::MAX,
            ;
            lemma_qty_monotone(s, 0, i as int);
        }
        let notional_delta: i128 = (fill_qty as i128) * (order.price as i128);
        total_notional = total_notional + notional_delta;
        total_filled = total_filled + fill_qty;
        remaining = remaining - fill_qty;
        let left: i64 = order.qty - fill_qty;
        orders[i].qty = left;
        if left == 0 {
            whole += 1;
            proof {
                lemma_whole_before(s, i as int, q);
            }
        }
        i += 1;
    }
    proof {
        lemma_walk_end(s, d, q, i as int);
        assert(orders@.take(count as int) =~= reduced(s, d, q));
    }
    (total_filled, total_notional, whole)
}

/// Takes the first `m` of the listed orders out of the book by their ids.
fn remove_filled(book: &mut Orderbook, ids: &Vec<u64>, Ghost(s): Ghost<Seq<Order>>)
    requires
        old(book).wf(),
        ids@.len() <= s.len(),
        forall|k: int| 0 <= k < ids@.len() ==> #[trigger] ids@[k] == s[k].order_id,
    ensures
        final(book)@ == old(book)@.remove_listed(s, ids@.len() as int, 0),
        final(book).wf(),
        old(book).leaves_cleared(final(book)),
{
    let mut k: usize = 0;
    while k < ids.len()
        invariant
            book.wf(),
            old(book).fits(),
            book.num_bids <= old(book).num_bids,
            book.num_asks <= old(book).num_asks,
            old(book).leaves_cleared(book),
            k <= ids@.len() <= s.len(),
            forall|k: int| 0 <= k < ids@.len() ==> #[trigger] ids@[k] == s[k].order_id,
            book@.remove_listed(s, ids@.len() as int, k as int) == old(book)@.remove_listed(
                s,
                ids@.len() as int,
                0,
            ),
        decreases ids@.len() - k,
    {
        let ghost before = *book;
        match remove_order(book, ids[k]) {
            _ => {},
        }
        proof {
            lemma_cleared_twice(*old(book), before, *book);
        }
        k += 1;
    }
}

/// Matches an incoming order to the other side of the book. The slots of orders that were
/// filled as a whole are vacant then. Where the order is refused, nothing changes.
pub fn match_orders(book: &mut Orderbook, side: Side, qty: i64, limit_px: i64) -> (r: Result<
    MatchResult,
    OrderbookError,
>)
    requires
        old(book).wf(),
    ensures
        final(book)@ == old(book)@.match_orders(side, qty, limit_px).0,
        r == old(book)@.match_orders(side, qty, limit_px).1,
        final(book).wf(),
        old(book).leaves_cleared(final(book)),
        old(book).is_tidy() ==> final(book).is_tidy(),
        r is Err ==> old(book).same_as(final(book)),
{
    if qty <= 0 {
        return Err(OrderbookError::InvalidQuantity);
    }
    if limit_px <= 0 {
        return Err(OrderbookError::InvalidPrice);
    }
    let ghost s = book@.orders(Book::against(side));
    let ghost d = reach(s, side, limit_px as int, 0);
    proof {
        lemma_reach(s, side, limit_px as int, 0);
        lemma_qty_monotone(s, 0, d);
        assert(forall|i: int| 0 <= i < book.num_asks ==> book@.asks[i] == #[trigger] book.asks@[i]);
        assert(forall|i: int| 0 <= i < book.num_bids ==> book@.bids[i] == #[trigger] book.bids@[i]);
    }
    let (total_filled, total_notional, whole): (i64, i128, usize) = match side {
        Side::Buy => {
            let count: usize = book.num_asks as usize;
            walk(&mut book.asks, count, side, qty, limit_px)
        },
        Side::Sell => {
            let count: usize = book.num_bids as usize;
            walk(&mut book.bids, count, side, qty, limit_px)
        },
    };
    if total_filled == 0 {
        proof {
            lemma_nothing_filled(s, d, qty as int);
            lemma_same_slots(old(book).bids@, book.bids@, book.num_bids as int);
            lemma_same_slots(old(book).asks@, book.asks@, book.num_asks as int);
        }
        return Err(OrderbookError::NoLiquidity);
    }
    let ghost after = book@.orders(Book::against(side));
    let ids: Vec<u64> = match side {
        Side::Buy => {
            assert(forall|k: int| 0 <= k < whole ==> after[k] == #[trigger] book.asks@[k]);
            ids_of(&book.asks, whole)
        },
        Side::Sell => {
            assert(forall|k: int| 0 <= k < whole ==> after[k] == #[trigger] book.bids@[k]);
            ids_of(&book.bids, whole)
        },
    };
    assert(forall|k: int| 0 <= k < whole ==> (#[trigger] after[k]).order_id == s[k].order_id);
    remove_filled(book, &ids, Ghost(s));
    let filled: i128 = total_filled as i128;
    proof {
        let f = filled as int;
        let n = total_notional as int;
        assert(0 <= n / f <= i64::MAX && f * (n / f) <= n) by (nonlinear_arith)
            requires
                f > 0,
                0 <= n <= f * i64::MAX,
        ;
        assert(f * i64::MAX <= i64::MAX * i64::MAX) by (nonlinear_arith)
            requires
                f <= i64::MAX,
        ;
    }
    let vwap: i128 = total_notional / filled;
    proof {
        let f = filled as int;
        let v = vwap as int;
        assert(f * v >= 0) by (nonlinear_arith)
            requires
                f > 0,
                v >= 0,
        ;
    }
    let notional: i64 = low_bits_i64(filled * vwap / 1_000_000);
    Ok(MatchResult { filled_qty: total_filled, vwap_px: vwap as i64, notional })
}

/// The ids of the first `m` orders.
fn ids_of(orders: &[Order], m: usize) -> (r: Vec<u64>)
    requires
        m <= orders@.len(),
    ensures
        r@.len() == m,
        forall|k: int| 0 <= k < m ==> #[trigger] r@[k] == orders@[k].order_id,
{
    let mut ids: Vec<u64> = Vec::new();
    let mut k: usize = 0;
    while k < m
        invariant
            k <= m <= orders@.len(),
            ids@.len() == k,
            forall|j: int| 0 <= j < k ==> #[trigger] ids@[j] == orders@[j].order_id,
        decreases m - k,
    {
        ids.push(orders[k].order_id);
        k += 1;
    }
    ids
}

/// Slots cleared on the way from one book to the next stay cleared.
proof fn lemma_cleared_twice(a: Orderbook, b: Orderbook, c: Orderbook)
    requires
        a.fits(),
        a.leaves_cleared(&b),
        b.leaves_cleared(&c),
        c.num_bids <= b.num_bids <= a.num_bids,
        c.num_asks <= b.num_asks <= a.num_asks,
    ensures
        a.leaves_cleared(&c),
{
    assert forall|k: int| c.num_bids <= k < a.num_bids implies #[trigger] c.bids@[k] == Order::vacant() by {
        assert(k < b.num_bids || c.bids@[k] == b.bids@[k]);
    }
    assert forall|k: int| c.num_asks <= k < a.num_asks implies #[trigger] c.asks@[k] == Order::vacant() by {
        assert(k < b.num_asks || c.asks@[k] == b.asks@[k]);
    }
}

/// Two sides are the same when their orders are, and what comes after.
proof fn lemma_same_slots(a: Seq<Order>, b: Seq<Order>, n: int)
    requires
        a.len() == MAX_ORDERS_PER_SIDE,
        b.len() == MAX_ORDERS_PER_SIDE,
        0 <= n <= MAX_ORDERS_PER_SIDE,
        a.take(n) == b.take(n),
        forall|k: int| n <= k < MAX_ORDERS_PER_SIDE ==> a[k] == b[k],
    ensures
        a == b,
{
    assert forall|k: int| 0 <= k < n implies a[k] == b[k] by {
        assert(a[k] == a.take(n)[k] && b[k] == b.take(n)[k]);
    }
    assert(a =~= b);
}

/// Where nothing is filled, no order changes.
proof fn lemma_nothing_filled(s: Seq<Order>, d: int, q: int)
    requires
        0 <= d <= s.len(),
        q > 0,
        min_int(q, qty_of(s, d)) == 0,
        forall|k: int| 0 <= k < s.len() ==> live(#[trigger] s[k]),
    ensures
        reduced(s, d, q) == s,
{
    assert forall|k: int| 0 <= k < d implies (#[trigger] s[k]).qty == 0 by {
        lemma_qty_monotone(s, 0, k);
        lemma_qty_monotone(s, k + 1, d);
        assert(live(s[k]));
    }
    assert(reduced(s, d, q) =~= s);
}

/// Once all is filled, the orders that follow contribute nothing.
proof fn lemma_walk_end(s: Seq<Order>, d: int, q: int, i: int)
    requires
        0 <= i <= d <= s.len(),
        i == d || qty_of(s, i) >= q,
        forall|k: int| 0 <= k < s.len() ==> live(#[trigger] s[k]),
    ensures
        cost_of(s, d, q, d) == cost_of(s, d, q, i),
        min_int(q, qty_of(s, d)) == min_int(q, qty_of(s, i)),
        whole_fills(s, d, q) == whole_fills(s, i, q),
        forall|k: int| i <= k < s.len() ==> #[trigger] fill_of(s, d, q, k) == 0,
{
    lemma_qty_monotone(s, i, d);
    assert forall|k: int| i <= k < s.len() implies #[trigger] fill_of(s, d, q, k) == 0 by {
        if k < d {
            lemma_qty_monotone(s, i, k);
            assert(live(s[k]));
        }
    }
    if i < d {
        lemma_cost_stays(s, d, q, i, d);
        lemma_whole_stays(s, i, d, q);
    }
}

proof fn lemma_cost_stays(s: Seq<Order>, d: int, q: int, i: int, n: int)
    requires
        0 <= i <= n <= s.len(),
        forall|k: int| i <= k < s.len() ==> #[trigger] fill_of(s, d, q, k) == 0,
    ensures
        cost_of(s, d, q, n) == cost_of(s, d, q, i),
    decreases n,
{
    if i < n {
        lemma_cost_stays(s, d, q, i, n - 1);
        assert(fill_of(s, d, q, n - 1) == 0);
        let p = s[n - 1].price as int;
        assert(0 * p == 0) by (nonlinear_arith);
    }
}

proof fn lemma_whole_stays(s: Seq<Order>, i: int, d: int, q: int)
    requires
        0 <= i <= d <= s.len(),
        qty_of(s, i) >= q,
        forall|k: int| 0 <= k < s.len() ==> live(#[trigger] s[k]),
    ensures
        whole_fills(s, d, q) == whole_fills(s, i, q),
    decreases d,
{
    if i < d {
        lemma_qty_monotone(s, i, d - 1);
        lemma_whole_stays(s, i, d - 1, q);
    }
}

/// While something is left to fill, all orders so far were filled as a whole.
proof fn lemma_whole_before(s: Seq<Order>, i: int, q: int)
    requires
        0 <= i <= s.len(),
        qty_of(s, i) < q,
        forall|k: int| 0 <= k < s.len() ==> live(#[trigger] s[k]),
    ensures
        whole_fills(s, i, q) == i,
{
    if i > 0 {
        lemma_qty_monotone(s, i - 1, i);
    }
}

pub proof fn lemma_reach(s: Seq<Order>, side: Side, limit: int, i: int)
    requires
        0 <= i <= s.len(),
    ensures
        i <= reach(s, side, limit, i) <= s.len(),
        forall|k: int|
            i <= k < reach(s, side, limit, i) ==> acceptable(
                side,
                (#[trigger] s[k]).price as int,
                limit,
            ),
        reach(s, side, limit, i) < s.len() ==> !acceptable(
            side,
            s[reach(s, side, limit, i)].price as int,
            limit,
        ),
    decreases s.len() - i,
{
    if i < s.len() && acceptable(side, s[i].price as int, limit) {
        lemma_reach(s, side, limit, i + 1);
    }
}

pub proof fn lemma_qty_monotone(s: Seq<Order>, i: int, j: int)
    requires
        0 <= i <= j <= s.len(),
        forall|k: int| 0 <= k < s.len() ==> live(#[trigger] s[k]),
    ensures
        qty_of(s, i) <= qty_of(s, j),
    decreases j,
{
    if i < j {
        lemma_qty_monotone(s, i, j - 1);
        assert(live(s[j - 1]));
    }
}

/// Whether the best bid is below the best ask, or a side is empty.
pub fn check_spread_invariant(book: &Orderbook) -> (r: bool)
    requires
        book.fits(),
    ensures
        r == book@.spread_ok(),
{
    if book.num_bids == 0 || book.num_asks == 0 {
        return true;
    }
    book.bids[0].price < book.asks[0].price
}

proof fn lemma_sorted_extends(s: Seq<Order>, i: int, side: Side)
    requires
        0 < i < s.len(),
        is_sorted(s.take(i), side),
        !s[i].precedes(s[i - 1], side),
    ensures
        is_sorted(s.take(i + 1), side),
{
    let t = s.take(i + 1);
    let p = s.take(i);
    assert forall|a: int, b: int| 0 <= a < b < t.len() implies !(#[trigger] t[b]).precedes(
        #[trigger] t[a],
        side,
    ) by {
        if b < i {
            assert(p[a] == t[a] && p[b] == t[b]);
        } else if a < i - 1 {
            assert(p[a] == t[a] && p[i - 1] == t[i - 1]);
        }
    }
}

} // verus!
