use percolator::orderbook::{
    check_spread_invariant, insert_order, is_sorted_asks, is_sorted_bids, match_orders,
    remove_order, Order, Orderbook, OrderbookError, Side, MAX_ORDERS_PER_SIDE,
};

#[test]
fn test_insert_bid_sorted() {
    let mut book = Orderbook::new();

    // Insert bids at different prices
    let id1 = insert_order(&mut book, 1, Side::Buy, 100_000_000, 1_000_000, 1000).unwrap();
    let id2 = insert_order(&mut book, 2, Side::Buy, 105_000_000, 2_000_000, 1001).unwrap();
    let id3 = insert_order(&mut book, 3, Side::Buy, 95_000_000, 1_500_000, 1002).unwrap();

    assert_eq!(book.num_bids, 3);

    // Should be sorted descending by price
    assert_eq!(book.bids[0].order_id, id2); // $105
    assert_eq!(book.bids[0].price, 105_000_000);
    assert_eq!(book.bids[1].order_id, id1); // $100
    assert_eq!(book.bids[1].price, 100_000_000);
    assert_eq!(book.bids[2].order_id, id3); // $95
    assert_eq!(book.bids[2].price, 95_000_000);

    // Verify sorted property
    assert!(is_sorted_bids(&book.bids, book.num_bids as usize));
}

#[test]
fn test_insert_ask_sorted() {
    let mut book = Orderbook::new();

    // Insert asks at different prices
    let id1 = insert_order(&mut book, 1, Side::Sell, 100_000_000, 1_000_000, 1000).unwrap();
    let id2 = insert_order(&mut book, 2, Side::Sell, 95_000_000, 2_000_000, 1001).unwrap();
    let id3 = insert_order(&mut book, 3, Side::Sell, 105_000_000, 1_500_000, 1002).unwrap();

    assert_eq!(book.num_asks, 3);

    // Should be sorted ascending by price
    assert_eq!(book.asks[0].order_id, id2); // $95
    assert_eq!(book.asks[0].price, 95_000_000);
    assert_eq!(book.asks[1].order_id, id1); // $100
    assert_eq!(book.asks[1].price, 100_000_000);
    assert_eq!(book.asks[2].order_id, id3); // $105
    assert_eq!(book.asks[2].price, 105_000_000);

    // Verify sorted property
    assert!(is_sorted_asks(&book.asks, book.num_asks as usize));
}

#[test]
fn test_fifo_ordering_same_price() {
    let mut book = Orderbook::new();

    // Insert three bids at same price with different timestamps
    let id1 = insert_order(&mut book, 1, Side::Buy, 100_000_000, 1_000_000, 1000).unwrap();
    let id2 = insert_order(&mut book, 2, Side::Buy, 100_000_000, 2_000_000, 1001).unwrap();
    let id3 = insert_order(&mut book, 3, Side::Buy, 100_000_000, 1_500_000, 999).unwrap();

    assert_eq!(book.num_bids, 3);

    // Should be sorted by timestamp (FIFO) at same price
    assert_eq!(book.bids[0].order_id, id3); // timestamp 999
    assert_eq!(book.bids[1].order_id, id1); // timestamp 1000
    assert_eq!(book.bids[2].order_id, id2); // timestamp 1001
}

#[test]
fn test_remove_order() {
    let mut book = Orderbook::new();

    // Insert orders
    let id1 = insert_order(&mut book, 1, Side::Buy, 100_000_000, 1_000_000, 1000).unwrap();
    let id2 = insert_order(&mut book, 2, Side::Buy, 105_000_000, 2_000_000, 1001).unwrap();
    let id3 = insert_order(&mut book, 3, Side::Buy, 95_000_000, 1_500_000, 1002).unwrap();

    assert_eq!(book.num_bids, 3);

    // Remove middle order
    let removed = remove_order(&mut book, id1).unwrap();
    assert_eq!(removed.order_id, id1);
    assert_eq!(book.num_bids, 2);

    // Check remaining orders are still sorted
    assert_eq!(book.bids[0].order_id, id2);
    assert_eq!(book.bids[1].order_id, id3);
    assert!(is_sorted_bids(&book.bids, book.num_bids as usize));
}

#[test]
fn test_match_orders_full_fill() {
    let mut book = Orderbook::new();

    // Insert asks
    insert_order(&mut book, 1, Side::Sell, 100_000_000, 1_000_000, 1000).unwrap();
    insert_order(&mut book, 2, Side::Sell, 105_000_000, 2_000_000, 1001).unwrap();

    // Match: buy 3M units at limit $110
    let result = match_orders(&mut book, Side::Buy, 3_000_000, 110_000_000).unwrap();

    assert_eq!(result.filled_qty, 3_000_000);
    // VWAP = (1M * $100 + 2M * $105) / 3M = $103.33
    assert!(result.vwap_px >= 103_000_000 && result.vwap_px <= 104_000_000);
}

#[test]
fn test_match_orders_partial_fill() {
    let mut book = Orderbook::new();

    // Insert ask: 1M units at $100
    insert_order(&mut book, 1, Side::Sell, 100_000_000, 1_000_000, 1000).unwrap();

    // Match: try to buy 2M units (only 1M available)
    let result = match_orders(&mut book, Side::Buy, 2_000_000, 110_000_000).unwrap();

    assert_eq!(result.filled_qty, 1_000_000); // Partial fill
    assert_eq!(result.vwap_px, 100_000_000);
}

#[test]
fn test_match_orders_price_limit() {
    let mut book = Orderbook::new();

    // Insert asks at different prices
    insert_order(&mut book, 1, Side::Sell, 100_000_000, 1_000_000, 1000).unwrap();
    insert_order(&mut book, 2, Side::Sell, 105_000_000, 2_000_000, 1001).unwrap();
    insert_order(&mut book, 3, Side::Sell, 110_000_000, 1_500_000, 1002).unwrap();

    // Match: buy up to $103 limit (should only fill first order)
    let result = match_orders(&mut book, Side::Buy, 5_000_000, 103_000_000).unwrap();

    assert_eq!(result.filled_qty, 1_000_000); // Only first order filled
    assert_eq!(result.vwap_px, 100_000_000);
}

#[test]
fn test_spread_invariant() {
    let mut book = Orderbook::new();

    // Empty book - invariant holds
    assert!(check_spread_invariant(&book));

    // Insert bid at $95, ask at $105
    insert_order(&mut book, 1, Side::Buy, 95_000_000, 1_000_000, 1000).unwrap();
    insert_order(&mut book, 2, Side::Sell, 105_000_000, 1_000_000, 1001).unwrap();

    // Spread is valid: bid ($95) < ask ($105)
    assert!(check_spread_invariant(&book));
}

#[test]
fn test_capacity_limit() {
    let mut book = Orderbook::new();

    // Fill up the bid side
    for i in 0..MAX_ORDERS_PER_SIDE {
        let result = insert_order(
            &mut book,
            i as u64,
            Side::Buy,
            100_000_000 - (i as i64 * 1_000),
            1_000_000,
            1000 + i as u64,
        );
        assert!(result.is_ok());
    }

    assert_eq!(book.num_bids, MAX_ORDERS_PER_SIDE as u16);

    // Try to insert one more - should fail
    let result = insert_order(&mut book, 99, Side::Buy, 50_000_000, 1_000_000, 2000);
    assert_eq!(result, Err(OrderbookError::BookFull));
}

#[test]
fn test_order_id_monotonic() {
    let mut book = Orderbook::new();

    let id1 = insert_order(&mut book, 1, Side::Buy, 100_000_000, 1_000_000, 1000).unwrap();
    let id2 = insert_order(&mut book, 2, Side::Sell, 105_000_000, 2_000_000, 1001).unwrap();
    let id3 = insert_order(&mut book, 3, Side::Buy, 95_000_000, 1_500_000, 1002).unwrap();

    // Order IDs should be monotonically increasing
    assert!(id1 < id2);
    assert!(id2 < id3);
}

#[test]
fn errors_of_the_book() {
    let mut book = Orderbook::new();
    assert_eq!(
        insert_order(&mut book, 1, Side::Buy, 0, 1, 1),
        Err(OrderbookError::InvalidPrice)
    );
    assert_eq!(
        insert_order(&mut book, 1, Side::Buy, 1, -1, 1),
        Err(OrderbookError::InvalidQuantity)
    );
    assert_eq!(remove_order(&mut book, 1).unwrap_err(), OrderbookError::OrderNotFound);
    assert_eq!(
        match_orders(&mut book, Side::Buy, 0, 1).unwrap_err(),
        OrderbookError::InvalidQuantity
    );
    assert_eq!(
        match_orders(&mut book, Side::Buy, 1, 0).unwrap_err(),
        OrderbookError::InvalidPrice
    );
    assert_eq!(
        match_orders(&mut book, Side::Buy, 1, 1).unwrap_err(),
        OrderbookError::NoLiquidity
    );
}

#[test]
fn an_order_is_removed_once() {
    let mut book = Orderbook::new();
    let id = insert_order(&mut book, 1, Side::Sell, 5, 7, 1).unwrap();
    let order = remove_order(&mut book, id).unwrap();
    assert_eq!(order.order_id, id);
    assert_eq!(order.qty, 7);
    assert_eq!(remove_order(&mut book, id).unwrap_err(), OrderbookError::OrderNotFound);
    assert_eq!(book.num_asks, 0);
}

#[test]
fn earlier_orders_fill_first() {
    let mut book = Orderbook::new();
    let late = insert_order(&mut book, 1, Side::Sell, 100, 10, 9).unwrap();
    let early = insert_order(&mut book, 2, Side::Sell, 100, 10, 3).unwrap();
    let dear = insert_order(&mut book, 3, Side::Sell, 120, 10, 1).unwrap();
    let result = match_orders(&mut book, Side::Buy, 15, 110).unwrap();
    assert_eq!(result.filled_qty, 15);
    assert_eq!(result.vwap_px, 100);
    assert_eq!(book.num_asks, 2);
    assert_eq!(book.asks[0].order_id, late);
    assert_eq!(book.asks[0].qty, 5);
    assert_eq!(book.asks[1].order_id, dear);
    assert_eq!(remove_order(&mut book, early).unwrap_err(), OrderbookError::OrderNotFound);
}

#[test]
fn the_average_price_is_within_the_limit() {
    let mut book = Orderbook::new();
    insert_order(&mut book, 1, Side::Buy, 300, 1, 1).unwrap();
    insert_order(&mut book, 1, Side::Buy, 200, 2, 2).unwrap();
    insert_order(&mut book, 1, Side::Buy, 100, 3, 3).unwrap();
    let result = match_orders(&mut book, Side::Sell, 6, 150).unwrap();
    assert_eq!(result.filled_qty, 3);
    assert_eq!(result.vwap_px, 233);
    assert_eq!(book.num_bids, 1);
    assert!(check_spread_invariant(&book));
}

#[test]
fn a_huge_notional_keeps_its_low_bits() {
    let mut book = Orderbook::new();
    insert_order(&mut book, 1, Side::Sell, i64::MAX, i64::MAX, 1).unwrap();
    insert_order(&mut book, 1, Side::Sell, i64::MAX, i64::MAX, 2).unwrap();
    let result = match_orders(&mut book, Side::Buy, i64::MAX, i64::MAX).unwrap();
    assert_eq!(result.filled_qty, i64::MAX);
    assert_eq!(result.vwap_px, i64::MAX);
    assert_eq!(result.notional, 7_155_547_366_424_156_200);
    assert_eq!(book.num_asks, 1);
}

#[test]
fn vacated_slots_are_empty() {
    let mut book = Orderbook::new();
    for i in 0..MAX_ORDERS_PER_SIDE {
        insert_order(&mut book, 1, Side::Sell, 100 + i as i64, 10, i as u64).unwrap();
    }
    let bid = insert_order(&mut book, 2, Side::Buy, 50, 10, 99).unwrap();
    let bids = book.bids;
    let next = book.next_order_id;

    // The first ask goes, and the last slot is given up.
    let removed = remove_order(&mut book, 1).unwrap();
    assert_eq!(removed.price, 100);
    assert_eq!(book.num_asks as usize, MAX_ORDERS_PER_SIDE - 1);
    assert_eq!(book.asks[MAX_ORDERS_PER_SIDE - 1], Order::empty());
    assert_eq!(book.asks[MAX_ORDERS_PER_SIDE - 2].price, 118);
    assert_eq!(book.bids, bids);
    assert_eq!(book.next_order_id, next);

    // Three asks are filled as a whole, and a fourth in part.
    match_orders(&mut book, Side::Buy, 35, 200).unwrap();
    assert_eq!(book.num_asks as usize, MAX_ORDERS_PER_SIDE - 4);
    for slot in &book.asks[MAX_ORDERS_PER_SIDE - 4..] {
        assert_eq!(*slot, Order::empty());
    }
    assert_eq!(book.asks[0].qty, 5);
    assert_eq!(book.bids, bids);

    // What is refused changes nothing.
    let asks = book.asks;
    assert_eq!(remove_order(&mut book, 1), Err(OrderbookError::OrderNotFound));
    assert_eq!(match_orders(&mut book, Side::Buy, 5, 1), Err(OrderbookError::NoLiquidity));
    assert_eq!(book.asks, asks);
    assert_eq!(book.bids, bids);

    remove_order(&mut book, bid).unwrap();
    assert_eq!(book.num_bids, 0);
    assert_eq!(book.bids[0], Order::empty());
}

#[test]
fn who_takes_more_gets_no_better_average() {
    let mut asks = Orderbook::new();
    let mut bids = Orderbook::new();
    for (i, price) in [100, 110, 150].into_iter().enumerate() {
        insert_order(&mut asks, 1, Side::Sell, price, 4, i as u64).unwrap();
        insert_order(&mut bids, 1, Side::Buy, price, 4, i as u64).unwrap();
    }
    let mut bought = Vec::new();
    let mut sold = Vec::new();
    for qty in [3, 8, 12, 20] {
        bought.push(match_orders(&mut asks.clone(), Side::Buy, qty, 200).unwrap().vwap_px);
        sold.push(match_orders(&mut bids.clone(), Side::Sell, qty, 50).unwrap().vwap_px);
    }
    assert_eq!(bought, vec![100, 105, 120, 120]);
    assert_eq!(sold, vec![150, 130, 120, 120]);
}
