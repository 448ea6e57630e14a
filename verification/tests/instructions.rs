use percolator::orderbook::{insert_order, Orderbook, Side, MAX_ORDERS_PER_SIDE};
use percolator::slab::{
    process_commit_fill, process_place_order, PercolatorError, SlabHeader, SlabState,
};
use percolator::vault::{process_withdraw, Vault};

const ROUTER: [u8; 32] = [9; 32];

fn slab() -> SlabState {
    SlabState::new(SlabHeader::new(
        [1; 32], [2; 32], ROUTER, [3; 32], 50_000_000, 20, 1_000_000, 7,
    ))
}

fn book_with_asks() -> Orderbook {
    let mut book = Orderbook::new();
    insert_order(&mut book, 1, Side::Sell, 100_000_000, 1_000_000, 10).unwrap();
    insert_order(&mut book, 2, Side::Sell, 110_000_000, 1_000_000, 11).unwrap();
    book
}

#[test]
fn a_fill_is_receipted_and_counted() {
    let mut slab = slab();
    let mut book = book_with_asks();
    let receipt =
        process_commit_fill(&mut slab, &mut book, &ROUTER, 0, Side::Buy, 1_500_000, 120_000_000)
            .unwrap();
    assert_eq!(receipt.seqno_committed, 0);
    assert_eq!(receipt.filled_qty, 1_500_000);
    // One at 100 and a half at 110; the notional is taken at the rounded average.
    assert_eq!(receipt.vwap_px, 103_333_333);
    assert_eq!(receipt.notional, 154_999_999);
    assert_eq!(receipt.fee, 309_999);
    assert_eq!(slab.header.seqno, 1);
    assert_eq!(book.num_asks, 1);
    assert_eq!(book.asks[0].qty, 500_000);
}

#[test]
fn a_fill_commits_once_per_read() {
    let mut slab = slab();
    let mut book = book_with_asks();
    process_commit_fill(&mut slab, &mut book, &ROUTER, 0, Side::Buy, 1, 120_000_000).unwrap();
    let again =
        process_commit_fill(&mut slab, &mut book, &ROUTER, 0, Side::Buy, 1, 120_000_000);
    assert_eq!(again, Err(PercolatorError::SeqnoMismatch));
}

#[test]
fn a_refused_fill_changes_nothing() {
    let mut slab = slab();
    let mut book = book_with_asks();
    let mut fill = |router: [u8; 32], seqno: u32, side: Side, qty: i64, px: i64| {
        process_commit_fill(&mut slab, &mut book, &router, seqno, side, qty, px)
    };
    assert_eq!(fill([0; 32], 5, Side::Buy, 0, 0), Err(PercolatorError::Unauthorized));
    assert_eq!(fill(ROUTER, 5, Side::Buy, 0, 0), Err(PercolatorError::SeqnoMismatch));
    assert_eq!(fill(ROUTER, 0, Side::Buy, 0, 0), Err(PercolatorError::InvalidQuantity));
    assert_eq!(fill(ROUTER, 0, Side::Buy, 1, 0), Err(PercolatorError::InvalidPrice));
    assert_eq!(
        fill(ROUTER, 0, Side::Buy, 1, 99_999_999),
        Err(PercolatorError::InsufficientLiquidity)
    );
    assert_eq!(
        fill(ROUTER, 0, Side::Sell, 1, 1),
        Err(PercolatorError::InsufficientLiquidity)
    );
    assert_eq!(slab.header.seqno, 0);
    assert_eq!(book.num_asks, 2);
    assert_eq!(book.asks[0].qty, 1_000_000);
}

#[test]
fn a_negative_fee_is_a_rebate() {
    let mut slab = slab();
    slab.header.taker_fee_bps = -3;
    let mut book = book_with_asks();
    let receipt =
        process_commit_fill(&mut slab, &mut book, &ROUTER, 0, Side::Buy, 1_000_000, 120_000_000)
            .unwrap();
    assert_eq!(receipt.notional, 100_000_000);
    assert_eq!(receipt.fee, -30_000);
}

#[test]
fn placing_an_order_counts_as_a_change() {
    let mut slab = slab();
    let mut book = Orderbook::new();
    let id = process_place_order(&mut slab, &mut book, 4, Side::Buy, 90_000_000, 5, 77).unwrap();
    assert_eq!(book.bids[0].order_id, id);
    assert_eq!(book.bids[0].owner_id, 4);
    assert_eq!(book.bids[0].timestamp, 77);
    assert_eq!(slab.header.seqno, 1);
}

#[test]
fn an_order_is_refused_by_price_quantity_and_room() {
    let mut slab = slab();
    let mut book = Orderbook::new();
    assert_eq!(
        process_place_order(&mut slab, &mut book, 4, Side::Buy, 0, 0, 1),
        Err(PercolatorError::InvalidPrice)
    );
    assert_eq!(
        process_place_order(&mut slab, &mut book, 4, Side::Buy, 1, 0, 1),
        Err(PercolatorError::InvalidQuantity)
    );
    for i in 0..MAX_ORDERS_PER_SIDE {
        process_place_order(&mut slab, &mut book, 4, Side::Buy, 1, 1, i as u64).unwrap();
    }
    assert_eq!(
        process_place_order(&mut slab, &mut book, 4, Side::Buy, 1, 1, 1),
        Err(PercolatorError::PoolFull)
    );
    assert_eq!(slab.header.seqno, MAX_ORDERS_PER_SIDE as u32);
}

#[test]
fn the_count_of_changes_wraps() {
    let mut slab = slab();
    slab.header.seqno = u32::MAX;
    let mut book = Orderbook::new();
    process_place_order(&mut slab, &mut book, 4, Side::Sell, 1, 1, 1).unwrap();
    assert_eq!(slab.header.seqno, 0);
}

#[test]
fn only_free_collateral_within_the_limit_is_withdrawn() {
    let mut vault = Vault { balance: 100, total_pledged: 60 };
    assert_eq!(process_withdraw(&mut vault, 100, 0), Err(PercolatorError::InvalidQuantity));
    assert_eq!(process_withdraw(&mut vault, -5, 1), Err(PercolatorError::InsufficientFunds));
    assert_eq!(process_withdraw(&mut vault, 10, 11), Err(PercolatorError::InsufficientFunds));
    assert_eq!(process_withdraw(&mut vault, 100, 41), Err(PercolatorError::InsufficientFunds));
    assert_eq!(vault, Vault { balance: 100, total_pledged: 60 });
    assert_eq!(process_withdraw(&mut vault, 100, 40), Ok(()));
    assert_eq!(vault, Vault { balance: 60, total_pledged: 60 });
    assert_eq!(process_withdraw(&mut vault, 100, 1), Err(PercolatorError::InsufficientFunds));
}
