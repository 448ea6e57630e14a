//! The slab account: header, quote cache and book area; and the instructions that work on it.
use vstd::prelude::*;

use crate::keys::same_key;
use crate::math::{div_trunc_i128, low_bits_i64, low_i64, tdiv};
use crate::orderbook::{
    insert_order, match_orders, Book, MatchResult, Orderbook, OrderbookError, Side,
};

verus! {

/// Errors of the on-chain instructions
#[derive(Debug, Clone, Copy, PartialEq, Eq, Structural)]
pub enum PercolatorError {
    /// A required authority is missing
    Unauthorized,
    /// The book has changed since it was read
    SeqnoMismatch,
    /// The quantity is not positive
    InvalidQuantity,
    /// The price is not positive
    InvalidPrice,
    /// Nothing can be filled at the limit price
    InsufficientLiquidity,
    /// The book is full
    PoolFull,
    /// An account is not the expected one
    InvalidAccount,
    /// The account is in use already
    AlreadyInitialized,
    /// There are not enough funds
    InsufficientFunds,
}

/// Instruction discriminator
#[derive(Debug, Clone, Copy, PartialEq, Eq, Structural)]
pub enum SlabInstruction {
    /// Initialize slab
    Initialize,
    /// Commit fill
    CommitFill,
    /// Place order
    PlaceOrder,
    /// Cancel order
    CancelOrder,
    /// Update funding rate
    UpdateFunding,
    /// Halt trading
    HaltTrading,
    /// Resume trading
    ResumeTrading,
}

impl SlabInstruction {
    /// The byte that an instruction begins with. Four belongs to liquidity adapters.
    pub open spec fn code(self) -> u8 {
        match self {
            SlabInstruction::Initialize => 0,
            SlabInstruction::CommitFill => 1,
            SlabInstruction::PlaceOrder => 2,
            SlabInstruction::CancelOrder => 3,
            SlabInstruction::UpdateFunding => 5,
            SlabInstruction::HaltTrading => 6,
            SlabInstruction::ResumeTrading => 7,
        }
    }

    /// The byte that an instruction begins with.
    pub fn discriminator(self) -> (r: u8)
        ensures
            r == self.code(),
    {
        match self {
            SlabInstruction::Initialize => 0,
            SlabInstruction::CommitFill => 1,
            SlabInstruction::PlaceOrder => 2,
            SlabInstruction::CancelOrder => 3,
            SlabInstruction::UpdateFunding => 5,
            SlabInstruction::HaltTrading => 6,
            SlabInstruction::ResumeTrading => 7,
        }
    }
}

/// Slab metadata
#[derive(Debug, Clone, Copy)]
pub struct SlabHeader {
    /// Slab program
    pub program_id: [u8; 32],
    /// Liquidity provider that owns the slab
    pub lp_owner: [u8; 32],
    /// Router that may commit fills
    pub router_id: [u8; 32],
    /// Instrument
    pub instrument: [u8; 32],
    /// Mark price, scaled by a million
    pub mark_px: i64,
    /// Taker fee in basis points
    pub taker_fee_bps: i64,
    /// Contract size, scaled by a million
    pub contract_size: i64,
    /// Number of changes to the book, modulo two to the power 32
    pub seqno: u32,
    /// Bump of the derived address
    pub bump: u8,
    /// Unused
    pub reserved: [u8; 99],
}

/// Quotes as they were at some change of the book
#[derive(Debug, Clone, Copy)]
pub struct QuoteCache {
    /// Number of the change
    pub seqno_snapshot: u32,
    /// Unused
    pub reserved: [u8; 252],
}

/// Book area
#[derive(Debug, Clone, Copy)]
pub struct BookArea {
    /// Bytes of the book
    pub data: [u8; 3072],
}

/// Slab account
#[derive(Debug, Clone, Copy)]
pub struct SlabState {
    /// Metadata
    pub header: SlabHeader,
    /// Quote cache
    pub quote_cache: QuoteCache,
    /// Book area
    pub book: BookArea,
}

/// The number after a change of the book.
pub open spec fn next_seqno(n: u32) -> u32 {
    if n == u32::MAX {
        0
    } else {
        (n + 1) as u32
    }
}

impl SlabHeader {
    /// The header of a new slab.
    pub fn new(
        program_id: [u8; 32],
        lp_owner: [u8; 32],
        router_id: [u8; 32],
        instrument: [u8; 32],
        mark_px: i64,
        taker_fee_bps: i64,
        contract_size: i64,
        bump: u8,
    ) -> (r: SlabHeader)
        ensures
            r.program_id == program_id,
            r.lp_owner == lp_owner,
            r.router_id == router_id,
            r.instrument == instrument,
            r.mark_px == mark_px,
            r.taker_fee_bps == taker_fee_bps,
            r.contract_size == contract_size,
            r.seqno == 0,
            r.bump == bump,
            forall|i: int| 0 <= i < 99 ==> r.reserved@[i] == 0,
    {
        SlabHeader {
            program_id,
            lp_owner,
            router_id,
            instrument,
            mark_px,
            taker_fee_bps,
            contract_size,
            seqno: 0,
            bump,
            reserved: [0;99],
        }
    }

    /// The header after a change of the book.
    pub open spec fn changed(self) -> SlabHeader {
        SlabHeader { seqno: next_seqno(self.seqno), ..self }
    }

    /// Notes a change of the book.
    pub fn increment_seqno(&mut self)
        ensures
            *final(self) == old(self).changed(),
    {
        self.seqno = self.seqno.wrapping_add(1);
    }
}

impl QuoteCache {
    /// An empty cache.
    pub fn new() -> (r: QuoteCache)
        ensures
            r.seqno_snapshot == 0,
            forall|i: int| 0 <= i < 252 ==> r.reserved@[i] == 0,
    {
        QuoteCache { seqno_snapshot: 0, reserved: [0;252] }
    }
}

impl BookArea {
    /// An empty area.
    pub fn new() -> (r: BookArea)
        ensures
            forall|i: int| 0 <= i < 3072 ==> r.data@[i] == 0,
    {
        BookArea { data: [0;3072] }
    }
}

impl SlabState {
    /// Size of the account
    pub const LEN: usize = 3584;

    /// A new slab with an empty cache and an empty book.
    pub fn new(header: SlabHeader) -> (r: SlabState)
        ensures
            r.header == header,
            r.quote_cache.seqno_snapshot == 0,
            forall|i: int| 0 <= i < 252 ==> r.quote_cache.reserved@[i] == 0,
            forall|i: int| 0 <= i < 3072 ==> r.book.data@[i] == 0,
    {
        SlabState { header, quote_cache: QuoteCache::new(), book: BookArea::new() }
    }

    /// The slab after a change of the book.
    pub open spec fn changed(self) -> SlabState {
        SlabState { header: self.header.changed(), ..self }
    }
}

/// What a committed fill came to
#[derive(Debug, Clone, Copy, PartialEq, Eq, Structural)]
pub struct FillReceipt {
    /// Number of changes to the book before the fill
    pub seqno_committed: u32,
    /// Quantity filled
    pub filled_qty: i64,
    /// Volume-weighted average price
    pub vwap_px: i64,
    /// Filled quantity at the average price
    pub notional: i64,
    /// Taker fee
    pub fee: i64,
}

/// The taker fee on a fill: basis points of its notional, cut to 64 bits.
pub open spec fn taker_fee(notional: int, bps: int) -> int {
    low_i64(tdiv(notional * bps, 10_000))
}

/// The error of an instruction for an error of the book.
pub open spec fn fill_error(e: OrderbookError) -> PercolatorError {
    match e {
        OrderbookError::InvalidPrice => PercolatorError::InvalidPrice,
        OrderbookError::InvalidQuantity => PercolatorError::InvalidQuantity,
        _ => PercolatorError::InsufficientLiquidity,
    }
}

/// The error of an instruction for an error of the book.
pub open spec fn placement_error(e: OrderbookError) -> PercolatorError {
    match e {
        OrderbookError::InvalidPrice => PercolatorError::InvalidPrice,
        OrderbookError::InvalidQuantity => PercolatorError::InvalidQuantity,
        _ => PercolatorError::PoolFull,
    }
}

/// A fill committed by the slab's router against the book as the router knew it.
pub open spec fn commit_fill(
    slab: SlabState,
    book: Book,
    router: [u8; 32],
    expected_seqno: u32,
    side: Side,
    qty: i64,
    limit_px: i64,
) -> (SlabState, Book, Result<FillReceipt, PercolatorError>) {
    if slab.header.router_id != router {
        (slab, book, Err(PercolatorError::Unauthorized))
    } else if slab.header.seqno != expected_seqno {
        (slab, book, Err(PercolatorError::SeqnoMismatch))
    } else {
        match book.match_orders(side, qty, limit_px) {
            (b, Err(e)) => (slab, b, Err(fill_error(e))),
            (b, Ok(m)) => (
                slab.changed(),
                b,
                Ok(
                    FillReceipt {
                        seqno_committed: slab.header.seqno,
                        filled_qty: m.filled_qty,
                        vwap_px: m.vwap_px,
                        notional: m.notional,
                        fee: taker_fee(
                            m.notional as int,
                            slab.header.taker_fee_bps as int,
                        ) as i64,
                    },
                ),
            ),
        }
    }
}

/// Fills an order against the book on behalf of the router. Refused if the signer is not the
/// slab's router, or if the book has changed since the router read it.
pub fn process_commit_fill(
    slab: &mut SlabState,
    book: &mut Orderbook,
    router_signer: &[u8; 32],
    expected_seqno: u32,
    side: Side,
    qty: i64,
    limit_px: i64,
) -> (r: Result<FillReceipt, PercolatorError>)
    requires
        old(book).wf(),
    ensures
        ({
            let w = commit_fill(
                *old(slab),
                old(book)@,
                *router_signer,
                expected_seqno,
                side,
                qty,
                limit_px,
            );
            *final(slab) == w.0 && final(book)@ == w.1 && r == w.2
        }),
        final(book).wf(),
        old(book).is_tidy() ==> final(book).is_tidy(),
{
    if !same_key(&slab.header.router_id, router_signer) {
        return Err(PercolatorError::Unauthorized);
    }
    if slab.header.seqno != expected_seqno {
        return Err(PercolatorError::SeqnoMismatch);
    }
    if qty <= 0 {
        return Err(PercolatorError::InvalidQuantity);
    }
    if limit_px <= 0 {
        return Err(PercolatorError::InvalidPrice);
    }
    let seqno_start: u32 = slab.header.seqno;
    let matched: MatchResult = match match_orders(book, side, qty, limit_px) {
        Ok(m) => m,
        Err(OrderbookError::InvalidPrice) => {
            return Err(PercolatorError::InvalidPrice);
        },
        Err(OrderbookError::InvalidQuantity) => {
            return Err(PercolatorError::InvalidQuantity);
        },
        Err(_) => {
            return Err(PercolatorError::InsufficientLiquidity);
        },
    };
    proof {
        let n = matched.notional as int;
        let b = slab.header.taker_fee_bps as int;
        assert(-0x4000_0000_0000_0000_0000_0000_0000_0000 <= n * b
            <= 0x4000_0000_0000_0000_0000_0000_0000_0000) by (nonlinear_arith)
            requires
                -0x8000_0000_0000_0000 <= n <= 0x7fff_ffff_ffff_ffff,
                -0x8000_0000_0000_0000 <= b <= 0x7fff_ffff_ffff_ffff,
        ;
    }
    let fee: i64 = low_bits_i64(
        div_trunc_i128(
            (matched.notional as i128) * (slab.header.taker_fee_bps as i128),
            10_000,
        ),
    );
    slab.header.increment_seqno();
    Ok(
        FillReceipt {
            seqno_committed: seqno_start,
            filled_qty: matched.filled_qty,
            vwap_px: matched.vwap_px,
            notional: matched.notional,
            fee,
        },
    )
}

/// Puts a resting order into the book; returns its id.
pub fn process_place_order(
    slab: &mut SlabState,
    book: &mut Orderbook,
    owner_id: u64,
    side: Side,
    price: i64,
    qty: i64,
    timestamp: u64,
) -> (r: Result<u64, PercolatorError>)
    requires
        old(book).wf(),
    ensures
        final(book)@ == old(book)@.insert_order(owner_id, side, price, qty, timestamp).0,
        match old(book)@.insert_order(owner_id, side, price, qty, timestamp).1 {
            Ok(id) => r == Ok::<u64, PercolatorError>(id) && *final(slab) == old(slab).changed(),
            Err(e) => r == Err::<u64, PercolatorError>(placement_error(e)) && *final(slab) == *old(
                slab,
            ),
        },
        final(book).wf(),
        old(book).is_tidy() ==> final(book).is_tidy(),
{
    if price <= 0 {
        return Err(PercolatorError::InvalidPrice);
    }
    if qty <= 0 {
        return Err(PercolatorError::InvalidQuantity);
    }
    let order_id: u64 = match insert_order(book, owner_id, side, price, qty, timestamp) {
        Ok(id) => id,
        Err(OrderbookError::InvalidPrice) => {
            return Err(PercolatorError::InvalidPrice);
        },
        Err(OrderbookError::InvalidQuantity) => {
            return Err(PercolatorError::InvalidQuantity);
        },
        Err(_) => {
            return Err(PercolatorError::PoolFull);
        },
    };
    slab.header.increment_seqno();
    Ok(order_id)
}

/// A fill that was committed cannot be committed again with the same expectation: the book
/// has changed in between.
pub proof fn law_fill_commits_once(
    slab: SlabState,
    book: Book,
    router: [u8; 32],
    expected_seqno: u32,
    side: Side,
    qty: i64,
    limit_px: i64,
)
    requires
        commit_fill(slab, book, router, expected_seqno, side, qty, limit_px).2 is Ok,
    ensures
        ({
            let (s, b, _) = commit_fill(slab, book, router, expected_seqno, side, qty, limit_px);
            commit_fill(s, b, router, expected_seqno, side, qty, limit_px).2 == Err::<
                FillReceipt,
                PercolatorError,
            >(PercolatorError::SeqnoMismatch)
        }),
{
}

/// A refused fill changes neither the slab nor the book.
pub proof fn law_refused_fill_changes_nothing(
    slab: SlabState,
    book: Book,
    router: [u8; 32],
    expected_seqno: u32,
    side: Side,
    qty: i64,
    limit_px: i64,
)
    requires
        commit_fill(slab, book, router, expected_seqno, side, qty, limit_px).2 is Err,
    ensures
        commit_fill(slab, book, router, expected_seqno, side, qty, limit_px).0 == slab,
        commit_fill(slab, book, router, expected_seqno, side, qty, limit_px).1 == book,
{
}

} // verus!
