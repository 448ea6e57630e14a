//! What the vault pays, what a fill is charged, when a registry is set up, and what is in the
//! data of a request, told by numbers and bytes.
use vstd::prelude::*;

use crate::orderbook::{Book, MatchResult, OrderbookError, Side};
use crate::registry::{registry_setup, RegistryAccount, RegistryHeader};
use crate::requests::{
    bits_of_i64, cancel_order_bytes, initial_mark_px, initialize_slab_bytes, le_bytes,
    place_order_bytes, register_slab_bytes, side_of, update_funding_bytes, SlabTerms,
};
use crate::rounding::rounded_to_zero;
use crate::slab::{
    commit_fill, fill_error, placement_error, FillReceipt, PercolatorError, SlabInstruction,
    SlabState,
};
use crate::types::zero_key;
use crate::vault::{vault_withdrawal, Vault};

verus! {

/// The vault pays exactly what is asked for where it is something, the owner may take it out,
/// and it is there beyond what is pledged; otherwise it keeps all, and says which of these
/// failed.
pub proof fn law_vault_pays_what_is_free(vault: Vault, limit: i128, amount: u128)
    ensures
        ({
            let (after, r) = vault_withdrawal(vault, limit, amount);
            let none = Err::<(), PercolatorError>(PercolatorError::InvalidQuantity);
            let short = Err::<(), PercolatorError>(PercolatorError::InsufficientFunds);
            &&& r is Ok <==> amount > 0 && amount <= limit && amount + vault.total_pledged
                <= vault.balance
            &&& r is Ok ==> after.balance == vault.balance - amount
            &&& r is Err ==> after.balance == vault.balance
            &&& r == none <==> amount == 0
            &&& r == short <==> amount > 0 && (amount > limit || amount + vault.total_pledged
                > vault.balance)
            &&& after.total_pledged == vault.total_pledged
        }),
{
}

/// A fill is committed for the slab's own router only, at the sequence number that it
/// expects, and where the book has a match for it; each refusal says why.
pub proof fn law_fill_is_refused(
    slab: SlabState,
    book: Book,
    router: [u8; 32],
    expected: u32,
    side: Side,
    qty: i64,
    limit: i64,
)
    ensures
        ({
            let r = commit_fill(slab, book, router, expected, side, qty, limit).2;
            let known = slab.header.router_id == router;
            let current = slab.header.seqno == expected;
            let m = book.match_orders(side, qty, limit).1;
            &&& r is Ok <==> known && current && m is Ok
            &&& r == Err::<FillReceipt, PercolatorError>(PercolatorError::Unauthorized)
                <==> !known
            &&& r == Err::<FillReceipt, PercolatorError>(PercolatorError::SeqnoMismatch) <==> known
                && !current
            &&& r == Err::<FillReceipt, PercolatorError>(PercolatorError::InvalidQuantity)
                <==> known && current && m == Err::<MatchResult, OrderbookError>(
                OrderbookError::InvalidQuantity,
            )
            &&& r == Err::<FillReceipt, PercolatorError>(PercolatorError::InvalidPrice) <==> known
                && current && m == Err::<MatchResult, OrderbookError>(OrderbookError::InvalidPrice)
            &&& r == Err::<FillReceipt, PercolatorError>(PercolatorError::InsufficientLiquidity)
                <==> known && current && m is Err && m != Err::<MatchResult, OrderbookError>(
                OrderbookError::InvalidQuantity,
            ) && m != Err::<MatchResult, OrderbookError>(OrderbookError::InvalidPrice)
        }),
{
}

/// A committed fill takes from the book what it matched, is charged the taker fee on its
/// value, rounded toward zero, and moves the sequence number on by one, round the end.
pub proof fn law_fill_is_charged(
    slab: SlabState,
    book: Book,
    router: [u8; 32],
    expected: u32,
    side: Side,
    qty: i64,
    limit: i64,
)
    requires
        commit_fill(slab, book, router, expected, side, qty, limit).2 is Ok,
        -10_000 < slab.header.taker_fee_bps <= 10_000,
    ensures
        ({
            let (after, b, r) = commit_fill(slab, book, router, expected, side, qty, limit);
            let (c, m) = book.match_orders(side, qty, limit);
            let receipt = r->Ok_0;
            &&& b == c
            &&& receipt.filled_qty == m->Ok_0.filled_qty
            &&& receipt.vwap_px == m->Ok_0.vwap_px
            &&& receipt.notional == m->Ok_0.notional
            &&& rounded_to_zero(
                receipt.fee as int,
                receipt.notional * slab.header.taker_fee_bps,
                10_000,
            )
            &&& receipt.seqno_committed == slab.header.seqno
            &&& after.header.seqno == (slab.header.seqno + 1) % 0x1_0000_0000
            &&& after.header.mark_px == slab.header.mark_px
            &&& after.header.taker_fee_bps == slab.header.taker_fee_bps
            &&& after.header.contract_size == slab.header.contract_size
            &&& after.header.router_id == slab.header.router_id
            &&& after.book == slab.book
        }),
{
    let n = book.match_orders(side, qty, limit).1->Ok_0.notional as int;
    let b = slab.header.taker_fee_bps as int;
    assert(-92_233_720_368_547_758_080_000 <= n * b <= 92_233_720_368_547_758_070_000)
        by (nonlinear_arith)
        requires
            -9_223_372_036_854_775_808 <= n <= 9_223_372_036_854_775_807,
            -10_000 < b <= 10_000,
    ;
}

/// Each change moves a slab's sequence number on by one, round the end, and nothing else.
pub proof fn law_change_moves_seqno(slab: SlabState)
    ensures
        slab.changed().header.seqno == (slab.header.seqno + 1) % 0x1_0000_0000,
        ({
            let h = slab.changed().header;
            &&& h.program_id == slab.header.program_id
            &&& h.lp_owner == slab.header.lp_owner
            &&& h.router_id == slab.header.router_id
            &&& h.instrument == slab.header.instrument
            &&& h.mark_px == slab.header.mark_px
            &&& h.taker_fee_bps == slab.header.taker_fee_bps
            &&& h.contract_size == slab.header.contract_size
            &&& h.bump == slab.header.bump
            &&& h.reserved == slab.header.reserved
        }),
        slab.changed().quote_cache == slab.quote_cache,
        slab.changed().book == slab.book,
{
}

/// A price or a quantity that the book refuses is named so; any other refusal of an order is
/// that the book is full, and any other refusal of a fill that it has nothing to match.
pub proof fn law_refusals_are_named(e: OrderbookError)
    ensures
        placement_error(e) == PercolatorError::InvalidPrice <==> e
            == OrderbookError::InvalidPrice,
        placement_error(e) == PercolatorError::InvalidQuantity <==> e
            == OrderbookError::InvalidQuantity,
        placement_error(e) == PercolatorError::PoolFull <==> e != OrderbookError::InvalidPrice && e
            != OrderbookError::InvalidQuantity,
        fill_error(e) == PercolatorError::InvalidPrice <==> e == OrderbookError::InvalidPrice,
        fill_error(e) == PercolatorError::InvalidQuantity <==> e
            == OrderbookError::InvalidQuantity,
        fill_error(e) == PercolatorError::InsufficientLiquidity <==> e
            != OrderbookError::InvalidPrice && e != OrderbookError::InvalidQuantity,
{
}

/// A registry is set up exactly where it has the address that it must have, the payer signed,
/// there is a governance authority, and the account belongs to the program, has the size of a
/// registry and starts with 32 zero bytes. It then holds what was given.
pub proof fn law_registry_is_set_up(
    program_id: [u8; 32],
    account: RegistryAccount,
    expected: Option<[u8; 32]>,
    signed: bool,
    governance: [u8; 32],
    authority: [u8; 32],
    bump: u8,
)
    ensures
        ({
            let r = registry_setup(
                program_id,
                account,
                expected,
                signed,
                governance,
                authority,
                bump,
            );
            let placed = expected is Some && expected->0 == account.key;
            let fit = governance != zero_key() && account.owner == program_id
                && account.data@.len() == 43_688;
            let blank = forall|i: int| 0 <= i < 32 ==> #[trigger] account.data@[i] == 0;
            &&& r is Ok <==> placed && signed && fit && blank
            &&& r == Err::<RegistryHeader, PercolatorError>(PercolatorError::InvalidAccount)
                <==> !placed || (signed && !fit)
            &&& r == Err::<RegistryHeader, PercolatorError>(PercolatorError::Unauthorized)
                <==> placed && !signed
            &&& r == Err::<RegistryHeader, PercolatorError>(PercolatorError::AlreadyInitialized)
                <==> placed && signed && fit && !blank
            &&& r matches Ok(h) ==> h.router_id == authority && h.governance == governance
                && h.bump == bump
        }),
{
}

/// The number that the `n` bytes from `from` on stand for, lowest first.
pub open spec fn value_at(s: Seq<u8>, from: int, n: nat) -> int
    decreases n,
{
    if n == 0 {
        0
    } else {
        s[from] + 256 * value_at(s, from + 1, (n - 1) as nat)
    }
}

/// The same for eight bytes, read as a signed number.
pub open spec fn signed_at(s: Seq<u8>, from: int) -> int {
    let v = value_at(s, from, 8);
    if v >= 0x8000_0000_0000_0000 {
        v - 0x1_0000_0000_0000_0000
    } else {
        v
    }
}

/// The largest number of `n` bytes, and one more.
spec fn room(n: nat) -> int
    decreases n,
{
    if n == 0 {
        1
    } else {
        256 * room((n - 1) as nat)
    }
}

proof fn lemma_value_at(s: Seq<u8>, from: int, v: int, n: nat)
    requires
        0 <= from,
        from + n <= s.len(),
        0 <= v < room(n),
        forall|k: int| 0 <= k < n ==> #[trigger] s[from + k] == le_bytes(v, n)[k],
    ensures
        value_at(s, from, n) == v,
    decreases n,
{
    if n > 0 {
        let m = (n - 1) as nat;
        lemma_len(v / 256, m);
        assert(s[from + 0] == le_bytes(v, n)[0]);
        assert forall|k: int| 0 <= k < m implies #[trigger] s[(from + 1) + k] == le_bytes(
            v / 256,
            m,
        )[k] by {
            assert(s[from + (k + 1)] == le_bytes(v, n)[k + 1]);
        }
        lemma_value_at(s, from + 1, v / 256, m);
    }
}

proof fn lemma_len(v: int, n: nat)
    ensures
        le_bytes(v, n).len() == n,
    decreases n,
{
    if n > 0 {
        lemma_len(v / 256, (n - 1) as nat);
    }
}

proof fn lemma_unsigned_at(s: Seq<u8>, from: int, v: u64)
    requires
        0 <= from,
        from + 8 <= s.len(),
        s.subrange(from, from + 8) == le_bytes(v as int, 8),
    ensures
        value_at(s, from, 8) == v,
{
    reveal_with_fuel(room, 9);
    lemma_len(v as int, 8);
    assert forall|k: int| 0 <= k < 8 implies #[trigger] s[from + k] == le_bytes(v as int, 8)[k] by {
        assert(s.subrange(from, from + 8)[k] == s[from + k]);
    }
    lemma_value_at(s, from, v as int, 8);
}

proof fn lemma_signed_at(s: Seq<u8>, from: int, v: i64)
    requires
        0 <= from,
        from + 8 <= s.len(),
        s.subrange(from, from + 8) == le_bytes(bits_of_i64(v), 8),
    ensures
        signed_at(s, from) == v,
{
    lemma_unsigned_at(s, from, bits_of_i64(v) as u64);
}

/// The data of an order: its second byte tells the side, then come price and quantity as
/// signed numbers of eight bytes, lowest first, then a byte for each flag.
pub proof fn law_order_data_reads_back(
    side: Side,
    price: i64,
    qty: i64,
    post_only: bool,
    reduce_only: bool,
)
    ensures
        ({
            let d = place_order_bytes(side, price, qty, post_only, reduce_only);
            &&& d.len() == 20
            &&& d[0] == 2
            &&& d[1] == if side == Side::Buy {
                0int
            } else {
                1
            }
            &&& signed_at(d, 2) == price
            &&& signed_at(d, 10) == qty
            &&& d[18] == if post_only {
                1int
            } else {
                0
            }
            &&& d[19] == if reduce_only {
                1int
            } else {
                0
            }
        }),
{
    let d = place_order_bytes(side, price, qty, post_only, reduce_only);
    lemma_len(bits_of_i64(price), 8);
    lemma_len(bits_of_i64(qty), 8);
    assert(d.subrange(2, 10) =~= le_bytes(bits_of_i64(price), 8));
    assert(d.subrange(10, 18) =~= le_bytes(bits_of_i64(qty), 8));
    lemma_signed_at(d, 2, price);
    lemma_signed_at(d, 10, qty);
}

/// The data of a cancellation holds the order's number, that of a funding update the price.
pub proof fn law_short_data_reads_back(id: u64, price: i64)
    ensures
        cancel_order_bytes(id).len() == 9,
        cancel_order_bytes(id)[0] == 3,
        value_at(cancel_order_bytes(id), 1, 8) == id,
        update_funding_bytes(price).len() == 9,
        update_funding_bytes(price)[0] == 5,
        signed_at(update_funding_bytes(price), 1) == price,
{
    let c = cancel_order_bytes(id);
    let u = update_funding_bytes(price);
    lemma_len(id as int, 8);
    lemma_len(bits_of_i64(price), 8);
    assert(c.subrange(1, 9) =~= le_bytes(id as int, 8));
    assert(u.subrange(1, 9) =~= le_bytes(bits_of_i64(price), 8));
    lemma_unsigned_at(c, 1, id);
    lemma_signed_at(u, 1, price);
}

/// The data of a slab's initialization: three keys, the mark price, a taker fee of 20 basis
/// points, the contract size, and a zero byte.
pub proof fn law_initialization_data_reads_back(
    owner: [u8; 32],
    router: [u8; 32],
    instrument: [u8; 32],
    mark: i64,
    size: i64,
)
    ensures
        ({
            let d = initialize_slab_bytes(owner, router, instrument, mark, size);
            &&& d.len() == 122
            &&& d[0] == 0
            &&& d.subrange(1, 33) == owner@
            &&& d.subrange(33, 65) == router@
            &&& d.subrange(65, 97) == instrument@
            &&& signed_at(d, 97) == mark
            &&& signed_at(d, 105) == 20
            &&& signed_at(d, 113) == size
            &&& d[121] == 0
        }),
{
    let d = initialize_slab_bytes(owner, router, instrument, mark, size);
    lemma_len(bits_of_i64(mark), 8);
    lemma_len(bits_of_i64(20), 8);
    lemma_len(bits_of_i64(size), 8);
    assert(d.subrange(1, 33) =~= owner@);
    assert(d.subrange(33, 65) =~= router@);
    assert(d.subrange(65, 97) =~= instrument@);
    assert(d.subrange(97, 105) =~= le_bytes(bits_of_i64(mark), 8));
    assert(d.subrange(105, 113) =~= le_bytes(bits_of_i64(20), 8));
    assert(d.subrange(113, 121) =~= le_bytes(bits_of_i64(size), 8));
    lemma_signed_at(d, 97, mark);
    lemma_signed_at(d, 105, 20);
    lemma_signed_at(d, 113, size);
}

/// The first mark price of a slab is a hundred ticks.
pub proof fn law_mark_price_is_a_hundred_ticks(tick: u64)
    requires
        tick <= i64::MAX,
    ensures
        initial_mark_px(tick) == tick * 100,
{
}

/// The data of a registration: the slab, 32 zero bytes, the oracle, and the terms in order.
pub proof fn law_registration_data_reads_back(slab: [u8; 32], oracle: [u8; 32], t: SlabTerms)
    ensures
        ({
            let d = register_slab_bytes(slab, oracle, t);
            &&& d.len() == 153
            &&& d[0] == 8
            &&& d.subrange(1, 33) == slab@
            &&& forall|i: int| 33 <= i < 65 ==> #[trigger] d[i] == 0
            &&& d.subrange(65, 97) == oracle@
            &&& value_at(d, 97, 8) == t.imr_bps
            &&& value_at(d, 105, 8) == t.mmr_bps
            &&& value_at(d, 113, 8) == t.maker_fee_bps
            &&& value_at(d, 121, 8) == t.taker_fee_bps
            &&& value_at(d, 129, 8) == t.latency_sla_ms
            &&& value_at(d, 137, 16) == t.max_exposure
        }),
{
    let d = register_slab_bytes(slab, oracle, t);
    lemma_len(t.imr_bps as int, 8);
    lemma_len(t.mmr_bps as int, 8);
    lemma_len(t.maker_fee_bps as int, 8);
    lemma_len(t.taker_fee_bps as int, 8);
    lemma_len(t.latency_sla_ms as int, 8);
    lemma_len(t.max_exposure as int, 16);
    assert(d.subrange(1, 33) =~= slab@);
    assert(d.subrange(33, 65) =~= zero_key()@);
    assert forall|i: int| 33 <= i < 65 implies #[trigger] d[i] == 0 by {
        assert(d.subrange(33, 65)[i - 33] == d[i]);
    }
    assert(d.subrange(65, 97) =~= oracle@);
    assert(d.subrange(97, 105) =~= le_bytes(t.imr_bps as int, 8));
    assert(d.subrange(105, 113) =~= le_bytes(t.mmr_bps as int, 8));
    assert(d.subrange(113, 121) =~= le_bytes(t.maker_fee_bps as int, 8));
    assert(d.subrange(121, 129) =~= le_bytes(t.taker_fee_bps as int, 8));
    assert(d.subrange(129, 137) =~= le_bytes(t.latency_sla_ms as int, 8));
    lemma_unsigned_at(d, 97, t.imr_bps);
    lemma_unsigned_at(d, 105, t.mmr_bps);
    lemma_unsigned_at(d, 113, t.maker_fee_bps);
    lemma_unsigned_at(d, 121, t.taker_fee_bps);
    lemma_unsigned_at(d, 129, t.latency_sla_ms);
    reveal_with_fuel(room, 17);
    assert forall|k: int| 0 <= k < 16 implies #[trigger] d[137 + k] == le_bytes(
        t.max_exposure as int,
        16,
    )[k] by {}
    lemma_value_at(d, 137, t.max_exposure as int, 16);
}

/// The instructions of a slab have the numbers that its program knows them by.
pub proof fn law_instruction_numbers(i: SlabInstruction)
    ensures
        i.code() == 0 <==> i == SlabInstruction::Initialize,
        i.code() == 1 <==> i == SlabInstruction::CommitFill,
        i.code() == 2 <==> i == SlabInstruction::PlaceOrder,
        i.code() == 3 <==> i == SlabInstruction::CancelOrder,
        i.code() == 5 <==> i == SlabInstruction::UpdateFunding,
        i.code() == 6 <==> i == SlabInstruction::HaltTrading,
        i.code() == 7 <==> i == SlabInstruction::ResumeTrading,
        i.code() <= 7,
        i.code() != 4,
{
}

/// The words for buying are "buy" and "bid", those for selling "sell" and "ask", and no other.
pub proof fn law_words_for_sides(word: Seq<char>)
    ensures
        side_of(word) == Some(Side::Buy) <==> word =~= seq!['b', 'u', 'y'] || word =~= seq![
            'b',
            'i',
            'd',
        ],
        side_of(word) == Some(Side::Sell) <==> word =~= seq!['s', 'e', 'l', 'l'] || word =~= seq![
            'a',
            's',
            'k',
        ],
{
    reveal_strlit("buy");
    reveal_strlit("bid");
    reveal_strlit("sell");
    reveal_strlit("ask");
    assert("buy"@ =~= seq!['b', 'u', 'y']);
    assert("bid"@ =~= seq!['b', 'i', 'd']);
    assert("sell"@ =~= seq!['s', 'e', 'l', 'l']);
    assert("ask"@ =~= seq!['a', 's', 'k']);
    if word =~= seq!['s', 'e', 'l', 'l'] {
        assert(word.len() == 4);
    }
    if word =~= seq!['a', 's', 'k'] {
        assert(word[0] == 'a');
    }
}

} // verus!
