//! Instruction data as clients send it: a discriminator byte, then the arguments in order, with
//! numbers in little-endian byte order.
use vstd::prelude::*;

use crate::math::{low_bits_i64, low_i64};
use crate::orderbook::Side;
use crate::outside::{decoded_key, lowercase, parse_key, to_lowercase};
use crate::slab::SlabInstruction;
use crate::types::zero_key;

verus! {

/// Discriminator of the router's slab registration
pub const REGISTER_SLAB: u8 = 8;

/// Taker fee of a new slab, in basis points
pub const DEFAULT_TAKER_FEE_BPS: i64 = 20;

/// Size of a slab account to be created
pub const SLAB_ACCOUNT_SIZE: usize = 4096;

/// Why a request cannot be made
#[derive(Debug, Clone, Copy, PartialEq, Eq, Structural)]
pub enum RequestError {
    /// The registry address cannot be read
    InvalidRegistry,
    /// The slab address cannot be read
    InvalidSlab,
    /// The oracle address cannot be read
    InvalidOracle,
    /// The side is neither buy nor sell
    InvalidSide,
    /// The price is not positive
    InvalidPrice,
    /// The quantity is not positive
    InvalidQuantity,
}

/// An instruction to be sent: the account that it works on, and its data
#[derive(Debug, Clone)]
pub struct Request {
    /// The account
    pub target: [u8; 32],
    /// The data
    pub data: Vec<u8>,
}

/// What the router is told of a slab that is registered
#[derive(Debug, Clone, Copy, PartialEq, Eq, Structural)]
pub struct SlabTerms {
    /// Initial margin ratio in basis points
    pub imr_bps: u64,
    /// Maintenance margin ratio in basis points
    pub mmr_bps: u64,
    /// Maker fee cap in basis points
    pub maker_fee_bps: u64,
    /// Taker fee cap in basis points
    pub taker_fee_bps: u64,
    /// Promised latency in milliseconds
    pub latency_sla_ms: u64,
    /// Largest position exposure
    pub max_exposure: u128,
}

/// The `n` lowest bytes of a number, lowest first.
pub open spec fn le_bytes(v: int, n: nat) -> Seq<u8>
    decreases n,
{
    if n == 0 {
        Seq::empty()
    } else {
        seq![(v % 256) as u8] + le_bytes(v / 256, (n - 1) as nat)
    }
}

/// The number that bytes stand for, lowest first.
pub open spec fn le_value(s: Seq<u8>) -> int
    decreases s.len(),
{
    if s.len() == 0 {
        0
    } else {
        s[0] + 256 * le_value(s.skip(1))
    }
}

/// The unsigned number with the bits of a signed one.
pub open spec fn bits_of_i64(v: i64) -> int {
    if v < 0 {
        v + 0x1_0000_0000_0000_0000
    } else {
        v as int
    }
}

pub open spec fn flag_byte(b: bool) -> u8 {
    if b {
        1
    } else {
        0
    }
}

/// Registration of a slab: discriminator, slab, version hash, oracle, and the terms.
pub open spec fn register_slab_bytes(slab: [u8; 32], oracle: [u8; 32], t: SlabTerms) -> Seq<u8> {
    seq![REGISTER_SLAB] + slab@ + zero_key()@ + oracle@ + le_bytes(t.imr_bps as int, 8) + le_bytes(
        t.mmr_bps as int,
        8,
    ) + le_bytes(t.maker_fee_bps as int, 8) + le_bytes(t.taker_fee_bps as int, 8) + le_bytes(
        t.latency_sla_ms as int,
        8,
    ) + le_bytes(t.max_exposure as int, 16)
}

/// The first mark price of a slab: a hundred ticks.
pub open spec fn initial_mark_px(tick_size: u64) -> int {
    low_i64(tick_size as int) * 100
}

/// Initialization of a slab: discriminator, owner, router, instrument, mark price, taker fee,
/// contract size and bump.
pub open spec fn initialize_slab_bytes(
    lp_owner: [u8; 32],
    router_id: [u8; 32],
    instrument: [u8; 32],
    mark_px: i64,
    contract_size: i64,
) -> Seq<u8> {
    seq![SlabInstruction::Initialize.code()] + lp_owner@ + router_id@ + instrument@ + le_bytes(
        bits_of_i64(mark_px),
        8,
    ) + le_bytes(bits_of_i64(DEFAULT_TAKER_FEE_BPS), 8) + le_bytes(bits_of_i64(contract_size), 8)
        + seq![0u8]
}

/// Funding update: discriminator and oracle price.
pub open spec fn update_funding_bytes(oracle_price: i64) -> Seq<u8> {
    seq![SlabInstruction::UpdateFunding.code()] + le_bytes(bits_of_i64(oracle_price), 8)
}

/// Order placement: discriminator, side, price, quantity and flags.
pub open spec fn place_order_bytes(
    side: Side,
    price: i64,
    qty: i64,
    post_only: bool,
    reduce_only: bool,
) -> Seq<u8> {
    seq![SlabInstruction::PlaceOrder.code(), side_byte(side)] + le_bytes(bits_of_i64(price), 8)
        + le_bytes(bits_of_i64(qty), 8) + seq![flag_byte(post_only), flag_byte(reduce_only)]
}

/// Order cancellation: discriminator and order id.
pub open spec fn cancel_order_bytes(order_id: u64) -> Seq<u8> {
    seq![SlabInstruction::CancelOrder.code()] + le_bytes(order_id as int, 8)
}

pub open spec fn side_byte(side: Side) -> u8 {
    match side {
        Side::Buy => 0,
        Side::Sell => 1,
    }
}

/// The side that a lower-case word names.
pub open spec fn side_of(word: Seq<char>) -> Option<Side> {
    if word == "buy"@ || word == "bid"@ {
        Some(Side::Buy)
    } else if word == "sell"@ || word == "ask"@ {
        Some(Side::Sell)
    } else {
        None
    }
}

/// Appends the `n` lowest bytes of a number, lowest first.
fn push_le(out: &mut Vec<u8>, v: u128, n: usize)
    ensures
        final(out)@ == old(out)@ + le_bytes(v as int, n as nat),
{
    let mut rest: u128 = v;
    let mut left: usize = n;
    proof {
        assert(out@ + le_bytes(rest as int, left as nat) =~= old(out)@ + le_bytes(
            v as int,
            n as nat,
        ));
    }
    while left > 0
        invariant
            out@ + le_bytes(rest as int, left as nat) == old(out)@ + le_bytes(v as int, n as nat),
        decreases left,
    {
        let ghost before = out@;
        let b: u8 = (rest % 256) as u8;
        out.push(b);
        proof {
            let tail = le_bytes(rest as int / 256, (left - 1) as nat);
            assert(before.push(b) + tail =~= before + (seq![b] + tail));
        }
        rest = rest / 256;
        left -= 1;
    }
    assert(out@ + le_bytes(rest as int, 0) =~= out@);
}

/// Appends a key.
fn push_key(out: &mut Vec<u8>, key: &[u8; 32])
    ensures
        final(out)@ == old(out)@ + key@,
{
    let mut i: usize = 0;
    while i < 32
        invariant
            i <= 32,
            out@ == old(out)@ + key@.take(i as int),
        decreases 32 - i,
    {
        out.push(key[i]);
        proof {
            assert(key@.take(i as int).push(key@[i as int]) =~= key@.take(i + 1));
            assert(old(out)@ + key@.take(i + 1) =~= (old(out)@ + key@.take(i as int)).push(
                key@[i as int],
            ));
        }
        i += 1;
    }
    assert(key@.take(32) =~= key@);
}

/// The bits of a signed number.
fn bits(v: i64) -> (r: u128)
    ensures
        r == bits_of_i64(v),
{
    if v < 0 {
        (v as i128 + 0x1_0000_0000_0000_0000) as u128
    } else {
        v as u128
    }
}

/// Data that registers a slab with the router.
pub fn register_slab_data(slab: &[u8; 32], oracle: &[u8; 32], terms: &SlabTerms) -> (r: Vec<u8>)
    ensures
        r@ == register_slab_bytes(*slab, *oracle, *terms),
{
    let mut data: Vec<u8> = Vec::new();
    data.push(REGISTER_SLAB);
    assert(data@ =~= seq![REGISTER_SLAB]);
    push_key(&mut data, slab);
    push_key(&mut data, &[0;32]);
    push_key(&mut data, oracle);
    push_le(&mut data, terms.imr_bps as u128, 8);
    push_le(&mut data, terms.mmr_bps as u128, 8);
    push_le(&mut data, terms.maker_fee_bps as u128, 8);
    push_le(&mut data, terms.taker_fee_bps as u128, 8);
    push_le(&mut data, terms.latency_sla_ms as u128, 8);
    push_le(&mut data, terms.max_exposure, 16);
    data
}

/// Whether the first mark price of a slab is in range.
pub fn mark_price_fits(tick_size: u64) -> (r: bool)
    ensures
        r == (i64::MIN <= initial_mark_px(tick_size) <= i64::MAX),
{
    low_bits_i64(tick_size as i128).checked_mul(100).is_some()
}

/// Data that initializes a slab. The mark price starts at a hundred ticks, and a lot is the
/// contract size.
pub fn initialize_slab_data(
    lp_owner: &[u8; 32],
    router_id: &[u8; 32],
    instrument: &[u8; 32],
    tick_size: u64,
    lot_size: u64,
) -> (r: Vec<u8>)
    requires
        i64::MIN <= initial_mark_px(tick_size) <= i64::MAX,
    ensures
        r@ == initialize_slab_bytes(
            *lp_owner,
            *router_id,
            *instrument,
            initial_mark_px(tick_size) as i64,
            low_i64(lot_size as int) as i64,
        ),
{
    let mark_px: i64 = low_bits_i64(tick_size as i128) * 100;
    let contract_size: i64 = low_bits_i64(lot_size as i128);
    let mut data: Vec<u8> = Vec::new();
    data.push(SlabInstruction::Initialize.discriminator());
    assert(data@ =~= seq![SlabInstruction::Initialize.code()]);
    push_key(&mut data, lp_owner);
    push_key(&mut data, router_id);
    push_key(&mut data, instrument);
    push_le(&mut data, bits(mark_px), 8);
    push_le(&mut data, bits(DEFAULT_TAKER_FEE_BPS), 8);
    push_le(&mut data, bits(contract_size), 8);
    let ghost before = data@;
    data.push(0);
    assert(data@ =~= before + seq![0u8]);
    data
}

/// Data that updates the funding of a slab.
pub fn update_funding_data(oracle_price: i64) -> (r: Vec<u8>)
    ensures
        r@ == update_funding_bytes(oracle_price),
{
    let mut data: Vec<u8> = Vec::new();
    data.push(SlabInstruction::UpdateFunding.discriminator());
    assert(data@ =~= seq![SlabInstruction::UpdateFunding.code()]);
    push_le(&mut data, bits(oracle_price), 8);
    data
}

/// Data that places an order.
pub fn place_order_data(side: Side, price: i64, qty: i64, post_only: bool, reduce_only: bool) -> (r:
    Vec<u8>)
    ensures
        r@ == place_order_bytes(side, price, qty, post_only, reduce_only),
{
    let mut data: Vec<u8> = Vec::new();
    data.push(SlabInstruction::PlaceOrder.discriminator());
    data.push(
        match side {
            Side::Buy => 0,
            Side::Sell => 1,
        },
    );
    assert(data@ =~= seq![SlabInstruction::PlaceOrder.code(), side_byte(side)]);
    push_le(&mut data, bits(price), 8);
    push_le(&mut data, bits(qty), 8);
    let ghost before = data@;
    data.push(if post_only { 1 } else { 0 });
    data.push(if reduce_only { 1 } else { 0 });
    assert(data@ =~= before + seq![flag_byte(post_only), flag_byte(reduce_only)]);
    data
}

/// Data that cancels an order.
pub fn cancel_order_data(order_id: u64) -> (r: Vec<u8>)
    ensures
        r@ == cancel_order_bytes(order_id),
{
    let mut data: Vec<u8> = Vec::new();
    data.push(SlabInstruction::CancelOrder.discriminator());
    assert(data@ =~= seq![SlabInstruction::CancelOrder.code()]);
    push_le(&mut data, order_id as u128, 8);
    data
}

/// The side that a lower-case word names.
pub fn parse_lowercase_side(word: &String) -> (r: Option<Side>)
    ensures
        r == side_of(word@),
{
    if *word == "buy".to_owned() || *word == "bid".to_owned() {
        Some(Side::Buy)
    } else if *word == "sell".to_owned() || *word == "ask".to_owned() {
        Some(Side::Sell)
    } else {
        None
    }
}

/// The side that a word names, in whatever case.
pub fn parse_side(word: &str) -> (r: Option<Side>)
    ensures
        r == side_of(lowercase(word@)),
{
    parse_lowercase_side(&to_lowercase(word))
}

/// The address of a registry.
pub fn registry_address(text: &str) -> (r: Result<[u8; 32], RequestError>)
    ensures
        r == (match decoded_key(text@) {
            Some(k) => Ok::<[u8; 32], RequestError>(k),
            None => Err(RequestError::InvalidRegistry),
        }),
{
    match parse_key(text) {
        Ok(k) => Ok(k),
        Err(_) => Err(RequestError::InvalidRegistry),
    }
}

/// The address of a slab.
pub fn slab_address(text: &str) -> (r: Result<[u8; 32], RequestError>)
    ensures
        r == (match decoded_key(text@) {
            Some(k) => Ok::<[u8; 32], RequestError>(k),
            None => Err(RequestError::InvalidSlab),
        }),
{
    match parse_key(text) {
        Ok(k) => Ok(k),
        Err(_) => Err(RequestError::InvalidSlab),
    }
}

/// The request to register a slab.
pub fn register_slab_request(registry: &str, slab: &str, oracle: &str, terms: &SlabTerms) -> (r:
    Result<Request, RequestError>)
    ensures
        match (decoded_key(registry@), decoded_key(slab@), decoded_key(oracle@)) {
            (None, _, _) => r == Err::<Request, RequestError>(RequestError::InvalidRegistry),
            (Some(_), None, _) => r == Err::<Request, RequestError>(RequestError::InvalidSlab),
            (Some(_), Some(_), None) => r == Err::<Request, RequestError>(
                RequestError::InvalidOracle,
            ),
            (Some(k), Some(s), Some(o)) => r matches Ok(q) && q.target == k && q.data@
                == register_slab_bytes(s, o, *terms),
        },
{
    let target: [u8; 32] = registry_address(registry)?;
    let slab_key: [u8; 32] = slab_address(slab)?;
    let oracle_key: [u8; 32] = match parse_key(oracle) {
        Ok(k) => k,
        Err(_) => {
            return Err(RequestError::InvalidOracle);
        },
    };
    Ok(Request { target, data: register_slab_data(&slab_key, &oracle_key, terms) })
}

/// The request to update the funding of a slab.
pub fn update_funding_request(slab: &str, oracle_price: i64) -> (r: Result<Request, RequestError>)
    ensures
        match decoded_key(slab@) {
            None => r == Err::<Request, RequestError>(RequestError::InvalidSlab),
            Some(k) => r matches Ok(q) && q.target == k && q.data@ == update_funding_bytes(
                oracle_price,
            ),
        },
{
    let target: [u8; 32] = slab_address(slab)?;
    Ok(Request { target, data: update_funding_data(oracle_price) })
}

/// The request to place an order. Side, price and quantity are checked before the address.
pub fn place_order_request(
    slab: &str,
    side: &str,
    price: i64,
    qty: i64,
    post_only: bool,
    reduce_only: bool,
) -> (r: Result<Request, RequestError>)
    ensures
        match (side_of(lowercase(side@)), decoded_key(slab@)) {
            (None, _) => r == Err::<Request, RequestError>(RequestError::InvalidSide),
            (Some(s), k) => if price <= 0 {
                r == Err::<Request, RequestError>(RequestError::InvalidPrice)
            } else if qty <= 0 {
                r == Err::<Request, RequestError>(RequestError::InvalidQuantity)
            } else if k is None {
                r == Err::<Request, RequestError>(RequestError::InvalidSlab)
            } else {
                r matches Ok(q) && Some(q.target) == k && q.data@ == place_order_bytes(
                    s,
                    price,
                    qty,
                    post_only,
                    reduce_only,
                )
            },
        },
{
    let side: Side = match parse_side(side) {
        Some(s) => s,
        None => {
            return Err(RequestError::InvalidSide);
        },
    };
    if price <= 0 {
        return Err(RequestError::InvalidPrice);
    }
    if qty <= 0 {
        return Err(RequestError::InvalidQuantity);
    }
    let target: [u8; 32] = slab_address(slab)?;
    Ok(Request { target, data: place_order_data(side, price, qty, post_only, reduce_only) })
}

/// The request to cancel an order.
pub fn cancel_order_request(slab: &str, order_id: u64) -> (r: Result<Request, RequestError>)
    ensures
        match decoded_key(slab@) {
            None => r == Err::<Request, RequestError>(RequestError::InvalidSlab),
            Some(k) => r matches Ok(q) && q.target == k && q.data@ == cancel_order_bytes(order_id),
        },
{
    let target: [u8; 32] = slab_address(slab)?;
    Ok(Request { target, data: cancel_order_data(order_id) })
}

/// A number is read back from its bytes.
pub proof fn law_le_bytes_read_back(v: int, n: nat)
    requires
        0 <= v < vstd::arithmetic::power::pow(256, n),
    ensures
        le_bytes(v, n).len() == n,
        le_value(le_bytes(v, n)) == v,
    decreases n,
{
    reveal(vstd::arithmetic::power::pow);
    if n > 0 {
        let m = (n - 1) as nat;
        let p = vstd::arithmetic::power::pow(256, m);
        assert(vstd::arithmetic::power::pow(256, n) == 256 * p);
        law_le_bytes_read_back(v / 256, m);
        let s = le_bytes(v, n);
        assert(s.skip(1) =~= le_bytes(v / 256, m));
    }
}

proof fn lemma_le_len(v: int, n: nat)
    ensures
        le_bytes(v, n).len() == n,
    decreases n,
{
    if n > 0 {
        lemma_le_len(v / 256, (n - 1) as nat);
    }
}

/// Each instruction has the length that its receiver expects.
pub proof fn law_data_lengths(
    slab: [u8; 32],
    oracle: [u8; 32],
    terms: SlabTerms,
    a: i64,
    b: i64,
    id: u64,
    side: Side,
    post_only: bool,
    reduce_only: bool,
)
    ensures
        register_slab_bytes(slab, oracle, terms).len() == 153,
        initialize_slab_bytes(slab, oracle, slab, a, b).len() == 122,
        update_funding_bytes(a).len() == 9,
        place_order_bytes(side, a, b, post_only, reduce_only).len() == 20,
        cancel_order_bytes(id).len() == 9,
{
    lemma_le_len(terms.imr_bps as int, 8);
    lemma_le_len(terms.mmr_bps as int, 8);
    lemma_le_len(terms.maker_fee_bps as int, 8);
    lemma_le_len(terms.taker_fee_bps as int, 8);
    lemma_le_len(terms.latency_sla_ms as int, 8);
    lemma_le_len(terms.max_exposure as int, 16);
    lemma_le_len(bits_of_i64(a), 8);
    lemma_le_len(bits_of_i64(b), 8);
    lemma_le_len(bits_of_i64(DEFAULT_TAKER_FEE_BPS), 8);
    lemma_le_len(id as int, 8);
}

/// The data of an order determines the order.
pub proof fn law_place_order_data_is_injective(
    s1: Side,
    p1: i64,
    q1: i64,
    po1: bool,
    ro1: bool,
    s2: Side,
    p2: i64,
    q2: i64,
    po2: bool,
    ro2: bool,
)
    requires
        place_order_bytes(s1, p1, q1, po1, ro1) == place_order_bytes(s2, p2, q2, po2, ro2),
    ensures
        s1 == s2,
        p1 == p2,
        q1 == q2,
        po1 == po2,
        ro1 == ro2,
{
    let a = place_order_bytes(s1, p1, q1, po1, ro1);
    let b = place_order_bytes(s2, p2, q2, po2, ro2);
    lemma_i64_read_back(p1);
    lemma_i64_read_back(p2);
    lemma_i64_read_back(q1);
    lemma_i64_read_back(q2);
    assert(a[1] == side_byte(s1) && b[1] == side_byte(s2));
    assert(a.subrange(2, 10) =~= le_bytes(bits_of_i64(p1), 8));
    assert(b.subrange(2, 10) =~= le_bytes(bits_of_i64(p2), 8));
    assert(a.subrange(10, 18) =~= le_bytes(bits_of_i64(q1), 8));
    assert(b.subrange(10, 18) =~= le_bytes(bits_of_i64(q2), 8));
    assert(a[18] == flag_byte(po1) && b[18] == flag_byte(po2));
    assert(a[19] == flag_byte(ro1) && b[19] == flag_byte(ro2));
}

proof fn lemma_i64_read_back(v: i64)
    ensures
        le_bytes(bits_of_i64(v), 8).len() == 8,
        le_value(le_bytes(bits_of_i64(v), 8)) == bits_of_i64(v),
{
    assert(vstd::arithmetic::power::pow(256, 8) == 0x1_0000_0000_0000_0000) by {
        reveal_with_fuel(vstd::arithmetic::power::pow, 9);
    }
    law_le_bytes_read_back(bits_of_i64(v), 8);
}

} // verus!
