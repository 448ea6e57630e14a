use percolator::orderbook::Side;
use percolator::requests::{
    cancel_order_request, initialize_slab_data, mark_price_fits, parse_lowercase_side,
    parse_side, place_order_data, place_order_request, register_slab_data,
    register_slab_request, registry_address, slab_address, update_funding_request, RequestError,
    SlabTerms,
};
use percolator::slab::SlabInstruction;

const SYSTEM: &str = "11111111111111111111111111111111";
const TOKEN: &str = "TokenkegQfeZyiNwAJbNbGKPFXCWuBvf9Ss623VQ5DA";

fn terms() -> SlabTerms {
    SlabTerms {
        imr_bps: 500,
        mmr_bps: 250,
        maker_fee_bps: 2,
        taker_fee_bps: 5,
        latency_sla_ms: 1000,
        max_exposure: 1 << 100,
    }
}

#[test]
fn registration_holds_keys_and_terms() {
    let data = register_slab_data(&[3; 32], &[4; 32], &terms());
    assert_eq!(data.len(), 153);
    assert_eq!(data[0], 8);
    assert_eq!(&data[1..33], &[3; 32]);
    assert_eq!(&data[33..65], &[0; 32]);
    assert_eq!(&data[65..97], &[4; 32]);
    assert_eq!(&data[97..105], &500u64.to_le_bytes());
    assert_eq!(&data[105..113], &250u64.to_le_bytes());
    assert_eq!(&data[113..121], &2u64.to_le_bytes());
    assert_eq!(&data[121..129], &5u64.to_le_bytes());
    assert_eq!(&data[129..137], &1000u64.to_le_bytes());
    assert_eq!(&data[137..153], &(1u128 << 100).to_le_bytes());
}

#[test]
fn registration_names_the_address_that_cannot_be_read() {
    assert_eq!(
        register_slab_request("no address", SYSTEM, SYSTEM, &terms()).unwrap_err(),
        RequestError::InvalidRegistry
    );
    assert_eq!(
        register_slab_request(SYSTEM, "0OIl", SYSTEM, &terms()).unwrap_err(),
        RequestError::InvalidSlab
    );
    assert_eq!(
        register_slab_request(SYSTEM, SYSTEM, "", &terms()).unwrap_err(),
        RequestError::InvalidOracle
    );
    let request = register_slab_request(TOKEN, SYSTEM, TOKEN, &terms()).unwrap();
    assert_ne!(request.target, [0; 32]);
    assert_eq!(&request.data[1..33], &[0; 32]);
    assert_eq!(&request.data[65..97], &request.target);
}

#[test]
fn addresses_are_read_in_base_58() {
    let request = update_funding_request(SYSTEM, -1).unwrap();
    assert_eq!(request.target, [0; 32]);
    assert_eq!(request.data, vec![5, 255, 255, 255, 255, 255, 255, 255, 255]);
    // One more than the zero address.
    let one = update_funding_request("11111111111111111111111111111112", 100_000_000).unwrap();
    assert_eq!(one.target[31], 1);
    assert_eq!(one.target[..31], [0; 31]);
    assert_eq!(one.data[1..], 100_000_000i64.to_le_bytes());
    assert_eq!(update_funding_request("1", 5).unwrap_err(), RequestError::InvalidSlab);
}

#[test]
fn a_text_of_more_than_44_characters_is_no_address() {
    let long = format!("{}{}", SYSTEM, SYSTEM);
    assert_eq!(cancel_order_request(&long, 7).unwrap_err(), RequestError::InvalidSlab);
    let request = cancel_order_request(SYSTEM, 7).unwrap();
    assert_eq!(request.data, vec![3, 7, 0, 0, 0, 0, 0, 0, 0]);
}

#[test]
fn sides_are_read_in_any_case() {
    assert_eq!(parse_side("BUY"), Some(Side::Buy));
    assert_eq!(parse_side("Bid"), Some(Side::Buy));
    assert_eq!(parse_side("sell"), Some(Side::Sell));
    assert_eq!(parse_side("ASK"), Some(Side::Sell));
    assert_eq!(parse_side("hold"), None);
    assert_eq!(parse_lowercase_side(&"BUY".to_string()), None);
}

#[test]
fn orders_are_checked_side_first() {
    let place = |side: &str, price: i64, qty: i64, slab: &str| {
        place_order_request(slab, side, price, qty, true, false)
    };
    assert_eq!(place("up", 0, 0, "").unwrap_err(), RequestError::InvalidSide);
    assert_eq!(place("buy", 0, 0, "").unwrap_err(), RequestError::InvalidPrice);
    assert_eq!(place("buy", 1, -1, "").unwrap_err(), RequestError::InvalidQuantity);
    assert_eq!(place("buy", 1, 1, "").unwrap_err(), RequestError::InvalidSlab);
    let request = place("SELL", 100_000_000, 2, SYSTEM).unwrap();
    assert_eq!(request.data[0], SlabInstruction::PlaceOrder.discriminator());
    assert_eq!(request.data[1], 1);
    assert_eq!(request.data[2..10], 100_000_000i64.to_le_bytes());
    assert_eq!(request.data[10..18], 2i64.to_le_bytes());
    assert_eq!(request.data[18..], [1, 0]);
}

#[test]
fn different_orders_have_different_data() {
    let base = place_order_data(Side::Buy, 5, 6, false, false);
    assert_eq!(base.len(), 20);
    assert_ne!(base, place_order_data(Side::Sell, 5, 6, false, false));
    assert_ne!(base, place_order_data(Side::Buy, 6, 5, false, false));
    assert_ne!(base, place_order_data(Side::Buy, 5, 6, true, false));
    assert_ne!(base, place_order_data(Side::Buy, 5, 6, false, true));
}

#[test]
fn a_slab_starts_at_a_hundred_ticks() {
    let data = initialize_slab_data(&[1; 32], &[2; 32], &[0; 32], 3, 9);
    assert_eq!(data.len(), 122);
    assert_eq!(data[0], 0);
    assert_eq!(&data[1..33], &[1; 32]);
    assert_eq!(&data[33..65], &[2; 32]);
    assert_eq!(&data[65..97], &[0; 32]);
    assert_eq!(data[97..105], 300i64.to_le_bytes());
    assert_eq!(data[105..113], 20i64.to_le_bytes());
    assert_eq!(data[113..121], 9i64.to_le_bytes());
    assert_eq!(data[121], 0);
}

#[test]
fn discriminators_skip_four() {
    let codes: Vec<u8> = vec![
        SlabInstruction::Initialize.discriminator(),
        SlabInstruction::CommitFill.discriminator(),
        SlabInstruction::PlaceOrder.discriminator(),
        SlabInstruction::CancelOrder.discriminator(),
        SlabInstruction::UpdateFunding.discriminator(),
        SlabInstruction::HaltTrading.discriminator(),
        SlabInstruction::ResumeTrading.discriminator(),
    ];
    assert_eq!(codes, vec![0, 1, 2, 3, 5, 6, 7]);
}

#[test]
fn a_mark_price_must_fit() {
    assert!(mark_price_fits(1));
    assert!(mark_price_fits(92_233_720_368_547_758));
    assert!(!mark_price_fits(92_233_720_368_547_759));
    // A tick size of all ones reads as minus one.
    assert!(mark_price_fits(u64::MAX));
    assert_eq!(
        initialize_slab_data(&[0; 32], &[0; 32], &[0; 32], u64::MAX, 1)[97..105],
        (-100i64).to_le_bytes()
    );
}

#[test]
fn single_addresses_are_named_in_errors() {
    assert_eq!(registry_address("x"), Err(RequestError::InvalidRegistry));
    assert_eq!(slab_address("x"), Err(RequestError::InvalidSlab));
    assert_eq!(registry_address(SYSTEM), Ok([0; 32]));
    assert_eq!(slab_address(SYSTEM), Ok([0; 32]));
}
