use core::mem::size_of;
use percolator::slab::{BookArea, QuoteCache, SlabHeader, SlabState};

#[test]
fn test_slab_size() {
    // Calculate component sizes
    let header_size = size_of::<SlabHeader>();
    let quote_cache_size = size_of::<QuoteCache>();
    let book_area_size = size_of::<BookArea>();
    let total_size = size_of::<SlabState>();

    // Should be around 4KB for v0
    assert!(total_size < 5000, "SlabState is {} bytes, should be < 5KB", total_size);
    assert!(total_size > 3000, "SlabState is {} bytes, should be > 3KB", total_size);

    // Verify it matches the LEN constant
    assert_eq!(total_size, SlabState::LEN, "size_of differs from LEN constant");

    // Verify component sizes sum correctly (accounting for padding)
    let expected_min = header_size + quote_cache_size + book_area_size;
    assert!(total_size >= expected_min,
            "Total size {} should be >= sum of components {}",
            total_size, expected_min);
}

#[test]
fn test_slab_creation() {
    let header = SlabHeader::new(
        [0u8; 32],
        [0u8; 32],
        [0u8; 32],
        [0u8; 32],
        50_000_000_000,
        20,
        1_000_000,
        255,
    );

    let slab = SlabState::new(header);
    assert_eq!(slab.header.seqno, 0);
    assert_eq!(slab.quote_cache.seqno_snapshot, 0);
}
