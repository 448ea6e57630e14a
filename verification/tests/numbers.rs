use percolator::math::{
    abs_u128, add_u128, clamp_neg_i128, clamp_pos_i128, div_trunc_i128, low_bits_i64, mul_u128,
    neg_i128_to_u128, sat_mul_i128, saturating_abs_i128, sub_u128, u128_to_i128_clamped,
};
use percolator::{I128, U128};

#[test]
fn wide_numbers_read_back() {
    for v in [0u128, 1, u64::MAX as u128, u64::MAX as u128 + 1, u128::MAX] {
        assert_eq!(U128::new(v).get(), v);
    }
    for v in [0i128, 1, -1, i64::MIN as i128, i64::MAX as i128 + 1, i128::MIN, i128::MAX] {
        assert_eq!(I128::new(v).get(), v);
    }
    assert_eq!(U128::zero().get(), 0);
    assert_eq!(I128::zero().get(), 0);
}

#[test]
fn unsigned_operations_check_and_clamp() {
    let max = U128::new(u128::MAX);
    assert!(max.checked_add(1).is_none());
    assert_eq!(U128::new(5).checked_add(2).unwrap().get(), 7);
    assert!(U128::new(1).checked_sub(2).is_none());
    assert!(max.checked_mul(2).is_none());
    assert!(max.checked_div(0).is_none());
    assert_eq!(U128::new(7).checked_div(2).unwrap().get(), 3);
    assert_eq!(max.saturating_add(9).get(), u128::MAX);
    assert_eq!(U128::new(3).saturating_sub(9).get(), 0);
    assert_eq!(max.saturating_mul(3).get(), u128::MAX);
    assert_eq!(max.wrapping_add(3).get(), 2);
    assert_eq!(U128::new(3).max(U128::new(8)).get(), 8);
    assert_eq!(U128::new(3).min(U128::new(8)).get(), 3);
    assert!(U128::new(0).is_zero());
}

#[test]
fn signed_operations_check_and_clamp() {
    let min = I128::new(i128::MIN);
    let max = I128::new(i128::MAX);
    assert!(max.checked_add(1).is_none());
    assert!(min.checked_sub(1).is_none());
    assert!(max.checked_mul(2).is_none());
    assert!(min.checked_div(-1).is_none());
    assert_eq!(I128::new(-7).checked_div(2).unwrap().get(), -3);
    assert_eq!(max.saturating_add(1).get(), i128::MAX);
    assert_eq!(min.saturating_sub(1).get(), i128::MIN);
    assert_eq!(max.wrapping_add(1).get(), i128::MIN);
    assert_eq!(I128::new(-5).abs().get(), 5);
    assert_eq!(min.unsigned_abs(), 1u128 << 127);
    assert!(I128::new(-5).is_negative());
    assert!(I128::new(5).is_positive());
    assert!(!I128::new(0).is_positive());
}

#[test]
fn helpers_clamp() {
    assert_eq!(add_u128(u128::MAX, 1), u128::MAX);
    assert_eq!(sub_u128(1, 2), 0);
    assert_eq!(mul_u128(u128::MAX, 2), u128::MAX);
    assert_eq!(clamp_pos_i128(-3), 0);
    assert_eq!(clamp_pos_i128(3), 3);
    assert_eq!(clamp_neg_i128(-3), 3);
    assert_eq!(clamp_neg_i128(3), 0);
    assert_eq!(saturating_abs_i128(i128::MIN), i128::MAX);
    assert_eq!(abs_u128(-4), 4);
    assert_eq!(neg_i128_to_u128(i128::MIN), 1u128 << 127);
    assert_eq!(u128_to_i128_clamped(u128::MAX), i128::MAX);
    assert_eq!(sat_mul_i128(i128::MIN, 2), i128::MIN);
    assert_eq!(sat_mul_i128(i128::MIN, -2), i128::MAX);
    assert_eq!(div_trunc_i128(-7, 2), -3);
}

#[test]
fn the_low_bits_of_a_wide_number_are_kept() {
    assert_eq!(low_bits_i64(1i128 << 64), 0);
    assert_eq!(low_bits_i64((1i128 << 63) + 5), i64::MIN + 5);
    assert_eq!(low_bits_i64(-2), -2);
}
