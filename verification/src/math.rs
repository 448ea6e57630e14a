//! Saturating, clamping and truncating arithmetic on 128-bit integers.
//!
//! The engine never panics on arithmetic: sums and products either saturate or are reported
//! as an overflow. The spec functions here say what each of those operations yields on
//! mathematical integers; the executable functions are proved against them.
use vstd::prelude::*;

use crate::types::RiskError;

verus! {

/// Two to the power 128.
pub open spec fn two_128() -> int {
    0x1_0000_0000_0000_0000_0000_0000_0000_0000int
}

/// `v` clamped to the range of `u128`.
pub open spec fn sat_u(v: int) -> int {
    if v < 0 {
        0
    } else if v > u128::MAX {
        u128::MAX as int
    } else {
        v
    }
}

/// `v` clamped to the range of `i128`.
pub open spec fn sat_i(v: int) -> int {
    if v < i128::MIN {
        i128::MIN as int
    } else if v > i128::MAX {
        i128::MAX as int
    } else {
        v
    }
}

/// Whether `v` is representable as an `i128`.
pub open spec fn fits_i(v: int) -> bool {
    i128::MIN <= v <= i128::MAX
}

/// The two's-complement reinterpretation of an unsigned 128-bit value as a signed one.
pub open spec fn wrap_i(v: int) -> int {
    if v > i128::MAX {
        v - two_128()
    } else {
        v
    }
}

/// Quotient rounded toward zero, for a positive divisor.
pub open spec fn tdiv(a: int, b: int) -> int {
    if a >= 0 {
        a / b
    } else {
        -((-a) / b)
    }
}

pub open spec fn min_int(a: int, b: int) -> int {
    if a <= b {
        a
    } else {
        b
    }
}

pub open spec fn max_int(a: int, b: int) -> int {
    if a >= b {
        a
    } else {
        b
    }
}

/// The absolute value of a signed 128-bit quantity, with the one value that has no
/// counterpart clamped to `i128::MAX`.
pub open spec fn abs_sat(v: int) -> int {
    if v == i128::MIN {
        i128::MAX as int
    } else if v < 0 {
        -v
    } else {
        v
    }
}

/// `a` minus `b`, or zero where that is negative.
pub open spec fn monus(a: int, b: int) -> int {
    if a > b {
        a - b
    } else {
        0
    }
}

/// The low 64 bits of a number, read as a signed number.
pub open spec fn low_i64(v: int) -> int {
    let m = v % 0x1_0000_0000_0000_0000;
    if m > i64::MAX {
        m - 0x1_0000_0000_0000_0000
    } else {
        m
    }
}

/// The low 64 bits of a number, read as a signed number.
pub fn low_bits_i64(v: i128) -> (r: i64)
    ensures
        r == low_i64(v as int),
{
    let rest: i128 = v % 0x1_0000_0000_0000_0000;
    let m: i128 = if rest < 0 {
        rest + 0x1_0000_0000_0000_0000
    } else {
        rest
    };
    if m > i64::MAX as i128 {
        (m - 0x1_0000_0000_0000_0000) as i64
    } else {
        m as i64
    }
}

pub fn add_u128(a: u128, b: u128) -> (r: u128)
    ensures
        r == sat_u(a + b),
{
    a.saturating_add(b)
}

pub fn sub_u128(a: u128, b: u128) -> (r: u128)
    ensures
        r == monus(a as int, b as int),
{
    a.saturating_sub(b)
}

pub fn mul_u128(a: u128, b: u128) -> (r: u128)
    ensures
        r == sat_u(a * b),
{
    assert(a * b >= 0) by (nonlinear_arith)
        requires
            a >= 0,
            b >= 0,
    ;
    match a.checked_mul(b) {
        Some(p) => p,
        None => u128::MAX,
    }
}

/// Division that reports a zero divisor as an overflow.
pub fn div_u128(a: u128, b: u128) -> (r: Result<u128, RiskError>)
    ensures
        r == (if b == 0 {
            Err::<u128, RiskError>(RiskError::Overflow)
        } else {
            Ok((a / b) as u128)
        }),
{
    if b == 0 {
        Err(RiskError::Overflow)
    } else {
        Ok(a / b)
    }
}

pub fn min_u128(a: u128, b: u128) -> (r: u128)
    ensures
        r == min_int(a as int, b as int),
{
    if a <= b {
        a
    } else {
        b
    }
}

pub fn min_u64(a: u64, b: u64) -> (r: u64)
    ensures
        r == min_int(a as int, b as int),
{
    if a <= b {
        a
    } else {
        b
    }
}

/// The positive part of `val`.
pub fn clamp_pos_i128(val: i128) -> (r: u128)
    ensures
        r == max_int(val as int, 0),
{
    if val > 0 {
        val as u128
    } else {
        0
    }
}

/// The magnitude of the negative part of `val`.
pub fn clamp_neg_i128(val: i128) -> (r: u128)
    ensures
        r == max_int(-(val as int), 0),
{
    if val < 0 {
        neg_i128_to_u128(val)
    } else {
        0
    }
}

/// Absolute value that maps `i128::MIN` to `i128::MAX`.
pub fn saturating_abs_i128(val: i128) -> (r: i128)
    ensures
        r == abs_sat(val as int),
        r >= 0,
{
    if val == i128::MIN {
        i128::MAX
    } else if val < 0 {
        -val
    } else {
        val
    }
}

/// [`saturating_abs_i128`] as an unsigned value.
pub fn abs_u128(val: i128) -> (r: u128)
    ensures
        r == abs_sat(val as int),
{
    saturating_abs_i128(val) as u128
}

/// The magnitude of a negative value; `i128::MIN` yields two to the power 127.
pub fn neg_i128_to_u128(val: i128) -> (r: u128)
    requires
        val < 0,
    ensures
        r == -(val as int),
{
    if val == i128::MIN {
        (i128::MAX as u128) + 1
    } else {
        (-val) as u128
    }
}

/// Converts to signed, clamping what does not fit to `i128::MAX`.
pub fn u128_to_i128_clamped(x: u128) -> (r: i128)
    ensures
        r == min_int(x as int, i128::MAX as int),
{
    if x > i128::MAX as u128 {
        i128::MAX
    } else {
        x as i128
    }
}

/// Reinterprets the bits of `x` as a signed value.
pub fn u128_as_i128(x: u128) -> (r: i128)
    ensures
        r == wrap_i(x as int),
{
    if x > i128::MAX as u128 {
        -((u128::MAX - x) as i128) - 1
    } else {
        x as i128
    }
}

pub fn sat_add_i128(a: i128, b: i128) -> (r: i128)
    ensures
        r == sat_i(a + b),
{
    match a.checked_add(b) {
        Some(s) => s,
        None => if b > 0 {
            i128::MAX
        } else {
            i128::MIN
        },
    }
}

pub fn sat_sub_i128(a: i128, b: i128) -> (r: i128)
    ensures
        r == sat_i(a - b),
{
    match a.checked_sub(b) {
        Some(s) => s,
        None => if b < 0 {
            i128::MAX
        } else {
            i128::MIN
        },
    }
}

pub fn sat_mul_i128(a: i128, b: i128) -> (r: i128)
    ensures
        r == sat_i(a * b),
{
    match a.checked_mul(b) {
        Some(p) => p,
        None => {
            if (a > 0) == (b > 0) {
                assert(a * b >= 0) by (nonlinear_arith)
                    requires
                        (a > 0) == (b > 0),
                ;
                i128::MAX
            } else {
                assert(a * b <= 0) by (nonlinear_arith)
                    requires
                        (a > 0) != (b > 0),
                ;
                i128::MIN
            }
        },
    }
}

/// Quotient rounded toward zero by a positive divisor.
pub fn div_trunc_i128(a: i128, b: i128) -> (r: i128)
    requires
        b > 0,
    ensures
        r == tdiv(a as int, b as int),
{
    proof {
        lemma_tdiv_fits(a as int, b as int);
    }
    match a.checked_div(b) {
        Some(q) => q,
        None => 0,
    }
}

/// Dividing by a positive number does not enlarge the magnitude.
pub proof fn lemma_tdiv_fits(a: int, b: int)
    requires
        b > 0,
    ensures
        a >= 0 ==> 0 <= tdiv(a, b) <= a,
        a <= 0 ==> a <= tdiv(a, b) <= 0,
{
    if a >= 0 {
        assert(0 <= a / b <= a) by (nonlinear_arith)
            requires
                a >= 0,
                b > 0,
        ;
    } else {
        let m = -a;
        assert(0 <= m / b <= m) by (nonlinear_arith)
            requires
                m >= 0,
                b > 0,
        ;
    }
}

} // verus!
