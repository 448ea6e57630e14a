//! 128-bit integers stored as two 64-bit halves.
//!
//! The alignment of `u128` and `i128` differs between targets. `U128` and `I128` hold the
//! same values in two 64-bit words, so that a structure made of them is laid out alike
//! everywhere. The view of each is the primitive integer it stands for.
use vstd::prelude::*;

use crate::math::{sat_add_i128, sat_sub_i128};
use crate::math::{add_u128, mul_u128, sub_u128};

verus! {

/// An unsigned 128-bit integer; the derived order is that of the values.
#[derive(Clone, Copy, Debug, PartialEq, Eq, Ord, Structural)]
pub struct U128 {
    hi: u64,
    lo: u64,
}

impl View for U128 {
    type V = u128;

    closed spec fn view(&self) -> u128 {
        (self.hi * 0x1_0000_0000_0000_0000int + self.lo) as u128
    }
}

impl U128 {
    /// The `U128` that stands for `v`.
    pub closed spec fn of(v: int) -> U128 {
        U128 {
            hi: (v / 0x1_0000_0000_0000_0000int) as u64,
            lo: (v % 0x1_0000_0000_0000_0000int) as u64,
        }
    }

    pub broadcast proof fn lemma_of_view(v: int)
        requires
            0 <= v <= u128::MAX,
        ensures
            (#[trigger] U128::of(v))@ == v,
    {
    }

    pub broadcast proof fn lemma_view_of(self)
        ensures
            U128::of(#[trigger] self@ as int) == self,
    {
    }

    pub fn new(val: u128) -> (r: U128)
        ensures
            r@ == val,
            r == U128::of(val as int),
    {
        assert((val as u64) as u128 == val % 0x1_0000_0000_0000_0000u128) by (bit_vector);
        assert(((val >> 64) as u64) as u128 == val / 0x1_0000_0000_0000_0000u128)
            by (bit_vector);
        U128 { hi: (val >> 64) as u64, lo: val as u64 }
    }

    pub fn get(self) -> (r: u128)
        ensures
            r == self@,
    {
        let hi: u64 = self.hi;
        let lo: u64 = self.lo;
        assert(((hi as u128) << 64) | (lo as u128) == hi * 0x1_0000_0000_0000_0000u128 + lo)
            by (bit_vector);
        ((hi as u128) << 64) | (lo as u128)
    }

    pub fn zero() -> (r: U128)
        ensures
            r@ == 0,
            r == U128::of(0),
    {
        U128::new(0)
    }

    pub fn set(&mut self, val: u128)
        ensures
            final(self)@ == val,
            *final(self) == U128::of(val as int),
    {
        *self = U128::new(val);
    }

    pub fn checked_add(self, rhs: u128) -> (r: Option<U128>)
        ensures
            r == (if self@ + rhs <= u128::MAX {
                Some(U128::of(self@ + rhs))
            } else {
                None
            }),
    {
        match self.get().checked_add(rhs) {
            Some(v) => Some(U128::new(v)),
            None => None,
        }
    }

    pub fn checked_sub(self, rhs: u128) -> (r: Option<U128>)
        ensures
            r == (if self@ >= rhs {
                Some(U128::of(self@ - rhs))
            } else {
                None
            }),
    {
        match self.get().checked_sub(rhs) {
            Some(v) => Some(U128::new(v)),
            None => None,
        }
    }

    pub fn checked_mul(self, rhs: u128) -> (r: Option<U128>)
        ensures
            r == (if self@ * rhs <= u128::MAX {
                Some(U128::of(self@ * rhs))
            } else {
                None
            }),
    {
        proof {
            lemma_product_nonneg(self@ as int, rhs as int);
        }
        match self.get().checked_mul(rhs) {
            Some(v) => Some(U128::new(v)),
            None => None,
        }
    }

    pub fn checked_div(self, rhs: u128) -> (r: Option<U128>)
        ensures
            r == (if rhs == 0 {
                None
            } else {
                Some(U128::of((self@ / rhs) as int))
            }),
    {
        if rhs == 0 {
            None
        } else {
            Some(U128::new(self.get() / rhs))
        }
    }

    pub fn saturating_add(self, rhs: u128) -> (r: U128)
        ensures
            r == U128::of(crate::math::sat_u(self@ + rhs)),
    {
        U128::new(add_u128(self.get(), rhs))
    }

    pub fn saturating_add_u128(self, rhs: U128) -> (r: U128)
        ensures
            r == U128::of(crate::math::sat_u(self@ + rhs@)),
    {
        U128::new(add_u128(self.get(), rhs.get()))
    }

    pub fn saturating_sub(self, rhs: u128) -> (r: U128)
        ensures
            r == U128::of(crate::math::monus(self@ as int, rhs as int)),
    {
        U128::new(sub_u128(self.get(), rhs))
    }

    pub fn saturating_sub_u128(self, rhs: U128) -> (r: U128)
        ensures
            r == U128::of(crate::math::monus(self@ as int, rhs@ as int)),
    {
        U128::new(sub_u128(self.get(), rhs.get()))
    }

    pub fn saturating_mul(self, rhs: u128) -> (r: U128)
        ensures
            r == U128::of(crate::math::sat_u(self@ * rhs)),
    {
        U128::new(mul_u128(self.get(), rhs))
    }

    /// The sum modulo two to the power 128.
    pub fn wrapping_add(self, rhs: u128) -> (r: U128)
        ensures
            r == U128::of((self@ + rhs) % crate::math::two_128()),
    {
        U128::new(self.get().wrapping_add(rhs))
    }

    pub fn max(self, rhs: U128) -> (r: U128)
        ensures
            r == (if self@ >= rhs@ {
                self
            } else {
                rhs
            }),
    {
        if self.get() >= rhs.get() {
            self
        } else {
            rhs
        }
    }

    pub fn min(self, rhs: U128) -> (r: U128)
        ensures
            r == (if self@ <= rhs@ {
                self
            } else {
                rhs
            }),
    {
        if self.get() <= rhs.get() {
            self
        } else {
            rhs
        }
    }

    pub fn is_zero(self) -> (r: bool)
        ensures
            r == (self@ == 0),
    {
        self.lo == 0 && self.hi == 0
    }
}

/// A signed 128-bit integer; the high half carries the sign, and the derived order is that
/// of the values.
#[derive(Clone, Copy, Debug, PartialEq, Eq, Ord, Structural)]
pub struct I128 {
    hi: i64,
    lo: u64,
}

impl View for I128 {
    type V = i128;

    closed spec fn view(&self) -> i128 {
        (self.hi * 0x1_0000_0000_0000_0000int + self.lo) as i128
    }
}

impl I128 {
    /// The `I128` that stands for `v`.
    pub closed spec fn of(v: int) -> I128 {
        I128 {
            hi: (v / 0x1_0000_0000_0000_0000int) as i64,
            lo: (v % 0x1_0000_0000_0000_0000int) as u64,
        }
    }

    pub broadcast proof fn lemma_of_view(v: int)
        requires
            i128::MIN <= v <= i128::MAX,
        ensures
            (#[trigger] I128::of(v))@ == v,
    {
    }

    pub broadcast proof fn lemma_view_of(self)
        ensures
            I128::of(#[trigger] self@ as int) == self,
    {
    }

    pub fn new(val: i128) -> (r: I128)
        ensures
            r@ == val,
            r == I128::of(val as int),
    {
        let r: I128 = I128 { hi: (val >> 64) as i64, lo: val as u64 };
        proof {
            let hi = (val >> 64) as i64;
            let lo = val as u64;
            assert(hi * 0x1_0000_0000_0000_0000i128 + lo == val) by (bit_vector)
                requires
                    hi == (val >> 64) as i64,
                    lo == val as u64,
            ;
        }
        r
    }

    pub fn get(self) -> (r: i128)
        ensures
            r == self@,
    {
        let hi: i64 = self.hi;
        let lo: u64 = self.lo;
        assert(((hi as i128) << 64) | (lo as i128) == hi * 0x1_0000_0000_0000_0000i128 + lo)
            by (bit_vector);
        ((hi as i128) << 64) | (lo as i128)
    }

    pub fn zero() -> (r: I128)
        ensures
            r@ == 0,
            r == I128::of(0),
    {
        I128::new(0)
    }

    pub fn set(&mut self, val: i128)
        ensures
            final(self)@ == val,
            *final(self) == I128::of(val as int),
    {
        *self = I128::new(val);
    }

    pub fn checked_add(self, rhs: i128) -> (r: Option<I128>)
        ensures
            r == (if crate::math::fits_i(self@ + rhs) {
                Some(I128::of(self@ + rhs))
            } else {
                None
            }),
    {
        match self.get().checked_add(rhs) {
            Some(v) => Some(I128::new(v)),
            None => None,
        }
    }

    pub fn checked_sub(self, rhs: i128) -> (r: Option<I128>)
        ensures
            r == (if crate::math::fits_i(self@ - rhs) {
                Some(I128::of(self@ - rhs))
            } else {
                None
            }),
    {
        match self.get().checked_sub(rhs) {
            Some(v) => Some(I128::new(v)),
            None => None,
        }
    }

    pub fn checked_mul(self, rhs: i128) -> (r: Option<I128>)
        ensures
            r == (if crate::math::fits_i(self@ * rhs) {
                Some(I128::of(self@ * rhs))
            } else {
                None
            }),
    {
        match self.get().checked_mul(rhs) {
            Some(v) => Some(I128::new(v)),
            None => None,
        }
    }

    /// The quotient rounded toward zero; nothing for a zero divisor, nor for
    /// `i128::MIN / -1`, whose quotient is out of range.
    pub fn checked_div(self, rhs: i128) -> (r: Option<I128>)
        ensures
            r == (if rhs == 0 || (self@ == i128::MIN && rhs == -1) {
                None
            } else if rhs > 0 {
                Some(I128::of(crate::math::tdiv(self@ as int, rhs as int)))
            } else {
                Some(I128::of(crate::math::tdiv(-(self@ as int), -(rhs as int))))
            }),
    {
        proof {
            if rhs > 0 {
                crate::math::lemma_tdiv_fits(self@ as int, rhs as int);
            } else if rhs < 0 {
                crate::math::lemma_tdiv_fits(-(self@ as int), -(rhs as int));
                if rhs < -1 {
                    lemma_min_by_small(self@ as int, rhs as int);
                } else {
                    assert((-(self@ as int)) / 1 == -(self@ as int));
                    assert((self@ as int) / 1 == self@);
                }
            }
        }
        match self.get().checked_div(rhs) {
            Some(v) => Some(I128::new(v)),
            None => None,
        }
    }

    pub fn saturating_add(self, rhs: i128) -> (r: I128)
        ensures
            r == I128::of(crate::math::sat_i(self@ + rhs)),
    {
        I128::new(sat_add_i128(self.get(), rhs))
    }

    pub fn saturating_add_i128(self, rhs: I128) -> (r: I128)
        ensures
            r == I128::of(crate::math::sat_i(self@ + rhs@)),
    {
        I128::new(sat_add_i128(self.get(), rhs.get()))
    }

    pub fn saturating_sub(self, rhs: i128) -> (r: I128)
        ensures
            r == I128::of(crate::math::sat_i(self@ - rhs)),
    {
        I128::new(sat_sub_i128(self.get(), rhs))
    }

    pub fn saturating_sub_i128(self, rhs: I128) -> (r: I128)
        ensures
            r == I128::of(crate::math::sat_i(self@ - rhs@)),
    {
        I128::new(sat_sub_i128(self.get(), rhs.get()))
    }

    /// The sum modulo two to the power 128, read as a signed value.
    pub fn wrapping_add(self, rhs: i128) -> (r: I128)
        ensures
            r == I128::of(crate::math::wrap_i((self@ + rhs) % crate::math::two_128())),
    {
        I128::new(self.get().wrapping_add(rhs))
    }

    /// The absolute value, of anything but `i128::MIN`, which has none.
    pub fn abs(self) -> (r: I128)
        requires
            self@ != i128::MIN,
        ensures
            r == I128::of(if self@ < 0 {
                -(self@ as int)
            } else {
                self@ as int
            }),
    {
        let v: i128 = self.get();
        if v < 0 {
            I128::new(-v)
        } else {
            self
        }
    }

    pub fn unsigned_abs(self) -> (r: u128)
        ensures
            r == (if self@ < 0 {
                -(self@ as int)
            } else {
                self@ as int
            }),
    {
        let v: i128 = self.get();
        if v < 0 {
            crate::math::neg_i128_to_u128(v)
        } else {
            v as u128
        }
    }

    pub fn is_zero(self) -> (r: bool)
        ensures
            r == (self@ == 0),
    {
        self.lo == 0 && self.hi == 0
    }

    pub fn is_negative(self) -> (r: bool)
        ensures
            r == (self@ < 0),
    {
        self.hi < 0
    }

    pub fn is_positive(self) -> (r: bool)
        ensures
            r == (self@ > 0),
    {
        !self.is_zero() && !self.is_negative()
    }
}

pub broadcast group group_wide {
    U128::lemma_of_view,
    U128::lemma_view_of,
    I128::lemma_of_view,
    I128::lemma_view_of,
}

proof fn lemma_product_nonneg(a: int, b: int)
    by (nonlinear_arith)
    requires
        a >= 0,
        b >= 0,
    ensures
        a * b >= 0,
{
}

/// Only minus one sends `i128::MIN` out of range.
proof fn lemma_min_by_small(a: int, b: int)
    requires
        i128::MIN <= a <= i128::MAX,
        b < -1,
    ensures
        crate::math::tdiv(-a, -b) <= i128::MAX,
{
    let d = -b;
    if a < 0 {
        let m = -a;
        assert(m / d <= i128::MAX) by (nonlinear_arith)
            requires
                0 <= m <= i128::MAX + 1,
                d >= 2,
        ;
    }
}

} // verus!
