//! Operators, comparisons and conversions of [`U128`] and [`I128`].
//!
//! Sums, differences and products saturate; comparisons are those of the values.
use core::cmp::Ordering;

use vstd::prelude::*;

use crate::math::{monus, sat_i, sat_mul_i128, sat_u};
use crate::wide::{I128, U128};

verus! {

impl core::ops::Add<u128> for U128 {
    type Output = U128;

    fn add(self, rhs: u128) -> (r: U128) {
        self.saturating_add(rhs)
    }
}

impl vstd::std_specs::ops::AddSpecImpl<u128> for U128 {
    open spec fn obeys_add_spec() -> bool {
        true
    }

    open spec fn add_req(self, rhs: u128) -> bool {
        true
    }

    open spec fn add_spec(self, rhs: u128) -> U128 {
        U128::of(sat_u(self@ + rhs))
    }
}

impl core::ops::Sub<u128> for U128 {
    type Output = U128;

    fn sub(self, rhs: u128) -> (r: U128) {
        self.saturating_sub(rhs)
    }
}

impl vstd::std_specs::ops::SubSpecImpl<u128> for U128 {
    open spec fn obeys_sub_spec() -> bool {
        true
    }

    open spec fn sub_req(self, rhs: u128) -> bool {
        true
    }

    open spec fn sub_spec(self, rhs: u128) -> U128 {
        U128::of(monus(self@ as int, rhs as int))
    }
}

impl core::ops::Mul<u128> for U128 {
    type Output = U128;

    fn mul(self, rhs: u128) -> (r: U128) {
        self.saturating_mul(rhs)
    }
}

impl vstd::std_specs::ops::MulSpecImpl<u128> for U128 {
    open spec fn obeys_mul_spec() -> bool {
        true
    }

    open spec fn mul_req(self, rhs: u128) -> bool {
        true
    }

    open spec fn mul_spec(self, rhs: u128) -> U128 {
        U128::of(sat_u(self@ * rhs))
    }
}

impl core::ops::Div<u128> for U128 {
    type Output = U128;

    fn div(self, rhs: u128) -> (r: U128) {
        U128::new(self.get() / rhs)
    }
}

impl vstd::std_specs::ops::DivSpecImpl<u128> for U128 {
    open spec fn obeys_div_spec() -> bool {
        true
    }

    open spec fn div_req(self, rhs: u128) -> bool {
        rhs != 0
    }

    open spec fn div_spec(self, rhs: u128) -> U128 {
        U128::of((self@ / rhs) as int)
    }
}

impl core::ops::Add<U128> for U128 {
    type Output = U128;

    fn add(self, rhs: U128) -> (r: U128) {
        self.saturating_add(rhs.get())
    }
}

impl vstd::std_specs::ops::AddSpecImpl<U128> for U128 {
    open spec fn obeys_add_spec() -> bool {
        true
    }

    open spec fn add_req(self, rhs: U128) -> bool {
        true
    }

    open spec fn add_spec(self, rhs: U128) -> U128 {
        U128::of(sat_u(self@ + rhs@))
    }
}

impl core::ops::Sub<U128> for U128 {
    type Output = U128;

    fn sub(self, rhs: U128) -> (r: U128) {
        self.saturating_sub(rhs.get())
    }
}

impl vstd::std_specs::ops::SubSpecImpl<U128> for U128 {
    open spec fn obeys_sub_spec() -> bool {
        true
    }

    open spec fn sub_req(self, rhs: U128) -> bool {
        true
    }

    open spec fn sub_spec(self, rhs: U128) -> U128 {
        U128::of(monus(self@ as int, rhs@ as int))
    }
}

impl core::ops::Mul<U128> for U128 {
    type Output = U128;

    fn mul(self, rhs: U128) -> (r: U128) {
        self.saturating_mul(rhs.get())
    }
}

impl vstd::std_specs::ops::MulSpecImpl<U128> for U128 {
    open spec fn obeys_mul_spec() -> bool {
        true
    }

    open spec fn mul_req(self, rhs: U128) -> bool {
        true
    }

    open spec fn mul_spec(self, rhs: U128) -> U128 {
        U128::of(sat_u(self@ * rhs@))
    }
}

impl core::ops::Div<U128> for U128 {
    type Output = U128;

    fn div(self, rhs: U128) -> (r: U128) {
        U128::new(self.get() / rhs.get())
    }
}

impl vstd::std_specs::ops::DivSpecImpl<U128> for U128 {
    open spec fn obeys_div_spec() -> bool {
        true
    }

    open spec fn div_req(self, rhs: U128) -> bool {
        rhs@ != 0
    }

    open spec fn div_spec(self, rhs: U128) -> U128 {
        U128::of((self@ / rhs@) as int)
    }
}

impl core::ops::Add<i128> for I128 {
    type Output = I128;

    fn add(self, rhs: i128) -> (r: I128) {
        self.saturating_add(rhs)
    }
}

impl vstd::std_specs::ops::AddSpecImpl<i128> for I128 {
    open spec fn obeys_add_spec() -> bool {
        true
    }

    open spec fn add_req(self, rhs: i128) -> bool {
        true
    }

    open spec fn add_spec(self, rhs: i128) -> I128 {
        I128::of(sat_i(self@ + rhs))
    }
}

impl core::ops::Sub<i128> for I128 {
    type Output = I128;

    fn sub(self, rhs: i128) -> (r: I128) {
        self.saturating_sub(rhs)
    }
}

impl vstd::std_specs::ops::SubSpecImpl<i128> for I128 {
    open spec fn obeys_sub_spec() -> bool {
        true
    }

    open spec fn sub_req(self, rhs: i128) -> bool {
        true
    }

    open spec fn sub_spec(self, rhs: i128) -> I128 {
        I128::of(sat_i(self@ - rhs))
    }
}

impl core::ops::Add<I128> for I128 {
    type Output = I128;

    fn add(self, rhs: I128) -> (r: I128) {
        self.saturating_add(rhs.get())
    }
}

impl vstd::std_specs::ops::AddSpecImpl<I128> for I128 {
    open spec fn obeys_add_spec() -> bool {
        true
    }

    open spec fn add_req(self, rhs: I128) -> bool {
        true
    }

    open spec fn add_spec(self, rhs: I128) -> I128 {
        I128::of(sat_i(self@ + rhs@))
    }
}

impl core::ops::Sub<I128> for I128 {
    type Output = I128;

    fn sub(self, rhs: I128) -> (r: I128) {
        self.saturating_sub(rhs.get())
    }
}

impl vstd::std_specs::ops::SubSpecImpl<I128> for I128 {
    open spec fn obeys_sub_spec() -> bool {
        true
    }

    open spec fn sub_req(self, rhs: I128) -> bool {
        true
    }

    open spec fn sub_spec(self, rhs: I128) -> I128 {
        I128::of(sat_i(self@ - rhs@))
    }
}

impl core::ops::Mul<i128> for I128 {
    type Output = I128;

    fn mul(self, rhs: i128) -> (r: I128) {
        I128::new(sat_mul_i128(self.get(), rhs))
    }
}

impl vstd::std_specs::ops::MulSpecImpl<i128> for I128 {
    open spec fn obeys_mul_spec() -> bool {
        true
    }

    open spec fn mul_req(self, rhs: i128) -> bool {
        true
    }

    open spec fn mul_spec(self, rhs: i128) -> I128 {
        I128::of(sat_i(self@ * rhs))
    }
}

/// Negation, of anything but `i128::MIN`, whose negation is out of range.
impl core::ops::Neg for I128 {
    type Output = I128;

    fn neg(self) -> (r: I128) {
        I128::new(-self.get())
    }
}

impl vstd::std_specs::ops::NegSpecImpl for I128 {
    open spec fn obeys_neg_spec() -> bool {
        true
    }

    open spec fn neg_req(self) -> bool {
        self@ != i128::MIN
    }

    open spec fn neg_spec(self) -> I128 {
        I128::of(-(self@ as int))
    }
}

impl PartialOrd for U128 {
    fn partial_cmp(&self, other: &U128) -> (r: Option<Ordering>) {
        let a: u128 = self.get();
        let b: u128 = other.get();
        if a < b {
            Some(Ordering::Less)
        } else if a > b {
            Some(Ordering::Greater)
        } else {
            Some(Ordering::Equal)
        }
    }
}

impl vstd::std_specs::cmp::PartialOrdSpecImpl for U128 {
    open spec fn obeys_partial_cmp_spec() -> bool {
        true
    }

    open spec fn partial_cmp_spec(&self, other: &U128) -> Option<Ordering> {
        if self@ < other@ {
            Some(Ordering::Less)
        } else if self@ > other@ {
            Some(Ordering::Greater)
        } else {
            Some(Ordering::Equal)
        }
    }
}

impl Default for U128 {
    fn default() -> (r: U128)
        ensures
            r@ == 0,
            r == U128::of(0),
    {
        U128::new(0)
    }
}

impl PartialOrd for I128 {
    fn partial_cmp(&self, other: &I128) -> (r: Option<Ordering>) {
        let a: i128 = self.get();
        let b: i128 = other.get();
        if a < b {
            Some(Ordering::Less)
        } else if a > b {
            Some(Ordering::Greater)
        } else {
            Some(Ordering::Equal)
        }
    }
}

impl vstd::std_specs::cmp::PartialOrdSpecImpl for I128 {
    open spec fn obeys_partial_cmp_spec() -> bool {
        true
    }

    open spec fn partial_cmp_spec(&self, other: &I128) -> Option<Ordering> {
        if self@ < other@ {
            Some(Ordering::Less)
        } else if self@ > other@ {
            Some(Ordering::Greater)
        } else {
            Some(Ordering::Equal)
        }
    }
}

impl Default for I128 {
    fn default() -> (r: I128)
        ensures
            r@ == 0,
            r == I128::of(0),
    {
        I128::new(0)
    }
}

} // verus!
