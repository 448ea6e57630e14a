//! Conversions between [`U128`], [`I128`] and the primitive integers.
use vstd::prelude::*;

use crate::wide::{I128, U128};

verus! {

impl From<u128> for U128 {
    fn from(val: u128) -> (r: U128) {
        U128::new(val)
    }
}

impl vstd::std_specs::convert::FromSpecImpl<u128> for U128 {
    open spec fn obeys_from_spec() -> bool {
        true
    }

    open spec fn from_spec(val: u128) -> U128 {
        U128::of(val as int)
    }
}

impl From<u64> for U128 {
    fn from(val: u64) -> (r: U128) {
        U128::new(val as u128)
    }
}

impl vstd::std_specs::convert::FromSpecImpl<u64> for U128 {
    open spec fn obeys_from_spec() -> bool {
        true
    }

    open spec fn from_spec(val: u64) -> U128 {
        U128::of(val as int)
    }
}

impl From<U128> for u128 {
    fn from(val: U128) -> (r: u128) {
        val.get()
    }
}

impl vstd::std_specs::convert::FromSpecImpl<U128> for u128 {
    open spec fn obeys_from_spec() -> bool {
        true
    }

    open spec fn from_spec(val: U128) -> u128 {
        val@
    }
}

impl From<i128> for I128 {
    fn from(val: i128) -> (r: I128) {
        I128::new(val)
    }
}

impl vstd::std_specs::convert::FromSpecImpl<i128> for I128 {
    open spec fn obeys_from_spec() -> bool {
        true
    }

    open spec fn from_spec(val: i128) -> I128 {
        I128::of(val as int)
    }
}

impl From<i64> for I128 {
    fn from(val: i64) -> (r: I128) {
        I128::new(val as i128)
    }
}

impl vstd::std_specs::convert::FromSpecImpl<i64> for I128 {
    open spec fn obeys_from_spec() -> bool {
        true
    }

    open spec fn from_spec(val: i64) -> I128 {
        I128::of(val as int)
    }
}

impl From<I128> for i128 {
    fn from(val: I128) -> (r: i128) {
        val.get()
    }
}

impl vstd::std_specs::convert::FromSpecImpl<I128> for i128 {
    open spec fn obeys_from_spec() -> bool {
        true
    }

    open spec fn from_spec(val: I128) -> i128 {
        val@
    }
}

} // verus!
