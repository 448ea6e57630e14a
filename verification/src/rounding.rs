//! What it is to be a quotient, for laws to speak of.
use vstd::prelude::*;

verus! {

/// `q` is `n` over `d`, rounded down.
pub open spec fn rounded_down(q: int, n: int, d: int) -> bool {
    q * d <= n < q * d + d
}

/// `q` is `n` over `d`, rounded toward zero.
pub open spec fn rounded_to_zero(q: int, n: int, d: int) -> bool {
    if n >= 0 {
        q * d <= n < q * d + d
    } else {
        q * d - d < n <= q * d
    }
}

/// `v` without its sign.
pub open spec fn magnitude(v: int) -> int {
    if v >= 0 {
        v
    } else {
        -v
    }
}

} // verus!
