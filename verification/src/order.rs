//! The order of [`DeString`]s: lexicographic on their UTF-8 bytes, as `str` is ordered.
use std::cmp::Ordering;
use vstd::prelude::*;
use vstd::std_specs::cmp::PartialOrdSpecImpl;

use vstd::std_specs::cmp::PartialOrdSpec;

use crate::destring::{lex_sign, DeString};
use crate::laws::{law_order_first_difference, law_order_prefix};

verus! {

/// The ordering that a comparison result of -1, 0 or 1 stands for.
pub open spec fn ordering_of_sign(sign: int) -> Ordering {
    if sign < 0 {
        Ordering::Less
    } else if sign == 0 {
        Ordering::Equal
    } else {
        Ordering::Greater
    }
}

impl PartialOrd for DeString {
    /// Compares the bytes of the two strings lexicographically.
    fn partial_cmp(&self, other: &DeString) -> (r: Option<Ordering>) {
        let sign = self.compare_bytes(other);
        if sign < 0 {
            Some(Ordering::Less)
        } else if sign == 0 {
            Some(Ordering::Equal)
        } else {
            Some(Ordering::Greater)
        }
    }
}

impl PartialOrdSpecImpl for DeString {
    open spec fn obeys_partial_cmp_spec() -> bool {
        true
    }

    open spec fn partial_cmp_spec(&self, other: &DeString) -> Option<Ordering> {
        Some(ordering_of_sign(lex_sign(self.bytes(), other.bytes())))
    }
}

/// `<` on strings is decided by the first byte where they differ: if `x` and `y` agree on
/// their first `k` bytes and `x`'s byte at `k` is smaller, then `x < y` and `y > x`; a string
/// whose bytes are a proper prefix of another's comes first; every string is equal to
/// itself in this order.
pub proof fn law_partial_cmp_first_difference(x: &DeString, y: &DeString, k: int)
    ensures
        0 <= k < x.bytes().len() && k < y.bytes().len() && x.bytes().subrange(0, k)
            == y.bytes().subrange(0, k) && x.bytes()[k] < y.bytes()[k] ==> PartialOrdSpec::partial_cmp_spec(x, y)
            == Some(Ordering::Less) && PartialOrdSpec::partial_cmp_spec(y, x) == Some(Ordering::Greater),
        x.bytes().len() < y.bytes().len() && x.bytes().is_prefix_of(y.bytes()) ==> PartialOrdSpec::partial_cmp_spec(x, y) == Some(Ordering::Less) && PartialOrdSpec::partial_cmp_spec(y, x) == Some(
            Ordering::Greater,
        ),
        PartialOrdSpec::partial_cmp_spec(x, x) == Some(Ordering::Equal),
{
    if 0 <= k < x.bytes().len() && k < y.bytes().len() && x.bytes().subrange(0, k)
        == y.bytes().subrange(0, k) && x.bytes()[k] < y.bytes()[k] {
        law_order_first_difference(x.bytes(), y.bytes(), k);
    }
    law_order_prefix(x.bytes(), y.bytes());
}

} // verus!
