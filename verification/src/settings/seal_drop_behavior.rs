//! The sealed supertrait of [`DropBehavior`](crate::settings::DropBehavior).
use vstd::prelude::*;

verus! {

/// Whether elements are dropped from the back to the front.
pub trait Sealed {
    const IS_INVERTED: bool;
}

} // verus!
