//! The sealed supertrait of [`RebalanceBehavior`](crate::settings::RebalanceBehavior).
use vstd::prelude::*;

verus! {

/// The strategy that a rebalance behaviour stands for.
pub trait Sealed {
    const BEHAVIOR: super::RebalanceStrategy;
}

} // verus!
