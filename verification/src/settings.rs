//! Type-level settings of a double-ended buffer: the order in which its elements are
//! dropped, and where its contents are placed when it reallocates.
use vstd::prelude::*;

pub(crate) mod seal_drop_behavior;
pub(crate) mod seal_rebalance_behavior;

verus! {

/// Elements are dropped from the front to the back.
#[derive(Copy, Clone, Debug, Default)]
pub struct FrontToBack;

/// Elements are dropped from the back to the front.
#[derive(Copy, Clone, Debug, Default)]
pub struct BackToFront;

/// The order in which a buffer drops its elements; implemented by [`FrontToBack`] and
/// [`BackToFront`] only.
pub trait DropBehavior: seal_drop_behavior::Sealed + std::fmt::Debug + Copy + Default {

}

impl DropBehavior for FrontToBack {

}

impl DropBehavior for BackToFront {

}

impl seal_drop_behavior::Sealed for FrontToBack {
    const IS_INVERTED: bool = false;
}

impl seal_drop_behavior::Sealed for BackToFront {
    const IS_INVERTED: bool = true;
}

/// Where the contents of a buffer are placed in a new allocation.
pub enum RebalanceStrategy {
    /// At the very front, all free room after them.
    StartAtFront,
    /// In the middle, free room split evenly between the two sides.
    Middle,
    /// Leaving more of the free room on the side that ran out of it.
    FavorCrowdedSide,
    /// Keeping the room of the side that did not run out, all new room going to the other.
    OnlyChangeCrowdedSide,
}

/// Rebalance at the front.
#[derive(Copy, Clone, Debug, Default)]
pub struct StartAtFront;

/// Rebalance in the middle.
#[derive(Copy, Clone, Debug, Default)]
pub struct Middle;

/// Rebalance in favour of the crowded side.
#[derive(Copy, Clone, Debug, Default)]
pub struct FavorCrowdedSide;

/// Rebalance by changing only the crowded side.
#[derive(Copy, Clone, Debug, Default)]
pub struct OnlyChangeCrowdedSide;

/// How a buffer places its contents when it reallocates; implemented by the four
/// strategy types only.
pub trait RebalanceBehavior: seal_rebalance_behavior::Sealed + std::fmt::Debug + Copy + Default {

}

impl seal_rebalance_behavior::Sealed for StartAtFront {
    const BEHAVIOR: RebalanceStrategy = RebalanceStrategy::StartAtFront;
}

impl RebalanceBehavior for StartAtFront {

}

impl seal_rebalance_behavior::Sealed for Middle {
    const BEHAVIOR: RebalanceStrategy = RebalanceStrategy::Middle;
}

impl RebalanceBehavior for Middle {

}

impl seal_rebalance_behavior::Sealed for FavorCrowdedSide {
    const BEHAVIOR: RebalanceStrategy = RebalanceStrategy::FavorCrowdedSide;
}

impl RebalanceBehavior for FavorCrowdedSide {

}

impl seal_rebalance_behavior::Sealed for OnlyChangeCrowdedSide {
    const BEHAVIOR: RebalanceStrategy = RebalanceStrategy::OnlyChangeCrowdedSide;
}

impl RebalanceBehavior for OnlyChangeCrowdedSide {

}

} // verus!
