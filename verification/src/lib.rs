//! Double-ended data structures that can be grown or eaten from either side.
//!
//! [`DeString`] is a UTF-8 string backed by a [`DeVec`], a byte buffer that keeps free
//! room on both sides of its contents, so text can be pushed, popped and trimmed at
//! either end in place while the contents stay one contiguous string slice.
pub mod codec;
pub mod destring;
pub mod devec;
pub mod drain;
pub mod laws;
pub mod order;
pub mod settings;
pub mod std_calls;

pub use destring::{DeString, RangeBound};
pub use devec::DeVec;
pub use drain::Drain;
pub use settings::{
    BackToFront, DropBehavior, FavorCrowdedSide, FrontToBack, Middle, OnlyChangeCrowdedSide,
    RebalanceBehavior, RebalanceStrategy, StartAtFront,
};
