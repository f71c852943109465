//! A fixed-capacity ring queue that never allocates.
//!
//! The queue stores its elements inline in an array of `N` slots and keeps one
//! slot free, so it holds at most `N - 1` elements at a time. Its contents are
//! specified as a `Seq` (see [`model`]), and every operation is proved against
//! that model.
pub mod model;
pub mod queue;

pub use queue::Queue;
