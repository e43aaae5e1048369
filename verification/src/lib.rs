//! An ordered set of unique elements that is kept in memory and persisted as
//! one whole snapshot: a count followed by every element in ascending order.

pub mod ascending;
pub mod element;
pub mod error;
pub mod order;
pub mod persist;
pub mod set;
pub mod snapshot;
pub mod text;
pub mod varint;
mod wire;

pub use element::Element;
pub use error::{IoFailure, StorageError};
pub use persist::SaveStep;
pub use set::SnapshotSet;
