//! The directory tree: nodes stored in a flat arena and addressed by index.

pub mod arena;
pub mod node;
pub mod stats;

pub use arena::TreeArena;
pub use node::{EntryFlags, ExtendedInfo, NodeId, TreeNode};
pub use stats::AggregateStats;
