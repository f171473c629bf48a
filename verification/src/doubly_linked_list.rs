//! A double-ended list whose nodes are linked in both directions.
//!
//! The nodes live in an arena and name their neighbours by slot index. The
//! list state keeps the two boundary nodes and a count; the shared handle
//! guards one such state with a lock.

pub mod doubly_linked_node;
pub mod sequence;
pub mod nodes;
pub mod text;
pub mod dll;
