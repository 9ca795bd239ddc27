//! Ingest: how records become segments, and what is kept about them.

pub mod compaction;
pub mod indexes;
pub mod latest;
pub mod metadata;
pub mod pending;
pub mod persist;
pub mod preview;
pub mod records;
pub mod refresh;
pub mod rollups;
pub mod thread;
pub mod thread_store;
pub mod tree;
pub mod tree_store;
