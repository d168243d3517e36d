//! Storage for Raft: error conditions, integrity reports and configuration,
//! stored log entries and node metadata, and an in-memory store.

pub mod error;
pub mod types;
pub mod entry;
pub mod memory;
pub mod snapshot;
pub mod file_format;
