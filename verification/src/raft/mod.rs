//! Raft consensus: configuration, errors, the replicated log, node state,
//! protocol messages and the decision logic of a node.

pub mod error;
pub mod config;
pub mod log;
pub mod state;
pub mod message;
pub mod node;
pub mod machine;
pub mod laws;
