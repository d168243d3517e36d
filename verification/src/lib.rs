//! Toka: a verified library for Raft consensus, a double-entry credit
//! ledger, storage bookkeeping, payments configuration and capability
//! delegation rules.

pub mod support;
pub mod keyed;
pub mod order;
pub mod raft;
pub mod storage;
pub mod domain;
pub mod ledger;
pub mod runtime;
pub mod security;
pub mod embedder;
pub mod cli;
