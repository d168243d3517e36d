//! A double-entry credit ledger: accounts, immutable events with a debit
//! and a credit entry, atomic transactions over a write-ahead log, and the
//! storage interfaces the ledger is kept in.

pub mod event;
pub mod storage;
pub mod ledger;
pub mod laws;
