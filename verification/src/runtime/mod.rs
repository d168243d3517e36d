//! The runtime around the ledger: configuration of the environment, the
//! payment provider and the server; the payment provider's request and
//! webhook logic; and the on-device view of a user's ledger.

pub mod text;
pub mod config;
pub mod stripe;
pub mod user_ledger;
