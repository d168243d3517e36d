//! The business domain: ledger accounts and the kinds that the pricing
//! model speaks of.

pub mod account;
pub mod pricing;
pub mod amount;
pub mod pricing_model;
