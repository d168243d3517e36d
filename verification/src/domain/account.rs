//! Ledger accounts and the identifiers of the platform's own accounts.

use vstd::prelude::*;

verus! {

/// Identifier of the platform revenue account, which collects fees.
pub const PLATFORM_REVENUE_ACCOUNT: &'static str = "platform:revenue";

/// Identifier of the account of external deposits: real money paid in.
pub const EXTERNAL_DEPOSITS_ACCOUNT: &'static str = "external:deposits";

/// Identifier of the account of external withdrawals: real money paid out.
pub const EXTERNAL_WITHDRAWALS_ACCOUNT: &'static str = "external:withdrawals";

/// Identifier of the platform reserve, from which credits are minted.
pub const PLATFORM_RESERVE_ACCOUNT: &'static str = "platform:reserve";

/// A ledger account: an identifier and a balance in credits.
#[derive(Debug, Clone, PartialEq, Eq, Hash)]
pub struct Account {
    pub id: String,
    pub balance: i64,
}

impl Account {
    /// An account with a zero balance.
    pub fn new(id: String) -> (a: Account)
        ensures
            a.id == id,
            a.balance == 0,
    {
        Account { id, balance: 0 }
    }

    /// An account with the given balance.
    pub fn new_with_balance(id: String, initial_balance: i64) -> (a: Account)
        ensures
            a.id == id,
            a.balance == initial_balance,
    {
        Account { id, balance: initial_balance }
    }
}

} // verus!
