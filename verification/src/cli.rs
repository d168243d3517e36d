//! The commands of the command-line front end: mint new supply of an
//! asset to an entity, move funds between entities, and ask for an
//! entity's balance. Parsing the arguments and running a command are done
//! by the program around the library.

use vstd::prelude::*;

verus! {

/// A parsed command line.
#[derive(Debug, Clone, PartialEq, Eq, Structural)]
pub struct Cli {
    /// The command to run.
    pub cmd: Commands,
}

/// The commands understood by the front end.
#[derive(Debug, Clone, PartialEq, Eq, Structural)]
pub enum Commands {
    /// Mint new supply of `asset` and credit it to `to`.
    Mint { asset: u128, to: u128, amount: u64 },
    /// Move `amount` from `from` to `to`.
    Transfer { from: u128, to: u128, amount: u64 },
    /// Ask for the balance of `entity`.
    Balance { entity: u128 },
}

} // verus!
