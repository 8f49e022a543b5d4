//! The failure taxonomy of the ledger. Every operation either completes in
//! full or returns one of these and leaves all state untouched.

use vstd::prelude::*;

verus! {

/// Why an operation was rejected.
#[derive(Clone, Copy, Debug, PartialEq, Eq, Structural)]
pub enum StakeError {
    /// A deposit notification did not come from the configured stake token.
    NotStakeToken,
    /// A reward arrived while no shares exist to accrue it to; accepting it
    /// would leave tokens in the pool that no share can ever claim.
    EmptyPool,
    /// A balance, supply or queue counter would exceed the representable range.
    Overflow,
    /// A share subtraction (account shares, pool totals or token supply)
    /// would go below zero.
    InsufficientShares,
    /// The account's token balance is smaller than the amount withdrawn.
    InsufficientFunds,
}

} // verus!
