//! Staking ledger: a rebasing vault that exchanges a deposit token against
//! internal shares, tracks a shared reward-bearing pool, and pays withdrawals
//! out through a two-tier unbonding protocol (a global daily funding ledger
//! plus per-account cooldown queues).
//!
//! All arithmetic is integer-only and checked: an operation that would lose
//! or fabricate value is rejected as an error, never partially applied.

pub mod config;
pub mod cooldown;
pub mod errors;
pub mod facade;
pub mod funding;
pub mod queries;
pub mod rate;
pub mod supply;
mod wide;
