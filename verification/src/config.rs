//! The singleton staking configuration.

use vstd::prelude::*;

use crate::rate::ten_pow;

verus! {

/// Configuration of the staking ledger. Mutated only by the admin operation
/// (and there only `unbond_time` and `treasury` change).
pub struct StakeConfig {
    /// Seconds a withdrawal request must cool down before it matures.
    pub unbond_time: u64,
    /// Identity of the only token accepted as a deposit.
    pub staked_token: String,
    /// Exponent normalizing the deposit token's decimal precision to the
    /// internal share precision: one token bootstraps to
    /// `10^decimal_difference` shares.
    pub decimal_difference: u8,
    /// Where freshly bonded principal is forwarded; while `None`, principal
    /// accumulates in the unsent buffer instead.
    pub treasury: Option<String>,
}

impl StakeConfig {
    /// The decimal normalization factor must itself be representable, or no
    /// bootstrap conversion could ever be computed.
    pub open spec fn wf(&self) -> bool {
        ten_pow(self.decimal_difference as nat) <= u128::MAX
    }
}

} // verus!
