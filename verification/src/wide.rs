//! The one widened arithmetic primitive the rate model needs: a
//! 128-by-128-bit multiplication carried out in 256 bits before dividing,
//! so the product can never overflow ahead of the division.

use vstd::prelude::*;

verus! {

/// Relies on ethnum's `U256`: `From<u128>` embeds exactly, `*` and `/` are
/// full 256-bit arithmetic (the product of two `u128` values cannot overflow
/// 256 bits), and `u128::try_from` fails exactly when the quotient exceeds
/// `u128::MAX`.
#[verifier::external_body]
pub(crate) fn mul_div(a: u128, b: u128, c: u128) -> (r: Option<u128>)
    requires
        c != 0,
    ensures
        r matches Some(v) ==> v == a as int * b as int / c as int,
        r is None ==> a as int * b as int / c as int > u128::MAX,
{
    u128::try_from(ethnum::U256::from(a) * ethnum::U256::from(b) / ethnum::U256::from(c)).ok()
}

} // verus!
