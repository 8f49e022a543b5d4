//! The read-only query surface: none of these mutates any state.

use vstd::prelude::*;

use crate::config::StakeConfig;
use crate::cooldown::{lemma_sum_concat, lemma_sum_matured_concat, lemma_sum_nonneg, sum_amounts,
    sum_matured, CooldownEntry, CooldownQueue};
use crate::errors::StakeError;
use crate::facade::StakingState;
use crate::funding::unfunded_sum;
use crate::rate::{calculate_rewards, lemma_rewards_fit, reward_tokens_of, shares_of,
    try_shares_per_token};
use crate::supply::Account;

verus! {

/// One account's staking position as reported by the `staked` query.
pub struct StakedInfo {
    /// The account's token basis (principal).
    pub tokens: u128,
    /// The account's shares.
    pub shares: u128,
    /// Rewards accrued beyond the basis, claimable right now.
    pub pending_rewards: u128,
    /// Principal still cooling down (when a time is given: not yet matured
    /// by that time).
    pub unbonding: u128,
    /// Principal already matured by the given time; absent when no time
    /// was given.
    pub unbonded: Option<u128>,
}

/// The current configuration.
pub fn stake_config(state: &StakingState) -> (r: &StakeConfig)
    ensures
        *r == state.config,
{
    &state.config
}

/// The pool totals: `(total_tokens, total_shares)`.
pub fn total_staked(state: &StakingState) -> (r: (u128, u128))
    ensures
        r.0 == state.pool.total_tokens,
        r.1 == state.pool.total_shares,
{
    (state.pool.total_tokens, state.pool.total_shares)
}

/// How many shares one token buys at the current rate.
pub fn stake_rate(state: &StakingState) -> (r: Result<u128, StakeError>)
    requires
        state.wf(),
    ensures
        r matches Ok(v) ==> v == shares_of(
            1,
            state.pool.total_tokens as int,
            state.pool.total_shares as int,
            state.config.decimal_difference as nat,
        ),
        r is Err ==> r == Err::<u128, StakeError>(StakeError::Overflow) && shares_of(
            1,
            state.pool.total_tokens as int,
            state.pool.total_shares as int,
            state.config.decimal_difference as nat,
        ) > u128::MAX,
{
    match try_shares_per_token(
        &state.config,
        1,
        state.pool.total_tokens,
        state.pool.total_shares,
    ) {
        Some(v) => Ok(v),
        None => Err(StakeError::Overflow),
    }
}

/// The still-unfunded obligations of up to `limit` buckets from `from_day`
/// on, in day order.
pub fn unfunded(state: &StakingState, from_day: u64, limit: u64) -> (r: Result<u128, StakeError>)
    requires
        state.wf(),
    ensures
        r matches Ok(v) ==> v == unfunded_sum(state.daily.buckets@, from_day, limit as int),
        r is Err ==> r == Err::<u128, StakeError>(StakeError::Overflow) && unfunded_sum(
            state.daily.buckets@,
            from_day,
            limit as int,
        ) > u128::MAX,
{
    state.daily.total_unfunded(from_day, limit)
}

/// The global principal requested for withdrawal and not yet claimed.
pub fn unbonding(state: &StakingState) -> (r: u128)
    ensures
        r == state.total_unbonding,
{
    state.total_unbonding
}

/// One account's position. With a time given, the account's cooldown
/// entries are split into those already matured by that time (`unbonded`)
/// and those still cooling (`unbonding`); without one, everything queued
/// counts as `unbonding`.
pub fn staked(
    state: &StakingState,
    account: &Account,
    queue: &CooldownQueue,
    time: Option<u64>,
) -> (r: StakedInfo)
    requires
        state.wf(),
        queue.wf(),
        account.shares <= state.pool.total_shares,
    ensures
        r.tokens == account.token_balance,
        r.shares == account.shares,
        r.pending_rewards == reward_tokens_of(
            account.token_balance as int,
            account.shares as int,
            state.pool.total_tokens as int,
            state.pool.total_shares as int,
            state.config.decimal_difference as nat,
        ),
        match time {
            None => r.unbonding == queue.total && r.unbonded is None,
            Some(t) => r.unbonded matches Some(u) && u == sum_matured(queue.entries@, t)
                && r.unbonding == queue.total - u,
        },
{
    proof {
        lemma_rewards_fit(
            account.token_balance as int,
            account.shares as int,
            state.pool.total_tokens as int,
            state.pool.total_shares as int,
            state.config.decimal_difference as nat,
        );
    }
    let rewards = calculate_rewards(
        &state.config,
        account.token_balance,
        account.shares,
        state.pool.total_tokens,
        state.pool.total_shares,
    );
    match time {
        None => StakedInfo {
            tokens: account.token_balance,
            shares: account.shares,
            pending_rewards: rewards.0,
            unbonding: queue.total,
            unbonded: None,
        },
        Some(t) => {
            let ghost s = queue.entries@;
            let n = queue.entries.len();
            let mut matured: u128 = 0;
            let mut cooling: u128 = 0;
            let mut i: usize = 0;
            proof {
                assert(s.skip(0) =~= s);
                assert(s.take(0) =~= Seq::<CooldownEntry>::empty());
            }
            while i < n
                invariant
                    0 <= i <= n,
                    n == s.len(),
                    queue.entries@ == s,
                    queue.total == sum_amounts(s),
                    matured == sum_matured(s.take(i as int), t),
                    matured + cooling == sum_amounts(s.take(i as int)),
                    matured + cooling + sum_amounts(s.skip(i as int)) == queue.total,
                decreases n - i,
            {
                let e = queue.entries[i];
                proof {
                    assert(e == s[i as int]);
                    assert(s.take(i as int + 1) =~= s.take(i as int) + seq![e]);
                    lemma_sum_concat(s.take(i as int), seq![e]);
                    lemma_sum_matured_concat(s.take(i as int), seq![e], t);
                    assert(seq![e].drop_first() =~= Seq::<CooldownEntry>::empty());
                    assert(sum_amounts(Seq::<CooldownEntry>::empty()) == 0);
                    assert(sum_matured(Seq::<CooldownEntry>::empty(), t) == 0);
                    assert(s.skip(i as int).drop_first() =~= s.skip(i as int + 1));
                    lemma_sum_nonneg(s.skip(i as int + 1));
                }
                if e.release_time <= t {
                    matured = matured + e.amount;
                } else {
                    cooling = cooling + e.amount;
                }
                i = i + 1;
            }
            proof {
                assert(s.take(n as int) =~= s);
                assert(s.skip(n as int) =~= Seq::<CooldownEntry>::empty());
            }
            StakedInfo {
                tokens: account.token_balance,
                shares: account.shares,
                pending_rewards: rewards.0,
                unbonding: cooling,
                unbonded: Some(matured),
            }
        },
    }
}

} // verus!
