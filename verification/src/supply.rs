//! The supply ledger: the pool totals, the global token supply counter, the
//! unsent-principal buffer, and each account's shares and token basis.
//!
//! Every mutation is all-or-nothing: the new values are computed and checked
//! first, and state is written only once nothing can fail.

use vstd::prelude::*;

use vstd::arithmetic::div_mod::{lemma_div_multiples_vanish, lemma_multiply_divide_lt};
use vstd::arithmetic::mul::{lemma_mul_inequality, lemma_mul_is_commutative,
    lemma_mul_strict_inequality};

use crate::config::StakeConfig;
use crate::errors::StakeError;
use crate::rate::{calculate_rewards, lemma_rewards_fit, lemma_ten_pow_pos, reward_shares_of,
    reward_tokens_of, shares_of, ten_pow, try_shares_per_token};

verus! {

/// The global supply state.
#[derive(Clone, Copy)]
pub struct SupplyPool {
    /// Tokens backing the shares, rewards included.
    pub total_tokens: u128,
    /// Outstanding share claims on the pool.
    pub total_shares: u128,
    /// The global token supply counter: principal minted in, never rewards.
    pub total_supply: u128,
    /// Bonded principal held back because no treasury is configured.
    pub unsent_staked_tokens: u128,
}

impl SupplyPool {
    /// The pool is either empty or fully backed: tokens and shares reach
    /// zero only together.
    pub open spec fn valid(&self) -> bool {
        self.total_tokens == 0 <==> self.total_shares == 0
    }
}

/// One depositor's stake.
#[derive(Clone, Copy)]
pub struct Account {
    /// This account's claim on the pool.
    pub shares: u128,
    /// The account's principal basis for reward computation.
    pub token_balance: u128,
}

/// What `add_balance` does: `None` exactly when some counter would exceed
/// the `u128` range, otherwise the new pool and account.
pub open spec fn spec_add_balance(
    dd: nat,
    pool: SupplyPool,
    account: Account,
    amount: u128,
) -> Option<(SupplyPool, Account)> {
    let s = shares_of(amount as int, pool.total_tokens as int, pool.total_shares as int, dd);
    if account.shares + s <= u128::MAX && pool.total_shares + s <= u128::MAX
        && pool.total_tokens + amount <= u128::MAX && pool.total_supply + amount <= u128::MAX
        && account.token_balance + amount <= u128::MAX {
        Some(
            (
                SupplyPool {
                    total_tokens: (pool.total_tokens + amount) as u128,
                    total_shares: (pool.total_shares + s) as u128,
                    total_supply: (pool.total_supply + amount) as u128,
                    unsent_staked_tokens: pool.unsent_staked_tokens,
                },
                Account {
                    shares: (account.shares + s) as u128,
                    token_balance: (account.token_balance + amount) as u128,
                },
            ),
        )
    } else {
        None
    }
}

/// Credits a bond of `amount` tokens to `account`: the account receives
/// `shares_of(amount)` shares at the current rate, and the share total, the
/// token total, the supply counter and the account's token basis all grow
/// accordingly. Any counter overflowing rejects the whole operation.
pub fn add_balance(
    config: &StakeConfig,
    pool: &mut SupplyPool,
    account: &mut Account,
    amount: u128,
) -> (r: Result<(), StakeError>)
    requires
        config.wf(),
        old(pool).valid(),
    ensures
        ({
            let step = spec_add_balance(
                config.decimal_difference as nat,
                *old(pool),
                *old(account),
                amount,
            );
            match step {
                Some(next) => r is Ok && *final(pool) == next.0 && *final(account) == next.1,
                None => r == Err::<(), StakeError>(StakeError::Overflow)
                    && *final(pool) == *old(pool) && *final(account) == *old(account),
            }
        }),
        r is Ok ==> final(pool).valid(),
        r is Ok ==> final(pool).total_shares >= old(pool).total_shares,
{
    let shares = match try_shares_per_token(config, amount, pool.total_tokens, pool.total_shares) {
        Some(v) => v,
        None => {
            return Err(StakeError::Overflow);
        },
    };
    let new_shares = match account.shares.checked_add(shares) {
        Some(v) => v,
        None => {
            return Err(StakeError::Overflow);
        },
    };
    let new_total_shares = match pool.total_shares.checked_add(shares) {
        Some(v) => v,
        None => {
            return Err(StakeError::Overflow);
        },
    };
    let new_total_tokens = match pool.total_tokens.checked_add(amount) {
        Some(v) => v,
        None => {
            return Err(StakeError::Overflow);
        },
    };
    let new_supply = match pool.total_supply.checked_add(amount) {
        Some(v) => v,
        None => {
            return Err(StakeError::Overflow);
        },
    };
    let new_balance = match account.token_balance.checked_add(amount) {
        Some(v) => v,
        None => {
            return Err(StakeError::Overflow);
        },
    };
    proof {
        let tp = ten_pow(config.decimal_difference as nat) as int;
        if pool.total_tokens == 0 {
            lemma_ten_pow_pos(config.decimal_difference as nat);
            if amount > 0 {
                lemma_mul_inequality(1, tp, amount as int);
                lemma_mul_is_commutative(amount as int, tp);
            } else {
                vstd::arithmetic::mul::lemma_mul_by_zero_is_zero(tp);
            }
        }
    }
    account.shares = new_shares;
    account.token_balance = new_balance;
    pool.total_shares = new_total_shares;
    pool.total_tokens = new_total_tokens;
    pool.total_supply = new_supply;
    Ok(())
}

/// What `remove_balance` does: the error for the first check that fails (in
/// the order the checks run), otherwise the new pool and account.
pub open spec fn spec_remove_balance(
    dd: nat,
    pool: SupplyPool,
    account: Account,
    amount: u128,
) -> Result<(SupplyPool, Account), StakeError> {
    let s = shares_of(amount as int, pool.total_tokens as int, pool.total_shares as int, dd);
    if account.shares < s || pool.total_shares < s || pool.total_tokens < amount
        || pool.total_supply < amount {
        Err(StakeError::InsufficientShares)
    } else if account.token_balance < amount {
        Err(StakeError::InsufficientFunds)
    } else {
        Ok(
            (
                SupplyPool {
                    total_tokens: (pool.total_tokens - amount) as u128,
                    total_shares: (pool.total_shares - s) as u128,
                    total_supply: (pool.total_supply - amount) as u128,
                    unsent_staked_tokens: pool.unsent_staked_tokens,
                },
                Account {
                    shares: (account.shares - s) as u128,
                    token_balance: (account.token_balance - amount) as u128,
                },
            ),
        )
    }
}

/// Debits a withdrawal of `amount` tokens from `account`: the account gives
/// up `shares_of(amount)` shares at the current rate, and the totals shrink
/// accordingly. Any counter underflowing rejects the whole operation.
pub fn remove_balance(
    config: &StakeConfig,
    pool: &mut SupplyPool,
    account: &mut Account,
    amount: u128,
) -> (r: Result<(), StakeError>)
    requires
        config.wf(),
        old(pool).valid(),
    ensures
        ({
            let step = spec_remove_balance(
                config.decimal_difference as nat,
                *old(pool),
                *old(account),
                amount,
            );
            match step {
                Ok(next) => r is Ok && *final(pool) == next.0 && *final(account) == next.1,
                Err(e) => r == Err::<(), StakeError>(e) && *final(pool) == *old(pool)
                    && *final(account) == *old(account),
            }
        }),
        r is Ok ==> final(pool).valid(),
{
    let ghost dd = config.decimal_difference as nat;
    let ghost s_spec = shares_of(
        amount as int,
        pool.total_tokens as int,
        pool.total_shares as int,
        dd,
    );
    let shares = match try_shares_per_token(config, amount, pool.total_tokens, pool.total_shares) {
        Some(v) => v,
        None => {
            // The mathematical share count exceeds u128::MAX, so it is in
            // particular more than the account holds.
            return Err(StakeError::InsufficientShares);
        },
    };
    let new_shares = match account.shares.checked_sub(shares) {
        Some(v) => v,
        None => {
            return Err(StakeError::InsufficientShares);
        },
    };
    let new_total_shares = match pool.total_shares.checked_sub(shares) {
        Some(v) => v,
        None => {
            return Err(StakeError::InsufficientShares);
        },
    };
    let new_total_tokens = match pool.total_tokens.checked_sub(amount) {
        Some(v) => v,
        None => {
            return Err(StakeError::InsufficientShares);
        },
    };
    let new_supply = match pool.total_supply.checked_sub(amount) {
        Some(v) => v,
        None => {
            return Err(StakeError::InsufficientShares);
        },
    };
    let new_balance = match account.token_balance.checked_sub(amount) {
        Some(v) => v,
        None => {
            return Err(StakeError::InsufficientFunds);
        },
    };
    proof {
        lemma_remove_keeps_pool_valid(dd, *pool, amount);
    }
    account.shares = new_shares;
    account.token_balance = new_balance;
    pool.total_shares = new_total_shares;
    pool.total_tokens = new_total_tokens;
    pool.total_supply = new_supply;
    Ok(())
}

/// Removing `amount` tokens together with its share equivalent keeps the
/// pool either empty or fully backed: the shares run out exactly when the
/// tokens do.
proof fn lemma_remove_keeps_pool_valid(dd: nat, pool: SupplyPool, amount: u128)
    requires
        pool.valid(),
        amount <= pool.total_tokens,
        shares_of(amount as int, pool.total_tokens as int, pool.total_shares as int, dd)
            <= pool.total_shares,
    ensures
        ({
            let s = shares_of(
                amount as int,
                pool.total_tokens as int,
                pool.total_shares as int,
                dd,
            );
            (pool.total_tokens - amount == 0 <==> pool.total_shares - s == 0)
        }),
{
    let tt = pool.total_tokens as int;
    let ts = pool.total_shares as int;
    let s = shares_of(amount as int, tt, ts, dd);
    if tt == 0 {
        // Empty pool: amount <= 0, so nothing changes.
    } else {
        if amount == tt {
            lemma_div_multiples_vanish(ts, tt);
            assert(s == ts);
        } else {
            // amount < tt, so strictly fewer shares than the pool holds go.
            lemma_mul_strict_inequality(amount as int, tt, ts);
            lemma_multiply_divide_lt(amount as int * ts, tt, ts);
            assert(s < ts);
        }
    }
}

/// What `claim_rewards` does: the reward tokens and shares at the current
/// rate, refused only when the supply counter cannot cover the reward.
pub open spec fn spec_claim_rewards(
    dd: nat,
    pool: SupplyPool,
    account: Account,
) -> Result<(SupplyPool, Account, u128), StakeError> {
    let rt = reward_tokens_of(
        account.token_balance as int,
        account.shares as int,
        pool.total_tokens as int,
        pool.total_shares as int,
        dd,
    );
    let rs = reward_shares_of(
        account.token_balance as int,
        account.shares as int,
        pool.total_tokens as int,
        pool.total_shares as int,
        dd,
    );
    if pool.total_supply < rt {
        Err(StakeError::InsufficientShares)
    } else {
        Ok(
            (
                SupplyPool {
                    total_tokens: (pool.total_tokens - rt) as u128,
                    total_shares: (pool.total_shares - rs) as u128,
                    total_supply: (pool.total_supply - rt) as u128,
                    unsent_staked_tokens: pool.unsent_staked_tokens,
                },
                Account {
                    shares: (account.shares - rs) as u128,
                    token_balance: account.token_balance,
                },
                rt as u128,
            ),
        )
    }
}

/// Pays out the account's accrued rewards: the gap between what its shares
/// are worth and its token basis leaves the pool, and the share equivalent
/// of that gap leaves the account and the share total. The token basis is
/// untouched — principal stays staked.
pub fn claim_rewards(
    config: &StakeConfig,
    pool: &mut SupplyPool,
    account: &mut Account,
) -> (r: Result<u128, StakeError>)
    requires
        config.wf(),
        old(pool).valid(),
        old(account).shares <= old(pool).total_shares,
    ensures
        ({
            let step = spec_claim_rewards(
                config.decimal_difference as nat,
                *old(pool),
                *old(account),
            );
            match step {
                Ok(next) => r == Ok::<u128, StakeError>(next.2) && *final(pool) == next.0
                    && *final(account) == next.1,
                Err(e) => r == Err::<u128, StakeError>(e) && *final(pool) == *old(pool)
                    && *final(account) == *old(account),
            }
        }),
        r is Ok ==> final(pool).valid(),
        r is Ok ==> final(account).shares <= final(pool).total_shares,
{
    let ghost dd = config.decimal_difference as nat;
    proof {
        lemma_rewards_fit(
            account.token_balance as int,
            account.shares as int,
            pool.total_tokens as int,
            pool.total_shares as int,
            dd,
        );
    }
    let reward = calculate_rewards(
        config,
        account.token_balance,
        account.shares,
        pool.total_tokens,
        pool.total_shares,
    );
    let reward_tokens = reward.0;
    let reward_shares = reward.1;
    let new_supply = match pool.total_supply.checked_sub(reward_tokens) {
        Some(v) => v,
        None => {
            return Err(StakeError::InsufficientShares);
        },
    };
    proof {
        lemma_claim_keeps_pool_valid(dd, *pool, *account);
    }
    account.shares = account.shares - reward_shares;
    pool.total_shares = pool.total_shares - reward_shares;
    pool.total_tokens = pool.total_tokens - reward_tokens;
    pool.total_supply = new_supply;
    Ok(reward_tokens)
}

/// Every balance operation moves exactly as many shares at the account as
/// at the pool (and exactly as many tokens at the basis as at the supply
/// counter): the ledger invariant that the account shares sum to
/// `total_shares` is preserved by each of them.
pub proof fn lemma_balance_ops_preserve_share_sum(
    dd: nat,
    pool: SupplyPool,
    account: Account,
    amount: u128,
)
    requires
        pool.valid(),
        account.shares <= pool.total_shares,
    ensures
        spec_add_balance(dd, pool, account, amount) matches Some(next) ==> next.1.shares
            - account.shares == next.0.total_shares - pool.total_shares && next.1.token_balance
            - account.token_balance == next.0.total_supply - pool.total_supply,
        spec_remove_balance(dd, pool, account, amount) matches Ok(next) ==> account.shares
            - next.1.shares == pool.total_shares - next.0.total_shares && account.token_balance
            - next.1.token_balance == pool.total_supply - next.0.total_supply,
        spec_claim_rewards(dd, pool, account) matches Ok(next) ==> account.shares - next.1.shares
            == pool.total_shares - next.0.total_shares && next.1.token_balance
            == account.token_balance,
{
    let tt = pool.total_tokens as int;
    let ts = pool.total_shares as int;
    if tt == 0 && ts == 0 {
        lemma_ten_pow_pos(dd);
        vstd::arithmetic::mul::lemma_mul_nonnegative(amount as int, ten_pow(dd) as int);
    } else {
        vstd::arithmetic::mul::lemma_mul_nonnegative(amount as int, ts);
        vstd::arithmetic::div_mod::lemma_div_pos_is_pos(amount as int * ts, tt);
    }
    lemma_rewards_fit(account.token_balance as int, account.shares as int, tt, ts, dd);
}

/// Extracting a reward and its share equivalent keeps the pool either empty
/// or fully backed.
proof fn lemma_claim_keeps_pool_valid(dd: nat, pool: SupplyPool, account: Account)
    requires
        pool.valid(),
        account.shares <= pool.total_shares,
    ensures
        ({
            let rt = reward_tokens_of(
                account.token_balance as int,
                account.shares as int,
                pool.total_tokens as int,
                pool.total_shares as int,
                dd,
            );
            let rs = reward_shares_of(
                account.token_balance as int,
                account.shares as int,
                pool.total_tokens as int,
                pool.total_shares as int,
                dd,
            );
            (pool.total_tokens - rt == 0 <==> pool.total_shares - rs == 0)
        }),
{
    let tt = pool.total_tokens as int;
    let ts = pool.total_shares as int;
    let rt = reward_tokens_of(
        account.token_balance as int,
        account.shares as int,
        tt,
        ts,
        dd,
    );
    let rs = reward_shares_of(account.token_balance as int, account.shares as int, tt, ts, dd);
    lemma_rewards_fit(account.token_balance as int, account.shares as int, tt, ts, dd);
    if tt != 0 {
        if rt == tt {
            lemma_div_multiples_vanish(ts, tt);
            assert(rs == ts);
        } else {
            lemma_mul_strict_inequality(rt, tt, ts);
            lemma_multiply_divide_lt(rt * ts, tt, ts);
            assert(rs < ts);
        }
    }
}

} // verus!
