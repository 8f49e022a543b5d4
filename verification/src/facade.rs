//! The account-facing operations: deposit notifications (bond, reward,
//! unbond funding), withdrawal requests, claims, reward compounding, and
//! the admin reconfiguration. Each runs to completion against the state it
//! is handed or fails without touching it, and returns the token-transfer
//! instructions the host must carry out.

use vstd::prelude::*;

use crate::config::StakeConfig;
use crate::cooldown::{claimable_len, cooldown_insert_pos, sum_amounts, CooldownEntry,
    CooldownQueue};
use crate::errors::StakeError;
use crate::funding::{fund_seq, request_overflows, request_spec, round_date, spec_round_date,
    DailyFundingQueue};
use crate::supply::{add_balance, claim_rewards, remove_balance, spec_add_balance,
    spec_claim_rewards, spec_remove_balance, Account, SupplyPool};

verus! {

/// How an incoming deposit notification is classified by its sender.
#[derive(Clone, Copy, PartialEq, Eq, Structural, Debug)]
pub enum ReceiveType {
    /// The amount is principal to stake for the sending account.
    Bond,
    /// The amount raises the pool's token total without minting shares.
    Reward,
    /// The amount is liquidity for outstanding unbonding obligations.
    Unbond,
}

/// An outgoing token-transfer instruction for the host to carry out.
#[derive(Debug)]
pub struct Transfer {
    /// Who receives the tokens.
    pub recipient: String,
    /// How many tokens to move.
    pub amount: u128,
    /// The token to move: always the configured stake token.
    pub token: String,
}

/// Whether `t` instructs exactly the given transfer.
pub open spec fn is_transfer(t: Transfer, recipient: Seq<char>, amount: u128, token: Seq<char>) -> bool {
    t.recipient@ == recipient && t.amount == amount && t.token@ == token
}

/// The ledger's global state: configuration, pool totals, the daily
/// funding queue and the outstanding-unbonding counter. Per-account state
/// (shares, balances, cooldown queues) is handed into each operation by
/// the host, which owns the account records.
pub struct StakingState {
    /// The singleton configuration.
    pub config: StakeConfig,
    /// The supply ledger.
    pub pool: SupplyPool,
    /// The global daily funding queue.
    pub daily: DailyFundingQueue,
    /// Principal requested for withdrawal and not yet claimed, across all
    /// accounts: grows on unbond, shrinks on claim.
    pub total_unbonding: u128,
}

impl StakingState {
    /// All components are well-formed.
    pub open spec fn wf(&self) -> bool {
        self.config.wf() && self.pool.valid() && self.daily.wf()
    }
}

/// Handles a deposit notification of `amount` tokens sent by `sender`
/// through the token contract `token`. The deposit is accepted only from
/// the configured stake token; it is then classified by `receive_type`:
///
/// - `Bond`: `account` (the sender's) is credited via the supply ledger,
///   and the principal is forwarded to the treasury, or buffered when none
///   is configured.
/// - `Reward`: the pool's token total grows, raising every share's worth;
///   a reward needs shares to accrue to, so an empty pool rejects it.
/// - `Unbond`: the amount funds the daily queue, earliest day first, and
///   whatever exceeds the outstanding obligations is sent back.
pub fn try_receive(
    state: &mut StakingState,
    token: &String,
    sender: &String,
    account: &mut Account,
    receive_type: ReceiveType,
    amount: u128,
) -> (r: Result<Vec<Transfer>, StakeError>)
    requires
        old(state).wf(),
    ensures
        final(state).wf(),
        final(state).config == old(state).config,
        r is Err ==> *final(state) == *old(state) && *final(account) == *old(account),
        token@ != old(state).config.staked_token@ ==> r == Err::<Vec<Transfer>, StakeError>(
            StakeError::NotStakeToken,
        ),
        token@ == old(state).config.staked_token@ && receive_type == ReceiveType::Bond ==> ({
            let step = spec_add_balance(
                old(state).config.decimal_difference as nat,
                old(state).pool,
                *old(account),
                amount,
            );
            &&& final(state).daily == old(state).daily
            &&& final(state).total_unbonding == old(state).total_unbonding
            &&& match step {
                None => r == Err::<Vec<Transfer>, StakeError>(StakeError::Overflow),
                Some(next) => match old(state).config.treasury {
                    Some(tr) => r matches Ok(out) && final(state).pool == next.0
                        && *final(account) == next.1 && out@.len() == 1 && is_transfer(
                        out@[0],
                        tr@,
                        amount,
                        old(state).config.staked_token@,
                    ),
                    None => {
                        if next.0.unsent_staked_tokens + amount <= u128::MAX {
                            r matches Ok(out) && final(state).pool == SupplyPool {
                                unsent_staked_tokens: (next.0.unsent_staked_tokens
                                    + amount) as u128,
                                ..next.0
                            } && *final(account) == next.1 && out@.len() == 0
                        } else {
                            r == Err::<Vec<Transfer>, StakeError>(StakeError::Overflow)
                        }
                    },
                },
            }
        }),
        token@ == old(state).config.staked_token@ && receive_type == ReceiveType::Reward ==> ({
            &&& final(state).daily == old(state).daily
            &&& final(state).total_unbonding == old(state).total_unbonding
            &&& *final(account) == *old(account)
            &&& if old(state).pool.total_shares == 0 && amount > 0 {
                r == Err::<Vec<Transfer>, StakeError>(StakeError::EmptyPool)
            } else if old(state).pool.total_tokens + amount > u128::MAX {
                r == Err::<Vec<Transfer>, StakeError>(StakeError::Overflow)
            } else {
                r matches Ok(out) && out@.len() == 0 && final(state).pool == SupplyPool {
                    total_tokens: (old(state).pool.total_tokens + amount) as u128,
                    ..old(state).pool
                }
            }
        }),
        token@ == old(state).config.staked_token@ && receive_type == ReceiveType::Unbond ==> ({
            let poured = fund_seq(old(state).daily.buckets@, amount as int);
            &&& final(state).pool == old(state).pool
            &&& final(state).total_unbonding == old(state).total_unbonding
            &&& *final(account) == *old(account)
            &&& final(state).daily.buckets@ == poured.0
            &&& r matches Ok(out) && if poured.1 > 0 {
                out@.len() == 1 && is_transfer(
                    out@[0],
                    sender@,
                    poured.1 as u128,
                    old(state).config.staked_token@,
                )
            } else {
                out@.len() == 0
            }
        }),
{
    if !token.eq(&state.config.staked_token) {
        return Err(StakeError::NotStakeToken);
    }
    let mut transfers: Vec<Transfer> = Vec::new();
    match receive_type {
        ReceiveType::Bond => {
            let pool_before = state.pool;
            let account_before = *account;
            match add_balance(&state.config, &mut state.pool, account, amount) {
                Ok(_) => (),
                Err(e) => {
                    return Err(e);
                },
            }
            match &state.config.treasury {
                Some(treasury) => {
                    transfers.push(
                        Transfer {
                            recipient: treasury.clone(),
                            amount,
                            token: state.config.staked_token.clone(),
                        },
                    );
                },
                None => {
                    match state.pool.unsent_staked_tokens.checked_add(amount) {
                        Some(buffered) => {
                            state.pool.unsent_staked_tokens = buffered;
                        },
                        None => {
                            state.pool = pool_before;
                            *account = account_before;
                            return Err(StakeError::Overflow);
                        },
                    }
                },
            }
        },
        ReceiveType::Reward => {
            if state.pool.total_shares == 0 && amount > 0 {
                return Err(StakeError::EmptyPool);
            }
            match state.pool.total_tokens.checked_add(amount) {
                Some(grown) => {
                    state.pool.total_tokens = grown;
                },
                None => {
                    return Err(StakeError::Overflow);
                },
            }
        },
        ReceiveType::Unbond => {
            let remainder = state.daily.fund(amount);
            if remainder > 0 {
                transfers.push(
                    Transfer {
                        recipient: sender.clone(),
                        amount: remainder,
                        token: state.config.staked_token.clone(),
                    },
                );
            }
        },
    }
    Ok(transfers)
}

/// Requests the withdrawal of `amount` tokens at time `now`: the amount
/// (and its share equivalent) leaves the account via the supply ledger, a
/// cooldown entry releasing at `now + unbond_time` joins the account's
/// queue, and the request is recorded under today's bucket in the daily
/// funding queue. Nothing changes when any step would fail.
pub fn try_unbond(
    state: &mut StakingState,
    account: &mut Account,
    queue: &mut CooldownQueue,
    amount: u128,
    now: u64,
) -> (r: Result<(), StakeError>)
    requires
        old(state).wf(),
        old(queue).wf(),
    ensures
        final(state).wf(),
        final(queue).wf(),
        final(state).config == old(state).config,
        r is Err ==> *final(state) == *old(state) && *final(account) == *old(account)
            && *final(queue) == *old(queue),
        ({
            let day = spec_round_date(now);
            let release_time = now + old(state).config.unbond_time;
            if release_time > u64::MAX {
                r == Err::<(), StakeError>(StakeError::Overflow)
            } else if request_overflows(old(state).daily.buckets@, day, amount) {
                r == Err::<(), StakeError>(StakeError::Overflow)
            } else if old(queue).total + amount > u128::MAX {
                r == Err::<(), StakeError>(StakeError::Overflow)
            } else if old(state).total_unbonding + amount > u128::MAX {
                r == Err::<(), StakeError>(StakeError::Overflow)
            } else {
                match spec_remove_balance(
                    old(state).config.decimal_difference as nat,
                    old(state).pool,
                    *old(account),
                    amount,
                ) {
                    Err(e) => r == Err::<(), StakeError>(e),
                    Ok(next) => {
                        &&& r is Ok
                        &&& final(state).pool == next.0
                        &&& *final(account) == next.1
                        &&& final(state).daily.buckets@ == request_spec(
                            old(state).daily.buckets@,
                            day,
                            amount,
                        )
                        &&& final(state).total_unbonding == old(state).total_unbonding + amount
                        &&& final(queue).total == old(queue).total + amount
                        &&& final(queue).entries@ == old(queue).entries@.insert(
                            cooldown_insert_pos(old(queue).entries@, release_time as u64),
                            CooldownEntry {
                                amount,
                                release_time: release_time as u64,
                                bucket_day: day,
                            },
                        )
                    },
                }
            }
        }),
{
    let release_time = match now.checked_add(state.config.unbond_time) {
        Some(t) => t,
        None => {
            return Err(StakeError::Overflow);
        },
    };
    let day = round_date(&now);
    if !state.daily.can_request(day, amount) {
        return Err(StakeError::Overflow);
    }
    if queue.total.checked_add(amount).is_none() {
        return Err(StakeError::Overflow);
    }
    let new_total_unbonding = match state.total_unbonding.checked_add(amount) {
        Some(v) => v,
        None => {
            return Err(StakeError::Overflow);
        },
    };
    match remove_balance(&state.config, &mut state.pool, account, amount) {
        Ok(_) => (),
        Err(e) => {
            return Err(e);
        },
    }
    match state.daily.request_unbonding(day, amount) {
        Ok(_) => (),
        Err(_) => (),
    }
    match queue.push_entry(amount, release_time, day) {
        Ok(_) => (),
        Err(_) => (),
    }
    state.total_unbonding = new_total_unbonding;
    Ok(())
}

/// Pays out every matured, funded withdrawal at the front of the account's
/// cooldown queue: the paid entries leave the queue and the global
/// outstanding-unbonding counter, and a single transfer of the total goes
/// to `sender` (a zero total is a valid outcome, not an error).
pub fn try_claim_unbond(
    state: &mut StakingState,
    queue: &mut CooldownQueue,
    sender: &String,
    now: u64,
) -> (r: (u128, Vec<Transfer>))
    requires
        old(state).wf(),
        old(queue).wf(),
        old(queue).total <= old(state).total_unbonding,
    ensures
        final(state).wf(),
        final(queue).wf(),
        ({
            let k = claimable_len(old(queue).entries@, old(state).daily.buckets@, now) as int;
            &&& r.0 == sum_amounts(old(queue).entries@.take(k))
            &&& final(queue).entries@ == old(queue).entries@.skip(k)
            &&& final(queue).total == old(queue).total - r.0
            &&& final(state).total_unbonding == old(state).total_unbonding - r.0
            &&& final(state).pool == old(state).pool
            &&& final(state).daily == old(state).daily
            &&& final(state).config == old(state).config
            &&& final(queue).total <= final(state).total_unbonding
            &&& r.1@.len() == 1 && is_transfer(
                r.1@[0],
                sender@,
                r.0,
                old(state).config.staked_token@,
            )
        }),
{
    let total = queue.claim_matured(&state.daily, now);
    state.total_unbonding = state.total_unbonding - total;
    let mut transfers: Vec<Transfer> = Vec::new();
    transfers.push(
        Transfer {
            recipient: sender.clone(),
            amount: total,
            token: state.config.staked_token.clone(),
        },
    );
    (total, transfers)
}

/// Pays the account's accrued rewards out to `sender`: the reward tokens
/// leave the pool and the supply counter, the matching shares leave the
/// account, and one transfer instruction carries the reward.
pub fn try_claim_rewards(
    state: &mut StakingState,
    account: &mut Account,
    sender: &String,
) -> (r: Result<(u128, Vec<Transfer>), StakeError>)
    requires
        old(state).wf(),
        old(account).shares <= old(state).pool.total_shares,
    ensures
        final(state).wf(),
        final(state).config == old(state).config,
        final(state).daily == old(state).daily,
        final(state).total_unbonding == old(state).total_unbonding,
        r is Err ==> *final(state) == *old(state) && *final(account) == *old(account),
        ({
            let step = spec_claim_rewards(
                old(state).config.decimal_difference as nat,
                old(state).pool,
                *old(account),
            );
            match step {
                Err(e) => r == Err::<(u128, Vec<Transfer>), StakeError>(e),
                Ok(next) => r matches Ok(out) && final(state).pool == next.0 && *final(account)
                    == next.1 && out.0 == next.2
                    && final(account).shares <= final(state).pool.total_shares
                    && out.1@.len() == 1 && is_transfer(
                    out.1@[0],
                    sender@,
                    next.2,
                    old(state).config.staked_token@,
                ),
            }
        }),
{
    let reward = match claim_rewards(&state.config, &mut state.pool, account) {
        Ok(v) => v,
        Err(e) => {
            return Err(e);
        },
    };
    let mut transfers: Vec<Transfer> = Vec::new();
    transfers.push(
        Transfer {
            recipient: sender.clone(),
            amount: reward,
            token: state.config.staked_token.clone(),
        },
    );
    Ok((reward, transfers))
}

/// Compounds the account's accrued rewards: claims them as in
/// `try_claim_rewards`, immediately re-bonds the claimed amount for the
/// same account, and routes the re-bonded principal to the treasury (or
/// the unsent buffer) exactly as a fresh bond would. The two steps are one
/// atomic operation: if the re-bond or the buffering fails, the claim is
/// undone too.
pub fn try_stake_rewards(
    state: &mut StakingState,
    account: &mut Account,
) -> (r: Result<(u128, Vec<Transfer>), StakeError>)
    requires
        old(state).wf(),
        old(account).shares <= old(state).pool.total_shares,
    ensures
        final(state).wf(),
        final(state).config == old(state).config,
        final(state).daily == old(state).daily,
        final(state).total_unbonding == old(state).total_unbonding,
        r is Err ==> *final(state) == *old(state) && *final(account) == *old(account),
        ({
            let dd = old(state).config.decimal_difference as nat;
            match spec_claim_rewards(dd, old(state).pool, *old(account)) {
                Err(e) => r == Err::<(u128, Vec<Transfer>), StakeError>(e),
                Ok(claimed) => match spec_add_balance(dd, claimed.0, claimed.1, claimed.2) {
                    None => r == Err::<(u128, Vec<Transfer>), StakeError>(StakeError::Overflow),
                    Some(next) => match old(state).config.treasury {
                        Some(tr) => r matches Ok(out) && final(state).pool == next.0
                            && *final(account) == next.1 && out.0 == claimed.2
                            && out.1@.len() == 1 && is_transfer(
                            out.1@[0],
                            tr@,
                            claimed.2,
                            old(state).config.staked_token@,
                        ),
                        None => {
                            if next.0.unsent_staked_tokens + claimed.2 <= u128::MAX {
                                r matches Ok(out) && final(state).pool == SupplyPool {
                                    unsent_staked_tokens: (next.0.unsent_staked_tokens
                                        + claimed.2) as u128,
                                    ..next.0
                                } && *final(account) == next.1 && out.0 == claimed.2
                                    && out.1@.len() == 0
                            } else {
                                r == Err::<(u128, Vec<Transfer>), StakeError>(StakeError::Overflow)
                            }
                        },
                    },
                },
            }
        }),
{
    let pool_before = state.pool;
    let account_before = *account;
    let reward = match claim_rewards(&state.config, &mut state.pool, account) {
        Ok(v) => v,
        Err(e) => {
            return Err(e);
        },
    };
    match add_balance(&state.config, &mut state.pool, account, reward) {
        Ok(_) => (),
        Err(e) => {
            state.pool = pool_before;
            *account = account_before;
            return Err(e);
        },
    }
    let mut transfers: Vec<Transfer> = Vec::new();
    match &state.config.treasury {
        Some(treasury) => {
            transfers.push(
                Transfer {
                    recipient: treasury.clone(),
                    amount: reward,
                    token: state.config.staked_token.clone(),
                },
            );
        },
        None => {
            match state.pool.unsent_staked_tokens.checked_add(reward) {
                Some(buffered) => {
                    state.pool.unsent_staked_tokens = buffered;
                },
                None => {
                    state.pool = pool_before;
                    *account = account_before;
                    return Err(StakeError::Overflow);
                },
            }
        },
    }
    Ok((reward, transfers))
}

/// The admin reconfiguration: optionally changes the cooldown length,
/// disables the treasury, or sets one. Setting a treasury flushes the
/// whole unsent-principal buffer to it in a single transfer and zeroes the
/// buffer; disabling only stops future forwarding.
pub fn try_update_stake_config(
    state: &mut StakingState,
    unbond_time: Option<u64>,
    disable_treasury: bool,
    treasury: Option<String>,
) -> (r: Vec<Transfer>)
    requires
        old(state).wf(),
    ensures
        final(state).wf(),
        final(state).pool.total_tokens == old(state).pool.total_tokens,
        final(state).pool.total_shares == old(state).pool.total_shares,
        final(state).pool.total_supply == old(state).pool.total_supply,
        final(state).daily == old(state).daily,
        final(state).total_unbonding == old(state).total_unbonding,
        final(state).config.staked_token == old(state).config.staked_token,
        final(state).config.decimal_difference == old(state).config.decimal_difference,
        final(state).config.unbond_time == match unbond_time {
            Some(t) => t,
            None => old(state).config.unbond_time,
        },
        disable_treasury ==> final(state).config.treasury is None
            && final(state).pool.unsent_staked_tokens == old(state).pool.unsent_staked_tokens
            && r@.len() == 0,
        !disable_treasury ==> match treasury {
            Some(tr) => {
                &&& final(state).config.treasury matches Some(t) && t@ == tr@
                &&& if old(state).pool.unsent_staked_tokens > 0 {
                    final(state).pool.unsent_staked_tokens == 0 && r@.len() == 1 && is_transfer(
                        r@[0],
                        tr@,
                        old(state).pool.unsent_staked_tokens,
                        old(state).config.staked_token@,
                    )
                } else {
                    final(state).pool.unsent_staked_tokens == old(state).pool.unsent_staked_tokens
                        && r@.len() == 0
                }
            },
            None => final(state).config.treasury == old(state).config.treasury
                && final(state).pool.unsent_staked_tokens == old(state).pool.unsent_staked_tokens
                && r@.len() == 0,
        },
{
    match unbond_time {
        Some(t) => {
            state.config.unbond_time = t;
        },
        None => (),
    }
    let mut transfers: Vec<Transfer> = Vec::new();
    if disable_treasury {
        state.config.treasury = None;
    } else {
        match treasury {
            Some(tr) => {
                if state.pool.unsent_staked_tokens > 0 {
                    transfers.push(
                        Transfer {
                            recipient: tr.clone(),
                            amount: state.pool.unsent_staked_tokens,
                            token: state.config.staked_token.clone(),
                        },
                    );
                    state.pool.unsent_staked_tokens = 0;
                }
                state.config.treasury = Some(tr);
            },
            None => (),
        }
    }
    transfers
}

} // verus!
