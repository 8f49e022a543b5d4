use shd_staking::config::StakeConfig;
use shd_staking::cooldown::CooldownQueue;
use shd_staking::errors::StakeError;
use shd_staking::facade::{
    try_claim_rewards, try_claim_unbond, try_receive, try_stake_rewards, try_unbond,
    try_update_stake_config, ReceiveType, StakingState,
};
use shd_staking::funding::DailyFundingQueue;
use shd_staking::queries::{staked, stake_rate, total_staked, unbonding, unfunded};
use shd_staking::rate::{shares_per_token, tokens_per_share};
use shd_staking::supply::{Account, SupplyPool};

const DAY: u64 = 86400;

fn fresh_state(decimal_difference: u8, unbond_time: u64, treasury: Option<&str>) -> StakingState {
    StakingState {
        config: StakeConfig {
            unbond_time,
            staked_token: "stake_token".to_string(),
            decimal_difference,
            treasury: treasury.map(|t| t.to_string()),
        },
        pool: SupplyPool {
            total_tokens: 0,
            total_shares: 0,
            total_supply: 0,
            unsent_staked_tokens: 0,
        },
        daily: DailyFundingQueue::new(),
        total_unbonding: 0,
    }
}

fn token() -> String {
    "stake_token".to_string()
}

#[test]
fn bond_unbond_claim_conserves_principal() {
    // Bond(100), Unbond(100), fund, then claim after the cooldown: exactly
    // 100 come back and the account keeps no residual shares.
    let mut state = fresh_state(10, 100, None);
    let mut account = Account { shares: 0, token_balance: 0 };
    let mut queue = CooldownQueue::new();

    let out = try_receive(
        &mut state,
        &token(),
        &"alice".to_string(),
        &mut account,
        ReceiveType::Bond,
        100,
    )
    .unwrap();
    assert!(out.is_empty());
    assert_eq!(account.shares, 100 * 10u128.pow(10));
    assert_eq!(account.token_balance, 100);
    assert_eq!(state.pool.total_tokens, 100);

    try_unbond(&mut state, &mut account, &mut queue, 100, 1000).unwrap();
    assert_eq!(account.shares, 0);
    assert_eq!(account.token_balance, 0);
    assert_eq!(state.total_unbonding, 100);
    assert_eq!(queue.total, 100);

    // Liquidity arrives: funds the day bucket in full, nothing flows back.
    let out = try_receive(
        &mut state,
        &token(),
        &"funder".to_string(),
        &mut account,
        ReceiveType::Unbond,
        100,
    )
    .unwrap();
    assert!(out.is_empty());

    let (total, transfers) = try_claim_unbond(&mut state, &mut queue, &"alice".to_string(), 1100);
    assert_eq!(total, 100);
    assert_eq!(transfers.len(), 1);
    assert_eq!(transfers[0].recipient, "alice");
    assert_eq!(transfers[0].amount, 100);
    assert_eq!(transfers[0].token, "stake_token");
    assert_eq!(account.shares, 0);
    assert_eq!(queue.total, 0);
    assert_eq!(state.total_unbonding, 0);
}

#[test]
fn funding_fills_earliest_days_first() {
    // Three buckets requesting 50 each: fund(120) fills the first two and
    // leaves the third at 20 of 50.
    let mut q = DailyFundingQueue::new();
    q.request_unbonding(DAY, 50).unwrap();
    q.request_unbonding(2 * DAY, 50).unwrap();
    q.request_unbonding(3 * DAY, 50).unwrap();

    let remainder = q.fund(120);
    assert_eq!(remainder, 0);
    assert_eq!(q.buckets[0].funded, 50);
    assert_eq!(q.buckets[1].funded, 50);
    assert_eq!(q.buckets[2].funded, 20);
    assert_eq!(q.buckets[2].requested, 50);
    assert!(q.is_funded(DAY));
    assert!(q.is_funded(2 * DAY));
    assert!(!q.is_funded(3 * DAY));

    // Overfunding the rest flows back out.
    let remainder = q.fund(100);
    assert_eq!(remainder, 70);
    assert!(q.is_funded(3 * DAY));
}

#[test]
fn matured_but_unfunded_entry_stays_queued() {
    // An entry whose release time has long passed is never paid while its
    // day bucket is unfunded, no matter how often the claim runs.
    let mut state = fresh_state(10, 10, None);
    let mut account = Account { shares: 0, token_balance: 0 };
    let mut queue = CooldownQueue::new();

    try_receive(
        &mut state,
        &token(),
        &"alice".to_string(),
        &mut account,
        ReceiveType::Bond,
        100,
    )
    .unwrap();
    try_unbond(&mut state, &mut account, &mut queue, 100, 0).unwrap();

    for _ in 0..5 {
        let (total, _) = try_claim_unbond(&mut state, &mut queue, &"alice".to_string(), 1_000_000);
        assert_eq!(total, 0);
        assert_eq!(queue.entries.len(), 1);
    }

    // Once the bucket is funded, the same claim pays out.
    try_receive(
        &mut state,
        &token(),
        &"funder".to_string(),
        &mut account,
        ReceiveType::Unbond,
        100,
    )
    .unwrap();
    let (total, _) = try_claim_unbond(&mut state, &mut queue, &"alice".to_string(), 1_000_000);
    assert_eq!(total, 100);
    assert_eq!(queue.entries.len(), 0);
}

#[test]
fn reward_accrual_and_rate_continuity() {
    // Pool of 100 tokens against 100 * 10^1 shares; Reward(10) raises every
    // share's worth; the sole holder's claim pays exactly 10, and what the
    // remaining shares are worth does not change across the claim.
    let d = 1u8;
    let mut state = fresh_state(d, 0, None);
    let mut account = Account { shares: 0, token_balance: 0 };

    try_receive(
        &mut state,
        &token(),
        &"alice".to_string(),
        &mut account,
        ReceiveType::Bond,
        100,
    )
    .unwrap();
    assert_eq!(state.pool.total_shares, 1000);

    try_receive(
        &mut state,
        &token(),
        &"distributor".to_string(),
        &mut account,
        ReceiveType::Reward,
        10,
    )
    .unwrap();
    assert_eq!(state.pool.total_tokens, 110);
    assert_eq!(state.pool.total_shares, 1000);

    // The 910 shares that will remain are worth 100 before the claim...
    let remaining_worth_before = tokens_per_share(&state.config, &910, &110, &1000);
    assert_eq!(remaining_worth_before, 100);

    let (reward, transfers) =
        try_claim_rewards(&mut state, &mut account, &"alice".to_string()).unwrap();
    assert_eq!(reward, 10);
    assert_eq!(transfers.len(), 1);
    assert_eq!(transfers[0].amount, 10);
    // reward_shares = 10 * 1000 / 110 = 90, truncating in the pool's favor
    assert_eq!(account.shares, 910);
    assert_eq!(state.pool.total_tokens, 100);
    assert_eq!(state.pool.total_shares, 910);

    // ... and still worth 100 after it: the rate did not move.
    let remaining_worth_after = tokens_per_share(
        &state.config,
        &account.shares,
        &state.pool.total_tokens,
        &state.pool.total_shares,
    );
    assert_eq!(remaining_worth_after, remaining_worth_before);

    // Nothing further to claim: the basis now matches the worth.
    let err = try_claim_rewards(&mut state, &mut account, &"alice".to_string()).unwrap();
    assert_eq!(err.0, 0);
}

#[test]
fn stake_rewards_compounds_atomically() {
    let mut state = fresh_state(1, 0, None);
    let mut account = Account { shares: 0, token_balance: 0 };

    try_receive(
        &mut state,
        &token(),
        &"alice".to_string(),
        &mut account,
        ReceiveType::Bond,
        100,
    )
    .unwrap();
    try_receive(
        &mut state,
        &token(),
        &"distributor".to_string(),
        &mut account,
        ReceiveType::Reward,
        10,
    )
    .unwrap();

    let (reward, transfers) = try_stake_rewards(&mut state, &mut account).unwrap();
    assert_eq!(reward, 10);
    // No treasury: the re-bonded principal joins the bond already buffered.
    assert!(transfers.is_empty());
    assert_eq!(state.pool.unsent_staked_tokens, 110);
    assert_eq!(account.token_balance, 110);
    assert_eq!(state.pool.total_tokens, 110);
}

#[test]
fn bootstrap_rate_round_trips_exactly() {
    // On an empty pool, t tokens become t * 10^d shares and back exactly t.
    let config = StakeConfig {
        unbond_time: 0,
        staked_token: String::new(),
        decimal_difference: 8,
        treasury: None,
    };
    for t in [0u128, 1, 7, 123_456_789] {
        let s = shares_per_token(&config, &t, &0, &0);
        assert_eq!(s, t * 10u128.pow(8));
        assert_eq!(tokens_per_share(&config, &s, &0, &0), t);
    }
}

#[test]
fn rate_is_scale_invariant() {
    let config = StakeConfig {
        unbond_time: 0,
        staked_token: String::new(),
        decimal_difference: 8,
        treasury: None,
    };
    let t = 12_345u128;
    let total_tokens = 999u128;
    let total_shares = 31_337u128;
    let base = shares_per_token(&config, &t, &total_tokens, &total_shares);
    for k in [2u128, 3, 10, 1000] {
        assert_eq!(
            shares_per_token(&config, &t, &(k * total_tokens), &(k * total_shares)),
            base
        );
    }
}

#[test]
fn round_trip_loses_at_most_truncation() {
    let config = StakeConfig {
        unbond_time: 0,
        staked_token: String::new(),
        decimal_difference: 8,
        treasury: None,
    };
    for (t, total_tokens, total_shares) in
        [(5u128, 2u128, 3u128), (5, 3, 2), (1000, 7, 13), (123_456, 999, 31_337)]
    {
        let s = shares_per_token(&config, &t, &total_tokens, &total_shares);
        let back = tokens_per_share(&config, &s, &total_tokens, &total_shares);
        assert!(back <= t);
        assert!(t - back <= total_tokens / total_shares + 1);
    }
}

#[test]
fn wide_multiplication_survives_128_bit_overflow() {
    // shares * total_tokens here is near 2^200: only the 256-bit
    // intermediate keeps the conversion exact.
    let config = StakeConfig {
        unbond_time: 0,
        staked_token: String::new(),
        decimal_difference: 0,
        treasury: None,
    };
    let big = 1u128 << 100;
    assert_eq!(tokens_per_share(&config, &big, &big, &big), big);
    assert_eq!(shares_per_token(&config, &big, &big, &big), big);
}

#[test]
fn wrong_token_is_rejected() {
    let mut state = fresh_state(10, 0, None);
    let mut account = Account { shares: 0, token_balance: 0 };
    let err = try_receive(
        &mut state,
        &"impostor_token".to_string(),
        &"alice".to_string(),
        &mut account,
        ReceiveType::Bond,
        100,
    )
    .unwrap_err();
    assert_eq!(err, StakeError::NotStakeToken);
    assert_eq!(state.pool.total_tokens, 0);
}

#[test]
fn reward_into_empty_pool_is_rejected() {
    let mut state = fresh_state(10, 0, None);
    let mut account = Account { shares: 0, token_balance: 0 };
    let err = try_receive(
        &mut state,
        &token(),
        &"distributor".to_string(),
        &mut account,
        ReceiveType::Reward,
        10,
    )
    .unwrap_err();
    assert_eq!(err, StakeError::EmptyPool);
    assert_eq!(state.pool.total_tokens, 0);
}

#[test]
fn overflowing_bond_is_rejected_atomically() {
    let mut state = fresh_state(0, 0, None);
    let mut account = Account { shares: 0, token_balance: 0 };
    try_receive(
        &mut state,
        &token(),
        &"alice".to_string(),
        &mut account,
        ReceiveType::Bond,
        u128::MAX,
    )
    .unwrap();
    let err = try_receive(
        &mut state,
        &token(),
        &"alice".to_string(),
        &mut account,
        ReceiveType::Bond,
        1,
    )
    .unwrap_err();
    assert_eq!(err, StakeError::Overflow);
    assert_eq!(account.shares, u128::MAX);
    assert_eq!(state.pool.total_tokens, u128::MAX);
}

#[test]
fn unbonding_more_than_owned_is_rejected() {
    let mut state = fresh_state(10, 0, None);
    let mut account = Account { shares: 0, token_balance: 0 };
    let mut queue = CooldownQueue::new();
    try_receive(
        &mut state,
        &token(),
        &"alice".to_string(),
        &mut account,
        ReceiveType::Bond,
        100,
    )
    .unwrap();
    let err = try_unbond(&mut state, &mut account, &mut queue, 150, 0).unwrap_err();
    assert_eq!(err, StakeError::InsufficientShares);
    assert_eq!(account.shares, 100 * 10u128.pow(10));
    assert_eq!(queue.total, 0);
}

#[test]
fn withdrawing_past_the_token_basis_is_insufficient_funds() {
    // After a reward, a holder's shares cover more tokens than their
    // recorded basis: withdrawing between the two hits the basis check.
    let mut state = fresh_state(0, 0, None);
    let mut alice = Account { shares: 0, token_balance: 0 };
    let mut bob = Account { shares: 0, token_balance: 0 };
    let mut queue = CooldownQueue::new();
    try_receive(&mut state, &token(), &"alice".to_string(), &mut alice, ReceiveType::Bond, 100)
        .unwrap();
    try_receive(&mut state, &token(), &"bob".to_string(), &mut bob, ReceiveType::Bond, 100)
        .unwrap();
    try_receive(
        &mut state,
        &token(),
        &"distributor".to_string(),
        &mut alice,
        ReceiveType::Reward,
        200,
    )
    .unwrap();
    // shares_of(150) = 150 * 200 / 400 = 75 <= alice's 100 shares, but her
    // token basis is only 100.
    let err = try_unbond(&mut state, &mut alice, &mut queue, 150, 0).unwrap_err();
    assert_eq!(err, StakeError::InsufficientFunds);
    assert_eq!(alice.token_balance, 100);
}

#[test]
fn setting_a_treasury_flushes_the_unsent_buffer() {
    let mut state = fresh_state(10, 0, None);
    let mut account = Account { shares: 0, token_balance: 0 };
    try_receive(
        &mut state,
        &token(),
        &"alice".to_string(),
        &mut account,
        ReceiveType::Bond,
        100,
    )
    .unwrap();
    assert_eq!(state.pool.unsent_staked_tokens, 100);

    let transfers = try_update_stake_config(
        &mut state,
        Some(500),
        false,
        Some("treasury_addr".to_string()),
    );
    assert_eq!(transfers.len(), 1);
    assert_eq!(transfers[0].recipient, "treasury_addr");
    assert_eq!(transfers[0].amount, 100);
    assert_eq!(state.pool.unsent_staked_tokens, 0);
    assert_eq!(state.config.unbond_time, 500);

    // With a treasury configured, fresh bonds are forwarded immediately.
    let out = try_receive(
        &mut state,
        &token(),
        &"alice".to_string(),
        &mut account,
        ReceiveType::Bond,
        40,
    )
    .unwrap();
    assert_eq!(out.len(), 1);
    assert_eq!(out[0].recipient, "treasury_addr");
    assert_eq!(out[0].amount, 40);
    assert_eq!(state.pool.unsent_staked_tokens, 0);

    // Disabling only stops future forwarding.
    let transfers = try_update_stake_config(&mut state, None, true, None);
    assert!(transfers.is_empty());
    assert_eq!(state.config.treasury, None);
    assert_eq!(state.config.unbond_time, 500);
}

#[test]
fn same_day_requests_reopen_a_funded_bucket() {
    // `funded` never exceeds `requested`, and a new request for an already
    // funded day reopens that bucket.
    let mut q = DailyFundingQueue::new();
    q.request_unbonding(DAY, 50).unwrap();
    assert_eq!(q.fund(50), 0);
    assert!(q.is_funded(DAY));

    q.request_unbonding(DAY, 30).unwrap();
    assert_eq!(q.buckets.len(), 1);
    assert_eq!(q.buckets[0].requested, 80);
    assert_eq!(q.buckets[0].funded, 50);
    assert!(!q.is_funded(DAY));

    assert_eq!(q.fund(100), 70);
    assert!(q.is_funded(DAY));
}

#[test]
fn a_blocked_entry_holds_back_later_ones() {
    // Claims pay a prefix: an unfunded first entry blocks a later entry
    // even when the later entry's own bucket is funded.
    let mut state = fresh_state(0, 10, None);
    let mut account = Account { shares: 0, token_balance: 0 };
    let mut queue = CooldownQueue::new();
    try_receive(
        &mut state,
        &token(),
        &"alice".to_string(),
        &mut account,
        ReceiveType::Bond,
        100,
    )
    .unwrap();
    // Two requests on two different days.
    try_unbond(&mut state, &mut account, &mut queue, 40, 0).unwrap();
    try_unbond(&mut state, &mut account, &mut queue, 30, DAY).unwrap();
    assert_eq!(queue.entries.len(), 2);

    assert_eq!(state.daily.buckets[0].release_day, 0);
    assert_eq!(state.daily.buckets[1].release_day, DAY);

    // Nothing is claimable while the first day's bucket is unfunded.
    let (total, _) = try_claim_unbond(&mut state, &mut queue, &"alice".to_string(), 10 * DAY);
    assert_eq!(total, 0);
    assert_eq!(queue.entries.len(), 2);

    // Fund day 0 only: now exactly the first entry pays out.
    try_receive(
        &mut state,
        &token(),
        &"funder".to_string(),
        &mut account,
        ReceiveType::Unbond,
        40,
    )
    .unwrap();
    let (total, _) = try_claim_unbond(&mut state, &mut queue, &"alice".to_string(), 10 * DAY);
    assert_eq!(total, 40);
    assert_eq!(queue.entries.len(), 1);

    // And the rest once its bucket is funded too.
    try_receive(
        &mut state,
        &token(),
        &"funder".to_string(),
        &mut account,
        ReceiveType::Unbond,
        30,
    )
    .unwrap();
    let (total, _) = try_claim_unbond(&mut state, &mut queue, &"alice".to_string(), 10 * DAY);
    assert_eq!(total, 30);
    assert!(queue.entries.is_empty());
}

#[test]
fn unfunded_sum_overflow_is_reported() {
    let mut q = DailyFundingQueue::new();
    q.request_unbonding(DAY, u128::MAX).unwrap();
    q.request_unbonding(2 * DAY, u128::MAX).unwrap();
    assert_eq!(q.total_unfunded(0, 10).unwrap_err(), StakeError::Overflow);
    // A window of one bucket still fits.
    assert_eq!(q.total_unfunded(0, 1).unwrap(), u128::MAX);
    assert_eq!(q.total_unfunded(2 * DAY, 10).unwrap(), u128::MAX);
}

#[test]
fn queries_report_the_ledger() {
    let mut state = fresh_state(1, 100, None);
    let mut account = Account { shares: 0, token_balance: 0 };
    let mut queue = CooldownQueue::new();
    try_receive(
        &mut state,
        &token(),
        &"alice".to_string(),
        &mut account,
        ReceiveType::Bond,
        100,
    )
    .unwrap();
    try_receive(
        &mut state,
        &token(),
        &"distributor".to_string(),
        &mut account,
        ReceiveType::Reward,
        10,
    )
    .unwrap();

    let (tokens, shares) = total_staked(&state);
    assert_eq!(tokens, 110);
    assert_eq!(shares, 1000);
    // One token now buys 1000 / 110 = 9 shares (truncated).
    assert_eq!(stake_rate(&state).unwrap(), 9);

    try_unbond(&mut state, &mut account, &mut queue, 50, 1000).unwrap();
    assert_eq!(unbonding(&state), 50);
    assert_eq!(unfunded(&state, 0, 10).unwrap(), 50);

    let info = staked(&state, &account, &queue, None);
    assert_eq!(info.tokens, 50);
    assert_eq!(info.unbonding, 50);
    assert_eq!(info.unbonded, None);

    // By time 1100 the single entry (release 1000 + 100) has matured.
    let info = staked(&state, &account, &queue, Some(1100));
    assert_eq!(info.unbonding, 0);
    assert_eq!(info.unbonded, Some(50));
    let info = staked(&state, &account, &queue, Some(1099));
    assert_eq!(info.unbonding, 50);
    assert_eq!(info.unbonded, Some(0));
}
