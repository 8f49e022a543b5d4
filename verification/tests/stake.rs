use shd_staking::config::StakeConfig;
use shd_staking::funding::round_date;
use shd_staking::rate::{calculate_rewards, shares_per_token, tokens_per_share};

fn init_config(token_decimals: u8, shares_decimals: u8) -> StakeConfig {
    StakeConfig {
        unbond_time: 0,
        staked_token: String::new(),
        decimal_difference: shares_decimals - token_decimals,
        treasury: None,
    }
}

#[test]
fn tokens_per_share_test() {
    let token_decimals = 8;
    let shares_decimals = 18;
    let config = init_config(token_decimals, shares_decimals);

    let token_1 = 10000000 * 10u128.pow(token_decimals.into());
    let share_1 = 10000000 * 10u128.pow(shares_decimals.into());

    // Check for proper init
    assert_eq!(tokens_per_share(&config, &share_1, &0, &0), token_1);

    // Check for stability
    assert_eq!(tokens_per_share(&config, &share_1, &token_1, &share_1), token_1);
    assert_eq!(
        tokens_per_share(&config, &share_1, &(token_1 * 2), &(share_1 * 2)),
        token_1
    );

    // check that shares increase when tokens decrease
    assert!(tokens_per_share(&config, &share_1, &(token_1 * 2), &share_1) > token_1);

    // check that shares decrease when tokens increase
    assert!(tokens_per_share(&config, &share_1, &token_1, &(share_1 * 2)) < token_1);
}

#[test]
fn shares_per_token_test() {
    let token_decimals = 8;
    let shares_decimals = 18;
    let config = init_config(token_decimals, shares_decimals);

    let token_1 = 100 * 10u128.pow(token_decimals.into());
    let share_1 = 100 * 10u128.pow(shares_decimals.into());

    // Check for proper init
    assert_eq!(shares_per_token(&config, &token_1, &0, &0), share_1);

    // Check for stability
    assert_eq!(shares_per_token(&config, &token_1, &token_1, &share_1), share_1);
    assert_eq!(
        shares_per_token(&config, &token_1, &(token_1 * 2), &(share_1 * 2)),
        share_1
    );

    // check that shares increase when tokens decrease
    assert!(shares_per_token(&config, &token_1, &(token_1 * 2), &share_1) < share_1);

    // check that shares decrease when tokens increase
    assert!(shares_per_token(&config, &token_1, &token_1, &(share_1 * 2)) > share_1);
}

#[test]
fn round_date_test() {
    assert_eq!(round_date(&1645740448), 1645660800)
}

#[test]
fn calculate_rewards_test() {
    let token_decimals = 8;
    let shares_decimals = 18;
    let config = init_config(token_decimals, shares_decimals);

    // No rewards
    let (tokens, shares) = calculate_rewards(
        &config,
        100 * 10u128.pow(token_decimals.into()),
        100 * 10u128.pow(shares_decimals.into()),
        200 * 10u128.pow(token_decimals.into()),
        200 * 10u128.pow(shares_decimals.into()),
    );

    assert_eq!(tokens, 0);
    assert_eq!(shares, 0);
}
