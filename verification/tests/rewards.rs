use nft_staking::errors::StakingError;
use nft_staking::rewards::{
    compute_reward_amount, compute_reward_amount_if_any, require_freeze_period_elapsed,
    require_whole_token_rate, resolve_claim_from, REWARD_TOKEN_UNIT,
};

#[test]
fn whole_token_rates_are_accepted() {
    assert_eq!(require_whole_token_rate(0), Ok(()));
    assert_eq!(require_whole_token_rate(REWARD_TOKEN_UNIT), Ok(()));
    assert_eq!(require_whole_token_rate(3_000_000), Ok(()));
}

#[test]
fn fractional_token_rates_are_refused() {
    assert_eq!(require_whole_token_rate(1), Err(StakingError::InvalidRewardRate));
    assert_eq!(require_whole_token_rate(2_500_000), Err(StakingError::InvalidRewardRate));
    assert_eq!(require_whole_token_rate(u64::MAX), Err(StakingError::InvalidRewardRate));
}

#[test]
fn claim_starts_at_stake_without_a_claim() {
    assert_eq!(resolve_claim_from(100, None), Ok(100));
    assert_eq!(resolve_claim_from(100, Some(0)), Ok(100));
}

#[test]
fn claim_starts_at_last_claim() {
    assert_eq!(resolve_claim_from(100, Some(150)), Ok(150));
    assert_eq!(resolve_claim_from(100, Some(100)), Ok(100));
}

#[test]
fn claim_before_stake_is_refused() {
    assert_eq!(resolve_claim_from(100, Some(50)), Err(StakingError::InvalidTimestamp));
    assert_eq!(resolve_claim_from(100, Some(-7)), Err(StakingError::InvalidTimestamp));
}

#[test]
fn freeze_period_boundaries() {
    assert_eq!(require_freeze_period_elapsed(100, 10, 110), Ok(()));
    assert_eq!(require_freeze_period_elapsed(100, 10, 500), Ok(()));
    assert_eq!(
        require_freeze_period_elapsed(100, 10, 109),
        Err(StakingError::FreezePeriodNotElapsed)
    );
    assert_eq!(require_freeze_period_elapsed(100, 0, 100), Ok(()));
}

#[test]
fn freeze_period_overflow() {
    assert_eq!(
        require_freeze_period_elapsed(i64::MAX - 5, 10, i64::MAX),
        Err(StakingError::Overflow)
    );
}

#[test]
fn reward_is_rate_times_elapsed() {
    assert_eq!(compute_reward_amount(110, 100, 1_000_000), Ok(10_000_000));
    assert_eq!(compute_reward_amount(86_500, 100, 2_000_000), Ok(172_800_000_000));
    assert_eq!(compute_reward_amount(5, -5, 7), Ok(70));
}

#[test]
fn reward_errors() {
    assert_eq!(compute_reward_amount(100, 100, 1_000_000), Err(StakingError::NoRewardsToClaim));
    assert_eq!(compute_reward_amount(99, 100, 1_000_000), Err(StakingError::InvalidTimestamp));
    assert_eq!(compute_reward_amount(i64::MAX, -1, 1), Err(StakingError::Underflow));
    assert_eq!(compute_reward_amount(i64::MAX, 0, u64::MAX), Err(StakingError::Overflow));
}

#[test]
fn reward_at_the_limit() {
    assert_eq!(compute_reward_amount(1, 0, u64::MAX), Ok(u64::MAX));
    assert_eq!(compute_reward_amount(2, 0, u64::MAX), Err(StakingError::Overflow));
}

#[test]
fn reward_if_any_is_zero_when_nothing_accrued() {
    assert_eq!(compute_reward_amount_if_any(100, 100, 1_000_000), Ok(0));
    assert_eq!(compute_reward_amount_if_any(110, 100, 1_000_000), Ok(10_000_000));
    assert_eq!(
        compute_reward_amount_if_any(99, 100, 1_000_000),
        Err(StakingError::InvalidTimestamp)
    );
    assert_eq!(compute_reward_amount_if_any(i64::MAX, -1, 1), Err(StakingError::Underflow));
}

#[test]
fn rewards_add_up_over_split_claims() {
    let first = compute_reward_amount(150, 100, 3_000_000).unwrap();
    let second = compute_reward_amount(400, 150, 3_000_000).unwrap();
    let whole = compute_reward_amount(400, 100, 3_000_000).unwrap();
    assert_eq!(first + second, whole);
}

#[test]
fn rewards_grow_with_time() {
    let earlier = compute_reward_amount(150, 100, 1_000_000).unwrap();
    let later = compute_reward_amount(151, 100, 1_000_000).unwrap();
    assert!(earlier <= later);
}

#[test]
fn whole_token_rate_pays_whole_tokens() {
    let amount = compute_reward_amount(1_234, 17, 5_000_000).unwrap();
    assert_eq!(amount % REWARD_TOKEN_UNIT, 0);
}

#[test]
fn error_messages() {
    assert_eq!(StakingError::AlreadyStaked.message(), "Already staked");
    assert_eq!(StakingError::NoRewardsToClaim.message(), "No rewards to claim");
    assert_eq!(
        StakingError::InvalidRewardRate.message(),
        "Reward rate must be a whole number of tokens per second (multiple of 1_000_000)"
    );
    assert_eq!(
        StakingError::FreezePeriodNotElapsed.message(),
        "Freeze period has not elapsed since stake"
    );
}
