use vstd::prelude::*;

use crate::errors::StakingError;

verus! {

/// Smallest mint unit for the rewards token (6 decimals). A rate of `1_000_000`
/// pays one whole token per second.
pub const REWARD_TOKEN_UNIT: u64 = 1_000_000;

/// A reward rate pays a whole number of tokens per second.
pub open spec fn is_whole_token_rate(reward_rate_per_sec: u64) -> bool {
    reward_rate_per_sec % REWARD_TOKEN_UNIT == 0
}

/// The instant from which rewards are owed: the last claim, unless there was
/// none or it was recorded as zero, in which case the stake itself.
pub open spec fn claim_start(staked_at: i64, last_claimed_at: Option<i64>) -> i64 {
    match last_claimed_at {
        Some(t) => if t == 0 { staked_at } else { t },
        None => staked_at,
    }
}

/// What `resolve_claim_from` returns: the claim start, which may not precede the stake.
pub open spec fn resolve_claim_from_result(staked_at: i64, last_claimed_at: Option<i64>) -> Result<
    i64,
    StakingError,
> {
    let from = claim_start(staked_at, last_claimed_at);
    if from >= staked_at {
        Ok(from)
    } else {
        Err(StakingError::InvalidTimestamp)
    }
}

/// What `require_freeze_period_elapsed` returns: the asset unlocks `freeze_period`
/// seconds after it was staked.
pub open spec fn freeze_check(staked_at: i64, freeze_period: u16, now: i64) -> Result<
    (),
    StakingError,
> {
    if staked_at + freeze_period > i64::MAX {
        Err(StakingError::Overflow)
    } else if now >= staked_at + freeze_period {
        Ok(())
    } else {
        Err(StakingError::FreezePeriodNotElapsed)
    }
}

/// The reward for `elapsed` seconds at `reward_rate_per_sec`, if it fits in a `u64`.
pub open spec fn reward_for(elapsed: int, reward_rate_per_sec: u64) -> Result<u64, StakingError> {
    if elapsed * reward_rate_per_sec > u64::MAX {
        Err(StakingError::Overflow)
    } else {
        Ok((elapsed * reward_rate_per_sec) as u64)
    }
}

/// What `compute_reward_amount` returns: the reward accrued from `claim_from`
/// to `now`, where nothing accrued is an error.
pub open spec fn reward_amount(now: i64, claim_from: i64, reward_rate_per_sec: u64) -> Result<
    u64,
    StakingError,
> {
    if claim_from > now {
        Err(StakingError::InvalidTimestamp)
    } else if now - claim_from > i64::MAX {
        Err(StakingError::Underflow)
    } else if now - claim_from == 0 {
        Err(StakingError::NoRewardsToClaim)
    } else {
        reward_for(now - claim_from, reward_rate_per_sec)
    }
}

/// What `compute_reward_amount_if_any` returns: as `reward_amount`, but nothing
/// accrued is a reward of zero.
pub open spec fn reward_amount_if_any(now: i64, claim_from: i64, reward_rate_per_sec: u64) -> Result<
    u64,
    StakingError,
> {
    if claim_from > now {
        Err(StakingError::InvalidTimestamp)
    } else if now - claim_from > i64::MAX {
        Err(StakingError::Underflow)
    } else if now - claim_from == 0 {
        Ok(0)
    } else {
        reward_for(now - claim_from, reward_rate_per_sec)
    }
}

/// Accepts a reward rate only if it pays whole tokens per second.
pub fn require_whole_token_rate(reward_rate_per_sec: u64) -> (res: Result<(), StakingError>)
    ensures
        res == (if is_whole_token_rate(reward_rate_per_sec) {
            Ok(())
        } else {
            Err(StakingError::InvalidRewardRate)
        }),
{
    if reward_rate_per_sec.is_multiple_of(REWARD_TOKEN_UNIT) {
        Ok(())
    } else {
        Err(StakingError::InvalidRewardRate)
    }
}

/// The instant from which rewards are owed for an asset staked at `staked_at`.
pub fn resolve_claim_from(staked_at: i64, last_claimed_at: Option<i64>) -> (res: Result<
    i64,
    StakingError,
>)
    ensures
        res == resolve_claim_from_result(staked_at, last_claimed_at),
{
    let mut claim_from = match last_claimed_at {
        Some(t) => t,
        None => staked_at,
    };
    if claim_from == 0 {
        claim_from = staked_at;
    }
    if claim_from >= staked_at {
        Ok(claim_from)
    } else {
        Err(StakingError::InvalidTimestamp)
    }
}

/// Succeeds once `freeze_period` seconds have passed since `staked_at`.
pub fn require_freeze_period_elapsed(staked_at: i64, freeze_period: u16, now: i64) -> (res: Result<
    (),
    StakingError,
>)
    ensures
        res == freeze_check(staked_at, freeze_period, now),
{
    let unlock_at = match staked_at.checked_add(freeze_period as i64) {
        Some(t) => t,
        None => {
            return Err(StakingError::Overflow);
        },
    };
    if now >= unlock_at {
        Ok(())
    } else {
        Err(StakingError::FreezePeriodNotElapsed)
    }
}

/// The reward accrued from `claim_from` to `now`; an error when nothing accrued.
pub fn compute_reward_amount(now: i64, claim_from: i64, reward_rate_per_sec: u64) -> (res: Result<
    u64,
    StakingError,
>)
    ensures
        res == reward_amount(now, claim_from, reward_rate_per_sec),
{
    if claim_from > now {
        return Err(StakingError::InvalidTimestamp);
    }
    let elapsed = match now.checked_sub(claim_from) {
        Some(e) => e,
        None => {
            return Err(StakingError::Underflow);
        },
    };
    if elapsed <= 0 {
        return Err(StakingError::NoRewardsToClaim);
    }
    amount_from_elapsed(elapsed, reward_rate_per_sec)
}

/// Same as [`compute_reward_amount`] but returns `0` when nothing has accrued.
pub fn compute_reward_amount_if_any(now: i64, claim_from: i64, reward_rate_per_sec: u64) -> (res:
    Result<u64, StakingError>)
    ensures
        res == reward_amount_if_any(now, claim_from, reward_rate_per_sec),
{
    if claim_from > now {
        return Err(StakingError::InvalidTimestamp);
    }
    let elapsed = match now.checked_sub(claim_from) {
        Some(e) => e,
        None => {
            return Err(StakingError::Underflow);
        },
    };
    if elapsed <= 0 {
        return Ok(0);
    }
    amount_from_elapsed(elapsed, reward_rate_per_sec)
}

/// `elapsed` seconds at `reward_rate_per_sec`, computed without overflow.
fn amount_from_elapsed(elapsed: i64, reward_rate_per_sec: u64) -> (res: Result<u64, StakingError>)
    requires
        elapsed >= 0,
    ensures
        res == reward_for(elapsed as int, reward_rate_per_sec),
{
    let amount = match (elapsed as u128).checked_mul(reward_rate_per_sec as u128) {
        Some(a) => a,
        None => {
            return Err(StakingError::Overflow);
        },
    };
    if amount > u64::MAX as u128 {
        Err(StakingError::Overflow)
    } else {
        Ok(amount as u64)
    }
}

} // verus!
