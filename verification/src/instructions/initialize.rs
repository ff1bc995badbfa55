//! Setting up a collection's staking configuration.

use vstd::prelude::*;

use crate::errors::StakingError;
use crate::rewards::{is_whole_token_rate, require_whole_token_rate};
use crate::state::Config;

verus! {

/// The configuration of a collection that pays `reward_rate_per_sec` and keeps
/// staked assets frozen for `freeze_period` seconds. The rate must pay whole
/// tokens per second.
pub fn initialize(reward_rate_per_sec: u64, freeze_period: u16, rewards_bump: u8, config_bump: u8) -> (res: Result<
    Config,
    StakingError,
>)
    ensures
        match res {
            Ok(config) => {
                &&& is_whole_token_rate(reward_rate_per_sec)
                &&& config == Config { reward_rate_per_sec, freeze_period, rewards_bump, config_bump }
            },
            Err(e) => !is_whole_token_rate(reward_rate_per_sec) && e == StakingError::InvalidRewardRate,
        },
        res is Ok ==> res->Ok_0.well_formed(),
{
    require_whole_token_rate(reward_rate_per_sec)?;
    Ok(Config { reward_rate_per_sec, freeze_period, rewards_bump, config_bump })
}

} // verus!
