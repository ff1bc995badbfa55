use vstd::prelude::*;

verus! {

/// Everything a staking instruction can fail with.
#[derive(Debug, Clone, Copy, PartialEq, Eq, Structural)]
pub enum StakingError {
    IncorrectMplProgram,
    AlreadyStaked,
    StakingNotInitialized,
    NotStaked,
    AttributesPluginNotFound,
    InvalidUpdateAuthority,
    InvalidTimestamp,
    Underflow,
    Overflow,
    NoRewardsToClaim,
    InvalidRewardRate,
    FreezePeriodNotElapsed,
}

/// The human-readable message attached to each error.
pub open spec fn error_message(e: StakingError) -> Seq<char> {
    match e {
        StakingError::IncorrectMplProgram => "Incorrect MPL program"@,
        StakingError::AlreadyStaked => "Already staked"@,
        StakingError::StakingNotInitialized => "Staking not initialized"@,
        StakingError::NotStaked => "Not staked"@,
        StakingError::AttributesPluginNotFound => "Attributes plugin not found"@,
        StakingError::InvalidUpdateAuthority => "Invalid update authority"@,
        StakingError::InvalidTimestamp => "Invalid timestamp"@,
        StakingError::Underflow => "Underflow"@,
        StakingError::Overflow => "Overflow"@,
        StakingError::NoRewardsToClaim => "No rewards to claim"@,
        StakingError::InvalidRewardRate =>
            "Reward rate must be a whole number of tokens per second (multiple of 1_000_000)"@,
        StakingError::FreezePeriodNotElapsed => "Freeze period has not elapsed since stake"@,
    }
}

impl StakingError {
    /// The message that accompanies this error when it is reported.
    pub fn message(&self) -> (msg: &'static str)
        ensures
            msg@ == error_message(*self),
    {
        match self {
            StakingError::IncorrectMplProgram => "Incorrect MPL program",
            StakingError::AlreadyStaked => "Already staked",
            StakingError::StakingNotInitialized => "Staking not initialized",
            StakingError::NotStaked => "Not staked",
            StakingError::AttributesPluginNotFound => "Attributes plugin not found",
            StakingError::InvalidUpdateAuthority => "Invalid update authority",
            StakingError::InvalidTimestamp => "Invalid timestamp",
            StakingError::Underflow => "Underflow",
            StakingError::Overflow => "Overflow",
            StakingError::NoRewardsToClaim => "No rewards to claim",
            StakingError::InvalidRewardRate =>
                "Reward rate must be a whole number of tokens per second (multiple of 1_000_000)",
            StakingError::FreezePeriodNotElapsed => "Freeze period has not elapsed since stake",
        }
    }
}

} // verus!
