//! Verified staking logic for a collection of NFTs: reward accrual, the freeze
//! period, and the attribute bookkeeping that records when an asset was staked
//! and when its rewards were last claimed.

pub mod errors;
pub mod rewards;
pub mod decimal;
pub mod state;
pub mod instructions;
pub mod laws;
