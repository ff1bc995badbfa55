//! The staking instructions, each as a function from the state it reads to the
//! state it writes.

pub mod claim_rewards;
pub mod stake;
pub mod create_collection;
pub mod initialize;
