//! The outcome manager.

pub mod behaviour;
pub mod contract;
pub mod laws;
pub mod payout;
pub mod storage;
pub mod types;
pub mod verification;
