//! The registry of calls.

pub mod admin;
pub mod behaviour;
pub mod condition;
pub mod contract;
pub mod events;
pub mod laws;
pub mod listing;
pub mod storage;
pub mod types;
