//! A verified prediction market: a registry of calls that people stake on, and an outcome
//! manager that settles those calls by oracle votes and works out the payouts.

pub mod address;
pub mod arith;
pub mod bytes32;
pub mod call_registry;
pub mod host;
pub mod outcome_manager;
pub mod settlement;
pub mod sums;
pub mod table;
