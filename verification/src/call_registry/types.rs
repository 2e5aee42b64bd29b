//! What the registry keeps and reports.

use vstd::prelude::*;
use crate::address::Address;
use crate::host::StakeMap;

verus! {

/// What the price has to do for a call to come true.
#[derive(Clone, Copy, Debug, PartialEq, Eq, Structural)]
pub enum ConditionType {
    /// The price ends above the target.
    TargetAbove(i128),
    /// The price ends below the target.
    TargetBelow(i128),
    /// The price rises by at least so many percent.
    PercentUp(u32),
    /// The price falls by at least so many percent.
    PercentDown(u32),
    /// The price ends between the two bounds, which are part of the range.
    Range(i128, i128),
}

/// The side of a call that a stake is on.
#[derive(Clone, Copy, Debug, PartialEq, Eq, Structural)]
pub enum StakePosition {
    /// The call comes true.
    Up,
    /// It does not.
    Down,
}

impl StakePosition {
    /// The position that a number stands for: 1 is up, 2 is down, and no other number is one.
    pub open spec fn of(value: u32) -> Option<StakePosition> {
        if value == 1 {
            Some(StakePosition::Up)
        } else if value == 2 {
            Some(StakePosition::Down)
        } else {
            None
        }
    }

    /// Reads a position from its number.
    pub fn from_u32(value: u32) -> (r: Option<StakePosition>)
        ensures
            r == StakePosition::of(value),
    {
        match value {
            1 => Some(StakePosition::Up),
            2 => Some(StakePosition::Down),
            _ => None,
        }
    }
}

/// Who runs the registry, and on what terms.
#[derive(Clone, Copy, Debug, PartialEq, Eq, Structural)]
pub struct ContractConfig {
    /// Who may change this configuration.
    pub admin: Address,
    /// Who may resolve calls and release what is staked on them.
    pub outcome_manager: Address,
    /// The protocol fee in basis points.
    pub fee_bps: u32,
}

/// A prediction that people stake on.
pub struct Call {
    /// Its number, counted from one.
    pub id: u64,
    /// Who made it.
    pub creator: Address,
    /// The token that stakes are paid in.
    pub stake_token: Address,
    /// The stake that the creator announced.
    pub stake_amount: i128,
    /// When staking ends and the call may be resolved.
    pub end_ts: u64,
    /// The token that the call is about.
    pub token_address: Address,
    /// The trading pair that the call is about.
    pub pair_id: Vec<u8>,
    /// Where the call's text is kept.
    pub ipfs_cid: Vec<u8>,
    /// The sum of the up stakes.
    pub total_up_stake: i128,
    /// The sum of the down stakes.
    pub total_down_stake: i128,
    /// The up stake of each staker.
    pub up_stakes: StakeMap,
    /// The down stake of each staker.
    pub down_stakes: StakeMap,
    /// 0 until the call is resolved, then 1 for up or 2 for down.
    pub outcome: u32,
    /// The price that the call starts from.
    pub start_price: i128,
    /// The price that the call was resolved at.
    pub end_price: i128,
    /// What has to happen for the call to come true.
    pub condition: ConditionType,
    /// Whether all payouts are done.
    pub settled: bool,
    /// When the call was made.
    pub created_at: u64,
}

/// The value of a [`Call`].
#[verifier::ext_equal]
pub struct CallState {
    pub id: u64,
    pub creator: Address,
    pub stake_token: Address,
    pub stake_amount: i128,
    pub end_ts: u64,
    pub token_address: Address,
    pub pair_id: Seq<u8>,
    pub ipfs_cid: Seq<u8>,
    pub total_up_stake: i128,
    pub total_down_stake: i128,
    pub up_stakes: Map<(bool, u128, u128), i128>,
    pub down_stakes: Map<(bool, u128, u128), i128>,
    pub outcome: u32,
    pub start_price: i128,
    pub end_price: i128,
    pub condition: ConditionType,
    pub settled: bool,
    pub created_at: u64,
}

impl View for Call {
    type V = CallState;

    open spec fn view(&self) -> CallState {
        CallState {
            id: self.id,
            creator: self.creator,
            stake_token: self.stake_token,
            stake_amount: self.stake_amount,
            end_ts: self.end_ts,
            token_address: self.token_address,
            pair_id: self.pair_id@,
            ipfs_cid: self.ipfs_cid@,
            total_up_stake: self.total_up_stake,
            total_down_stake: self.total_down_stake,
            up_stakes: self.up_stakes@,
            down_stakes: self.down_stakes@,
            outcome: self.outcome,
            start_price: self.start_price,
            end_price: self.end_price,
            condition: self.condition,
            settled: self.settled,
            created_at: self.created_at,
        }
    }
}

impl Clone for Call {
    fn clone(&self) -> (r: Self)
        ensures
            r@ == self@,
    {
        Call {
            id: self.id,
            creator: self.creator,
            stake_token: self.stake_token,
            stake_amount: self.stake_amount,
            end_ts: self.end_ts,
            token_address: self.token_address,
            pair_id: copy_bytes(&self.pair_id),
            ipfs_cid: copy_bytes(&self.ipfs_cid),
            total_up_stake: self.total_up_stake,
            total_down_stake: self.total_down_stake,
            up_stakes: self.up_stakes.clone(),
            down_stakes: self.down_stakes.clone(),
            outcome: self.outcome,
            start_price: self.start_price,
            end_price: self.end_price,
            condition: self.condition,
            settled: self.settled,
            created_at: self.created_at,
        }
    }
}

/// A copy of a byte string.
pub(crate) fn copy_bytes(bytes: &Vec<u8>) -> (r: Vec<u8>)
    ensures
        r@ == bytes@,
{
    let r = bytes.clone();
    assert(r@ =~= bytes@);
    r
}

/// How much is staked on a call, and by how many.
#[derive(Clone, Copy, Debug, PartialEq, Eq, Structural)]
pub struct CallStats {
    /// The sum of the up stakes.
    pub total_up_stake: i128,
    /// The sum of the down stakes.
    pub total_down_stake: i128,
    /// The number of stakers on either side, where one on both sides counts twice.
    pub total_stakes: u32,
    /// The number of up stakers.
    pub up_stake_count: u32,
    /// The number of down stakers.
    pub down_stake_count: u32,
}

/// Why the registry refuses a request. A refused request changes nothing.
#[derive(Clone, Copy, Debug, PartialEq, Eq, Structural)]
pub enum RegistryError {
    /// The address that has to authorize the request did not.
    Unauthorized,
    /// The registry has a configuration already.
    AlreadyInitialized,
    /// The registry has no configuration yet.
    ContractNotInitialized,
    /// The registry has no configuration yet, and so no outcome manager to act for.
    NotInitialized,
    /// A stake of nothing, or of less.
    StakeNotPositive,
    /// The call would end in the past.
    EndNotInFuture,
    /// There is no call of that number.
    CallDoesNotExist,
    /// There is no call of that number to pay from or to settle.
    CallNotFound,
    /// Staking on the call is over.
    CallEnded,
    /// The call is settled.
    CallSettled,
    /// A stake on neither side.
    InvalidPosition,
    /// A question about neither side.
    UnknownPosition,
    /// An outcome other than up or down.
    InvalidOutcome,
    /// Staking on the call is not over yet.
    CallNotEnded,
    /// The call is settled already.
    AlreadySettled,
    /// A fee of more than everything.
    FeeTooHigh,
    /// A sum or a count does not fit its type.
    Overflow,
    /// A host collection cannot take another entry.
    TooManyEntries,
}

impl RegistryError {
    /// The text that goes with the error.
    pub open spec fn text(self) -> Seq<char> {
        match self {
            RegistryError::Unauthorized => "Unauthorized"@,
            RegistryError::AlreadyInitialized => "Contract already initialized"@,
            RegistryError::ContractNotInitialized => "Contract not initialized"@,
            RegistryError::NotInitialized => "Not initialized"@,
            RegistryError::StakeNotPositive => "Stake amount must be positive"@,
            RegistryError::EndNotInFuture => "End timestamp must be in the future"@,
            RegistryError::CallDoesNotExist => "Call does not exist"@,
            RegistryError::CallNotFound => "Call not found"@,
            RegistryError::CallEnded => "Call has ended"@,
            RegistryError::CallSettled => "Call has been settled"@,
            RegistryError::InvalidPosition => "Invalid position: must be 1 (UP) or 2 (DOWN)"@,
            RegistryError::UnknownPosition => "Invalid position"@,
            RegistryError::InvalidOutcome => "Invalid outcome: must be 1 (UP) or 2 (DOWN)"@,
            RegistryError::CallNotEnded => "Call has not ended yet"@,
            RegistryError::AlreadySettled => "Already settled"@,
            RegistryError::FeeTooHigh => "Fee must not exceed 10000 basis points"@,
            RegistryError::Overflow => "Arithmetic overflow"@,
            RegistryError::TooManyEntries => "Too many entries"@,
        }
    }

    /// Says what went wrong.
    pub fn message(&self) -> (r: &'static str)
        ensures
            r@ == self.text(),
    {
        match self {
            RegistryError::Unauthorized => "Unauthorized",
            RegistryError::AlreadyInitialized => "Contract already initialized",
            RegistryError::ContractNotInitialized => "Contract not initialized",
            RegistryError::NotInitialized => "Not initialized",
            RegistryError::StakeNotPositive => "Stake amount must be positive",
            RegistryError::EndNotInFuture => "End timestamp must be in the future",
            RegistryError::CallDoesNotExist => "Call does not exist",
            RegistryError::CallNotFound => "Call not found",
            RegistryError::CallEnded => "Call has ended",
            RegistryError::CallSettled => "Call has been settled",
            RegistryError::InvalidPosition => "Invalid position: must be 1 (UP) or 2 (DOWN)",
            RegistryError::UnknownPosition => "Invalid position",
            RegistryError::InvalidOutcome => "Invalid outcome: must be 1 (UP) or 2 (DOWN)",
            RegistryError::CallNotEnded => "Call has not ended yet",
            RegistryError::AlreadySettled => "Already settled",
            RegistryError::FeeTooHigh => "Fee must not exceed 10000 basis points",
            RegistryError::Overflow => "Arithmetic overflow",
            RegistryError::TooManyEntries => "Too many entries",
        }
    }
}

} // verus!
