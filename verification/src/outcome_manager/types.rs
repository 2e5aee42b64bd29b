//! What the outcome manager keeps and reports.

use vstd::prelude::*;
use crate::address::Address;
use crate::bytes32::Bytes32;

verus! {

/// How a call came out.
#[derive(Clone, Copy, Debug, PartialEq, Eq, Structural)]
pub struct Outcome {
    /// The call.
    pub call_id: u64,
    /// 1 for up, 2 for down.
    pub outcome: u32,
    /// The price that decided it.
    pub price: i128,
    /// When the price was taken.
    pub timestamp: u64,
}

/// An oracle's report of how a call came out.
#[derive(Clone, Copy)]
pub struct SignedOutcome {
    /// The call.
    pub call_id: u64,
    /// 1 for up, 2 for down.
    pub outcome: u32,
    /// The price that decided it.
    pub price: i128,
    /// When the price was taken.
    pub timestamp: u64,
    /// The public key of the oracle.
    pub oracle_pubkey: Bytes32,
    /// The oracle's signature of the canonical message.
    pub signature: [u8; 64],
}

impl SignedOutcome {
    /// What is reported, without who reports it.
    pub open spec fn report(self) -> Outcome {
        Outcome {
            call_id: self.call_id,
            outcome: self.outcome,
            price: self.price,
            timestamp: self.timestamp,
        }
    }
}

/// What the outcome manager announces.
#[derive(Clone, Copy, Debug, PartialEq, Eq, Structural)]
pub enum ManagerEvent {
    /// An oracle has voted.
    OutcomeSubmitted { call_id: u64, oracle: Bytes32, outcome: u32 },
    /// A call has its outcome.
    OutcomeFinalized { call_id: u64, outcome: u32, price: i128 },
    /// A fee was paid.
    FeeCollected { call_id: u64, amount: i128, collector: Address },
    /// A winner was paid.
    PayoutClaimed { call_id: u64, staker: Address, amount: i128 },
}

/// Why the outcome manager refuses a request. A refused request changes nothing.
#[derive(Clone, Copy, Debug, PartialEq, Eq, Structural)]
pub enum ManagerError {
    /// The address that has to authorize the request did not.
    Unauthorized,
    /// The outcome manager is set up already.
    AlreadyInitialized,
    /// The outcome manager is not set up yet.
    NotInitialized,
    /// A quorum of nobody, or of more oracles than there are.
    InvalidQuorum,
    /// A fee of more than everything.
    InvalidFeeBps,
    /// The report is not from a trusted oracle.
    UnauthorizedOracle,
    /// The call has its outcome.
    AlreadySettled,
    /// The oracle has voted on the call.
    DuplicateSubmission,
    /// An outcome other than up or down.
    InvalidOutcome,
    /// The signature is not the oracle's.
    InvalidSignature,
    /// The call has no outcome yet.
    CallNotSettled,
    /// The call has no outcome yet, and cannot be closed.
    CallNotFinalized,
    /// The staker has had the payout.
    AlreadyClaimed,
    /// The staker has no stake on the winning side.
    NothingToClaim,
    /// There is no stake on the winning side.
    InvalidTotalWinningStake,
    /// Nobody is there to receive the fee.
    FeeCollectorNotSet,
    /// The fee does not fit its type.
    FeeOverflow,
    /// The staker's part of the fee does not fit its type.
    FeeShareOverflow,
    /// The staker's part of the prize does not fit its type.
    PrizeOverflow,
    /// The payout does not fit its type.
    PayoutOverflow,
    /// A count does not fit its type.
    Overflow,
    /// A host collection cannot take another entry.
    TooManyEntries,
}

impl ManagerError {
    /// The text that goes with the error.
    pub open spec fn text(self) -> Seq<char> {
        match self {
            ManagerError::Unauthorized => "unauthorized"@,
            ManagerError::AlreadyInitialized => "already initialized"@,
            ManagerError::NotInitialized => "not initialized"@,
            ManagerError::InvalidQuorum => "invalid quorum"@,
            ManagerError::InvalidFeeBps => "invalid fee_bps"@,
            ManagerError::UnauthorizedOracle => "unauthorized oracle"@,
            ManagerError::AlreadySettled => "already settled"@,
            ManagerError::DuplicateSubmission => "duplicate submission"@,
            ManagerError::InvalidOutcome => "invalid outcome: must be 1 (UP) or 2 (DOWN)"@,
            ManagerError::InvalidSignature => "invalid signature"@,
            ManagerError::CallNotSettled => "call not settled"@,
            ManagerError::CallNotFinalized => "call not finalized"@,
            ManagerError::AlreadyClaimed => "already claimed"@,
            ManagerError::NothingToClaim => "nothing to claim"@,
            ManagerError::InvalidTotalWinningStake => "invalid total winning stake"@,
            ManagerError::FeeCollectorNotSet => "fee collector not set"@,
            ManagerError::FeeOverflow => "overflow in fee calculation"@,
            ManagerError::FeeShareOverflow => "overflow in staker fee share"@,
            ManagerError::PrizeOverflow => "overflow in prize calculation"@,
            ManagerError::PayoutOverflow => "overflow in payout sum"@,
            ManagerError::Overflow => "arithmetic overflow"@,
            ManagerError::TooManyEntries => "too many entries"@,
        }
    }

    /// Says what went wrong.
    pub fn message(&self) -> (r: &'static str)
        ensures
            r@ == self.text(),
    {
        match self {
            ManagerError::Unauthorized => "unauthorized",
            ManagerError::AlreadyInitialized => "already initialized",
            ManagerError::NotInitialized => "not initialized",
            ManagerError::InvalidQuorum => "invalid quorum",
            ManagerError::InvalidFeeBps => "invalid fee_bps",
            ManagerError::UnauthorizedOracle => "unauthorized oracle",
            ManagerError::AlreadySettled => "already settled",
            ManagerError::DuplicateSubmission => "duplicate submission",
            ManagerError::InvalidOutcome => "invalid outcome: must be 1 (UP) or 2 (DOWN)",
            ManagerError::InvalidSignature => "invalid signature",
            ManagerError::CallNotSettled => "call not settled",
            ManagerError::CallNotFinalized => "call not finalized",
            ManagerError::AlreadyClaimed => "already claimed",
            ManagerError::NothingToClaim => "nothing to claim",
            ManagerError::InvalidTotalWinningStake => "invalid total winning stake",
            ManagerError::FeeCollectorNotSet => "fee collector not set",
            ManagerError::FeeOverflow => "overflow in fee calculation",
            ManagerError::FeeShareOverflow => "overflow in staker fee share",
            ManagerError::PrizeOverflow => "overflow in prize calculation",
            ManagerError::PayoutOverflow => "overflow in payout sum",
            ManagerError::Overflow => "arithmetic overflow",
            ManagerError::TooManyEntries => "too many entries",
        }
    }
}

} // verus!
