//! What the outcome manager stores.
//!
//! [`ManagerEnv`] is what one invocation sees of the ledger: the stored entries, who authorized
//! the invocation, and the list of what the host is to do, in order.

use vstd::prelude::*;
use crate::address::Address;
use crate::bytes32::Bytes32;
use crate::host::OracleSet;
use crate::outcome_manager::types::{ManagerEvent, Outcome};
use crate::table::Table;

verus! {

/// The name of an entry that is stored with the contract instance.
#[derive(Clone, Copy, Debug, PartialEq, Eq, Structural)]
pub enum InstanceKey {
    /// The administrator.
    Admin,
    /// The trusted oracles.
    Oracles,
    /// How many matching votes decide a call.
    Quorum,
    /// Who receives the fees.
    FeeCollector,
    /// The fee in basis points.
    FeeBps,
    /// The outcome of a call.
    FinalOutcome(u64),
    /// That a staker was paid for a call.
    Claimed(u64, Address),
}

/// The name of an entry that is stored for a while.
#[derive(Clone, Copy, Debug, PartialEq, Eq, Structural)]
pub enum TempKey {
    /// What an oracle voted for on a call.
    Submission(Bytes32, u64),
    /// How many oracles voted for a report on a call.
    VoteCount(Bytes32, u64),
}

/// Something that the host is to do.
#[derive(Clone, Copy, Debug, PartialEq, Eq, Structural)]
pub enum ManagerEffect {
    /// Store the entry of this name as it now stands.
    Save(InstanceKey),
    /// Store the entry of this name as it now stands, for a while.
    SaveTemporary(TempKey),
    /// Have the registry resolve a call.
    ResolveCall { registry: Address, call_id: u64, outcome: u32, end_price: i128 },
    /// Have the registry pay out tokens that are staked on a call.
    ReleaseEscrow { registry: Address, call_id: u64, to: Address, amount: i128 },
    /// Have the registry mark a call as settled.
    MarkSettled { registry: Address, call_id: u64 },
    /// Publish an event.
    Publish(ManagerEvent),
}

/// What one invocation of the outcome manager works on.
pub struct ManagerEnv {
    /// The contract host.
    pub host: soroban_sdk::Env,
    /// Who authorized the invocation.
    pub authorized: Vec<Address>,
    /// The stored administrator.
    pub admin: Option<Address>,
    /// The stored set of trusted oracles.
    pub oracles: Option<OracleSet>,
    /// The stored quorum.
    pub quorum: Option<u32>,
    /// The stored receiver of the fees.
    pub fee_collector: Option<Address>,
    /// The stored fee in basis points.
    pub fee_bps: Option<u32>,
    /// The stored outcomes by call.
    pub final_outcomes: Table<u64, Outcome>,
    /// Which stakers were paid for which calls.
    pub claimed: Table<(u64, Address), bool>,
    /// By oracle and call, the digest of the report that the oracle voted for.
    pub submissions: Table<(Bytes32, u64), Bytes32>,
    /// By digest and call, how many oracles voted for the report.
    pub votes: Table<(Bytes32, u64), u32>,
    /// What the host is to do, in order.
    pub effects: Vec<ManagerEffect>,
}

/// The value of a [`ManagerEnv`].
#[verifier::ext_equal]
pub struct ManagerState {
    pub authorized: Seq<Address>,
    pub admin: Option<Address>,
    pub oracles: Option<Map<(u128, u128), bool>>,
    pub quorum: Option<u32>,
    pub fee_collector: Option<Address>,
    pub fee_bps: Option<u32>,
    pub final_outcomes: Map<u64, Outcome>,
    pub claimed: Map<(u64, Address), bool>,
    pub submissions: Map<(Bytes32, u64), Bytes32>,
    pub votes: Map<(Bytes32, u64), u32>,
    pub effects: Seq<ManagerEffect>,
}

impl View for ManagerEnv {
    type V = ManagerState;

    open spec fn view(&self) -> ManagerState {
        ManagerState {
            authorized: self.authorized@,
            admin: self.admin,
            oracles: match self.oracles {
                Some(oracles) => Some(oracles@),
                None => None,
            },
            quorum: self.quorum,
            fee_collector: self.fee_collector,
            fee_bps: self.fee_bps,
            final_outcomes: self.final_outcomes@,
            claimed: self.claimed@,
            submissions: self.submissions@,
            votes: self.votes@,
            effects: self.effects@,
        }
    }
}

impl ManagerState {
    /// The host is asked to do one more thing.
    pub open spec fn after(self, effect: ManagerEffect) -> ManagerState {
        ManagerState { effects: self.effects.push(effect), ..self }
    }

    /// How many oracles voted for a report on a call.
    pub open spec fn vote_count(self, outcome_hash: Bytes32, call_id: u64) -> u32 {
        if self.votes.contains_key((outcome_hash, call_id)) {
            self.votes[(outcome_hash, call_id)]
        } else {
            0
        }
    }

    /// The fee in basis points; none if it is not set.
    pub open spec fn fee(self) -> u32 {
        match self.fee_bps {
            Some(fee_bps) => fee_bps,
            None => 0,
        }
    }
}

impl ManagerEnv {
    /// An empty ledger of the given contract host, with no authorization.
    pub fn new(host: soroban_sdk::Env) -> (r: ManagerEnv)
        ensures
            r.host == host,
            r@ == (ManagerState {
                authorized: Seq::empty(),
                admin: None,
                oracles: None,
                quorum: None,
                fee_collector: None,
                fee_bps: None,
                final_outcomes: Map::empty(),
                claimed: Map::empty(),
                submissions: Map::empty(),
                votes: Map::empty(),
                effects: Seq::empty(),
            }),
    {
        ManagerEnv {
            host,
            authorized: Vec::new(),
            admin: None,
            oracles: None,
            quorum: None,
            fee_collector: None,
            fee_bps: None,
            final_outcomes: Table::new(),
            claimed: Table::new(),
            submissions: Table::new(),
            votes: Table::new(),
            effects: Vec::new(),
        }
    }

    /// Whether `who` authorized the invocation.
    pub fn has_auth(&self, who: &Address) -> (r: bool)
        ensures
            r == self@.authorized.contains(*who),
    {
        let mut i: usize = 0;
        while i < self.authorized.len()
            invariant
                i <= self.authorized.len(),
                forall|j: int| 0 <= j < i ==> self.authorized@[j] != *who,
            decreases self.authorized.len() - i,
        {
            if self.authorized[i] == *who {
                return true;
            }
            i += 1;
        }
        false
    }

    /// Asks the host to do one more thing.
    pub fn record(&mut self, effect: ManagerEffect)
        ensures
            final(self)@ == old(self)@.after(effect),
    {
        self.effects.push(effect);
    }
}

} // verus!
