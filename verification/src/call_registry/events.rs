//! What the registry announces.

use vstd::prelude::*;
use crate::address::Address;

verus! {

/// A change of the configuration.
#[derive(Clone, Copy, Debug, PartialEq, Eq, Structural)]
pub enum AdminChange {
    /// Another administrator.
    Admin { old_admin: Address, new_admin: Address },
    /// Another outcome manager.
    OutcomeManager { old_manager: Address, new_manager: Address },
    /// Another fee.
    FeeBps { old_fee_bps: u32, new_fee_bps: u32 },
}

/// An announcement. `B` is how byte strings are held.
pub enum RegistryEvent<B> {
    /// The registry has its configuration.
    Initialized { admin: Address, outcome_manager: Address },
    /// There is a new call.
    CallCreated {
        call_id: u64,
        creator: Address,
        stake_token: Address,
        stake_amount: i128,
        end_ts: u64,
        token_address: Address,
        pair_id: B,
        ipfs_cid: B,
    },
    /// Someone staked on a call.
    StakeAdded { call_id: u64, staker: Address, amount: i128, position: u32 },
    /// A call has an outcome.
    CallResolved { call_id: u64, outcome: u32, end_price: i128 },
    /// The configuration changed.
    AdminParamsChanged(AdminChange),
}

impl View for RegistryEvent<Vec<u8>> {
    type V = RegistryEvent<Seq<u8>>;

    open spec fn view(&self) -> RegistryEvent<Seq<u8>> {
        match *self {
            RegistryEvent::Initialized { admin, outcome_manager } => RegistryEvent::Initialized {
                admin,
                outcome_manager,
            },
            RegistryEvent::CallCreated {
                call_id,
                creator,
                stake_token,
                stake_amount,
                end_ts,
                token_address,
                pair_id,
                ipfs_cid,
            } => RegistryEvent::CallCreated {
                call_id,
                creator,
                stake_token,
                stake_amount,
                end_ts,
                token_address,
                pair_id: pair_id@,
                ipfs_cid: ipfs_cid@,
            },
            RegistryEvent::StakeAdded { call_id, staker, amount, position } =>
                RegistryEvent::StakeAdded { call_id, staker, amount, position },
            RegistryEvent::CallResolved { call_id, outcome, end_price } =>
                RegistryEvent::CallResolved { call_id, outcome, end_price },
            RegistryEvent::AdminParamsChanged(change) => RegistryEvent::AdminParamsChanged(change),
        }
    }
}

} // verus!
