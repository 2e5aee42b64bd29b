//! What the registry stores, and how each access keeps it alive.
//!
//! [`RegistryEnv`] is what one invocation sees of the ledger: the stored entries, the time, who
//! authorized the invocation, and the list of what the host is to do, in order.

use vstd::prelude::*;
use crate::address::Address;
use crate::call_registry::events::RegistryEvent;
use crate::call_registry::types::{Call, CallState, ContractConfig};
use crate::host::CallIds;
use crate::table::Table;

verus! {

/// A call or a staker's index is kept alive when it has fewer ledgers than this to live.
pub const PERSISTENT_LIFETIME_THRESHOLD: u32 = 1_036_800;

/// How many ledgers a call or a staker's index is then given: about 120 days of five seconds
/// each.
pub const PERSISTENT_BUMP_AMOUNT: u32 = 2_073_600;

/// The contract instance is kept alive when it has fewer ledgers than this to live.
pub const INSTANCE_LIFETIME_THRESHOLD: u32 = 60_480;

/// How many ledgers the contract instance is then given: about seven days.
pub const INSTANCE_BUMP_AMOUNT: u32 = 120_960;

/// The name of a stored entry.
#[derive(Clone, Copy, Debug, PartialEq, Eq, Structural)]
pub enum DataKey {
    /// The configuration, with the contract instance.
    Config,
    /// The number of calls made so far, with the contract instance.
    CallCounter,
    /// A call.
    Call(u64),
    /// The calls that an address has staked on.
    StakerCalls(Address),
}

/// Something that the host is to do. `B` is how byte strings are held.
pub enum RegistryEffect<B> {
    /// Store the entry of this name as it now stands.
    Save(DataKey),
    /// Have the stored entry of this name live for `extend_to` ledgers from now on, if it has
    /// fewer than `threshold` left.
    ExtendTtl { key: DataKey, threshold: u32, extend_to: u32 },
    /// The same for the contract instance.
    ExtendInstanceTtl { threshold: u32, extend_to: u32 },
    /// Move tokens from an address to the contract.
    TransferIn { token: Address, from: Address, amount: i128 },
    /// Move tokens from the contract to an address.
    TransferOut { token: Address, to: Address, amount: i128 },
    /// Publish an event.
    Publish(RegistryEvent<B>),
}

impl View for RegistryEffect<Vec<u8>> {
    type V = RegistryEffect<Seq<u8>>;

    open spec fn view(&self) -> RegistryEffect<Seq<u8>> {
        match *self {
            RegistryEffect::Save(key) => RegistryEffect::Save(key),
            RegistryEffect::ExtendTtl { key, threshold, extend_to } => RegistryEffect::ExtendTtl {
                key,
                threshold,
                extend_to,
            },
            RegistryEffect::ExtendInstanceTtl { threshold, extend_to } =>
                RegistryEffect::ExtendInstanceTtl { threshold, extend_to },
            RegistryEffect::TransferIn { token, from, amount } => RegistryEffect::TransferIn {
                token,
                from,
                amount,
            },
            RegistryEffect::TransferOut { token, to, amount } => RegistryEffect::TransferOut {
                token,
                to,
                amount,
            },
            RegistryEffect::Publish(event) => RegistryEffect::Publish(event@),
        }
    }
}

/// What one invocation of the registry works on.
pub struct RegistryEnv {
    /// The contract host.
    pub host: soroban_sdk::Env,
    /// The time of the ledger.
    pub timestamp: u64,
    /// Who authorized the invocation.
    pub authorized: Vec<Address>,
    /// The stored configuration.
    pub config: Option<ContractConfig>,
    /// The stored number of calls.
    pub call_counter: Option<u64>,
    /// The stored calls by number.
    pub calls: Table<u64, Call>,
    /// For each staker the calls staked on, in the order of the first stake.
    pub staker_calls: Table<Address, CallIds>,
    /// What the host is to do, in order.
    pub effects: Vec<RegistryEffect<Vec<u8>>>,
}

/// The value of a [`RegistryEnv`].
#[verifier::ext_equal]
pub struct RegistryState {
    pub timestamp: u64,
    pub authorized: Seq<Address>,
    pub config: Option<ContractConfig>,
    pub call_counter: Option<u64>,
    pub calls: Map<u64, CallState>,
    pub staker_calls: Map<Address, Seq<u64>>,
    pub effects: Seq<RegistryEffect<Seq<u8>>>,
}

impl View for RegistryEnv {
    type V = RegistryState;

    open spec fn view(&self) -> RegistryState {
        RegistryState {
            timestamp: self.timestamp,
            authorized: self.authorized@,
            config: self.config,
            call_counter: self.call_counter,
            calls: self.calls@.map_values(|call: Call| call@),
            staker_calls: self.staker_calls@.map_values(|ids: CallIds| ids@),
            effects: self.effects@.map_values(|effect: RegistryEffect<Vec<u8>>| effect@),
        }
    }
}

impl RegistryState {
    /// The number of calls made so far.
    pub open spec fn count(self) -> u64 {
        match self.call_counter {
            Some(count) => count,
            None => 0,
        }
    }

    /// The calls that `staker` has staked on.
    pub open spec fn staked_on(self, staker: Address) -> Seq<u64> {
        if self.staker_calls.contains_key(staker) {
            self.staker_calls[staker]
        } else {
            Seq::empty()
        }
    }

    /// Whether another call can be added to the index of `staker`.
    pub open spec fn index_has_room(self, staker: Address, call_id: u64) -> bool {
        self.staked_on(staker).contains(call_id) || self.staked_on(staker).len() < u32::MAX
    }

    /// The host is asked to do one more thing.
    pub open spec fn after(self, effect: RegistryEffect<Seq<u8>>) -> RegistryState {
        RegistryState { effects: self.effects.push(effect), ..self }
    }

    /// The entry of a name is kept alive.
    pub open spec fn after_touch(self, key: DataKey) -> RegistryState {
        self.after(
            RegistryEffect::ExtendTtl {
                key,
                threshold: PERSISTENT_LIFETIME_THRESHOLD,
                extend_to: PERSISTENT_BUMP_AMOUNT,
            },
        )
    }

    /// The contract instance is kept alive.
    pub open spec fn after_extend_storage_ttl(self) -> RegistryState {
        self.after(
            RegistryEffect::ExtendInstanceTtl {
                threshold: INSTANCE_LIFETIME_THRESHOLD,
                extend_to: INSTANCE_BUMP_AMOUNT,
            },
        )
    }

    /// A configuration is stored.
    pub open spec fn after_set_config(self, config: ContractConfig) -> RegistryState {
        RegistryState { config: Some(config), ..self }.after(RegistryEffect::Save(DataKey::Config))
    }

    /// A call number is taken.
    pub open spec fn after_next_call_id(self) -> RegistryState {
        RegistryState { call_counter: Some((self.count() + 1) as u64), ..self }.after(
            RegistryEffect::Save(DataKey::CallCounter),
        )
    }

    /// A call is stored, and kept alive.
    pub open spec fn after_set_call(self, call: CallState) -> RegistryState {
        RegistryState { calls: self.calls.insert(call.id, call), ..self }.after(
            RegistryEffect::Save(DataKey::Call(call.id)),
        ).after_touch(DataKey::Call(call.id))
    }

    /// A call is read, and kept alive if it is there.
    pub open spec fn after_get_call(self, call_id: u64) -> RegistryState {
        if self.calls.contains_key(call_id) {
            self.after_touch(DataKey::Call(call_id))
        } else {
            self
        }
    }

    /// A call is added to the index of a staker, unless it is there, and the index is kept alive.
    pub open spec fn after_add_staker_call(self, staker: Address, call_id: u64) -> RegistryState {
        let added = if self.staked_on(staker).contains(call_id) {
            self
        } else {
            RegistryState {
                staker_calls: self.staker_calls.insert(
                    staker,
                    self.staked_on(staker).push(call_id),
                ),
                ..self
            }.after(RegistryEffect::Save(DataKey::StakerCalls(staker)))
        };
        added.after_touch(DataKey::StakerCalls(staker))
    }

    /// The index of a staker is read, and kept alive if there is anything in it.
    pub open spec fn after_get_staker_calls(self, staker: Address) -> RegistryState {
        if self.staked_on(staker).len() > 0 {
            self.after_touch(DataKey::StakerCalls(staker))
        } else {
            self
        }
    }
}

impl RegistryEnv {
    /// An empty ledger of the given contract host at a given time, with no authorization.
    pub fn new(host: soroban_sdk::Env, timestamp: u64) -> (r: RegistryEnv)
        ensures
            r.host == host,
            r@ == (RegistryState {
                timestamp,
                authorized: Seq::empty(),
                config: None,
                call_counter: None,
                calls: Map::empty(),
                staker_calls: Map::empty(),
                effects: Seq::empty(),
            }),
    {
        let r = RegistryEnv {
            host,
            timestamp,
            authorized: Vec::new(),
            config: None,
            call_counter: None,
            calls: Table::new(),
            staker_calls: Table::new(),
            effects: Vec::new(),
        };
        assert(r@.calls =~= Map::empty());
        assert(r@.staker_calls =~= Map::empty());
        assert(r@.effects =~= Seq::empty());
        r
    }

    /// Whether `who` authorized the invocation.
    pub fn has_auth(&self, who: &Address) -> (r: bool)
        ensures
            r == self@.authorized.contains(*who),
    {
        let mut i: usize = 0;
        while i < self.authorized.len()
            invariant
                i <= self.authorized.len(),
                forall|j: int| 0 <= j < i ==> self.authorized@[j] != *who,
            decreases self.authorized.len() - i,
        {
            if self.authorized[i] == *who {
                return true;
            }
            i += 1;
        }
        false
    }

    /// Asks the host to do one more thing.
    pub fn record(&mut self, effect: RegistryEffect<Vec<u8>>)
        ensures
            final(self)@ == old(self)@.after(effect@),
    {
        self.effects.push(effect);
        assert(self@.effects =~= old(self)@.effects.push(effect@));
    }

    /// Has the entry of a name kept alive.
    fn touch(&mut self, key: DataKey)
        ensures
            final(self)@ == old(self)@.after_touch(key),
    {
        self.record(
            RegistryEffect::ExtendTtl {
                key,
                threshold: PERSISTENT_LIFETIME_THRESHOLD,
                extend_to: PERSISTENT_BUMP_AMOUNT,
            },
        );
    }

    /// The stored call of a number, without keeping it alive.
    pub(crate) fn peek_call(&self, call_id: u64) -> (r: Option<&Call>)
        ensures
            r is Some <==> self@.calls.contains_key(call_id),
            r matches Some(call) ==> call@ == self@.calls[call_id],
    {
        self.calls.get(&call_id)
    }

    /// The stored index of a staker, without keeping it alive.
    pub(crate) fn peek_staker_calls(&self, staker: &Address) -> (r: Option<&CallIds>)
        ensures
            r is Some <==> self@.staker_calls.contains_key(*staker),
            r matches Some(ids) ==> ids@ == self@.staker_calls[*staker],
    {
        self.staker_calls.get(staker)
    }
}

/// Stores the configuration.
pub fn set_config(env: &mut RegistryEnv, config: &ContractConfig)
    ensures
        final(env)@ == old(env)@.after_set_config(*config),
{
    env.config = Some(*config);
    env.record(RegistryEffect::Save(DataKey::Config));
}

/// Retrieves the configuration.
pub fn get_config(env: &RegistryEnv) -> (r: Option<ContractConfig>)
    ensures
        r == env@.config,
{
    env.config
}

/// Takes the next call number and counts it.
pub fn next_call_id(env: &mut RegistryEnv) -> (r: u64)
    requires
        old(env)@.count() < u64::MAX,
    ensures
        r == old(env)@.count() + 1,
        final(env)@ == old(env)@.after_next_call_id(),
{
    let next_id: u64 = get_call_counter(env) + 1;
    env.call_counter = Some(next_id);
    env.record(RegistryEffect::Save(DataKey::CallCounter));
    next_id
}

/// Stores a call under its number.
pub fn set_call(env: &mut RegistryEnv, call: &Call)
    ensures
        final(env)@ == old(env)@.after_set_call(call@),
{
    let key = DataKey::Call(call.id);
    let stored = call.clone();
    env.calls.insert(call.id, stored);
    assert(env@.calls =~= old(env)@.calls.insert(call.id, call@));
    env.record(RegistryEffect::Save(key));
    env.touch(key);
}

/// Retrieves a call by its number.
pub fn get_call(env: &mut RegistryEnv, call_id: u64) -> (r: Option<Call>)
    ensures
        r is Some <==> old(env)@.calls.contains_key(call_id),
        r matches Some(call) ==> call@ == old(env)@.calls[call_id],
        final(env)@ == old(env)@.after_get_call(call_id),
{
    let found = match env.peek_call(call_id) {
        Some(call) => Some(call.clone()),
        None => None,
    };
    if found.is_some() {
        env.touch(DataKey::Call(call_id));
    }
    found
}

/// Checks whether there is a call of a number.
pub fn call_exists(env: &RegistryEnv, call_id: u64) -> (r: bool)
    ensures
        r == env@.calls.contains_key(call_id),
{
    env.peek_call(call_id).is_some()
}

/// Notes that a staker has staked on a call. A call is listed once, however often the staker
/// stakes on it.
pub fn add_staker_call(env: &mut RegistryEnv, staker: &Address, call_id: u64)
    requires
        old(env)@.index_has_room(*staker, call_id),
    ensures
        final(env)@ == old(env)@.after_add_staker_call(*staker, call_id),
{
    let key = DataKey::StakerCalls(*staker);
    let mut call_ids = match env.peek_staker_calls(staker) {
        Some(ids) => ids.clone(),
        None => CallIds::new(&env.host),
    };
    assert(call_ids@ == env@.staked_on(*staker));
    if !call_ids.contains(call_id) {
        call_ids.push_back(call_id);
        env.staker_calls.insert(*staker, call_ids);
        assert(env@.staker_calls =~= old(env)@.staker_calls.insert(*staker, call_ids@));
        env.record(RegistryEffect::Save(key));
    }
    env.touch(key);
}

/// Retrieves the numbers of the calls that a staker has staked on.
pub fn get_staker_calls(env: &mut RegistryEnv, staker: &Address) -> (r: CallIds)
    ensures
        r@ == old(env)@.staked_on(*staker),
        final(env)@ == old(env)@.after_get_staker_calls(*staker),
{
    let call_ids = match env.peek_staker_calls(staker) {
        Some(ids) => ids.clone(),
        None => CallIds::new(&env.host),
    };
    if call_ids.len() > 0 {
        env.touch(DataKey::StakerCalls(*staker));
    }
    call_ids
}

/// The number of calls made so far.
pub fn get_call_counter(env: &RegistryEnv) -> (r: u64)
    ensures
        r == env@.count(),
{
    match env.call_counter {
        Some(count) => count,
        None => 0,
    }
}

/// Keeps the contract instance alive.
pub fn extend_storage_ttl(env: &mut RegistryEnv)
    ensures
        final(env)@ == old(env)@.after_extend_storage_ttl(),
{
    env.record(
        RegistryEffect::ExtendInstanceTtl {
            threshold: INSTANCE_LIFETIME_THRESHOLD,
            extend_to: INSTANCE_BUMP_AMOUNT,
        },
    );
}

} // verus!
