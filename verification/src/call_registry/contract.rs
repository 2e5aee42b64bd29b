//! The requests that the registry answers.
//!
//! Each request that can be refused has a specification that names the error, if any, and
//! another that gives the state behind a request that is granted.

use vstd::prelude::*;
use crate::address::Address;
use crate::call_registry::admin;
use crate::call_registry::condition::{condition_computable, condition_met, evaluate_condition_impl};
use crate::call_registry::events::RegistryEvent;
use crate::call_registry::listing::{
    calls_of, listed_ids, page_size, search_calls, states, stored_ids, MAX_CALL_PAGE_SIZE,
};
use crate::call_registry::storage::{
    add_staker_call, call_exists, extend_storage_ttl, get_call, get_call_counter, get_config,
    get_staker_calls, next_call_id, set_call, set_config, DataKey, RegistryEffect, RegistryEnv,
    RegistryState, PERSISTENT_BUMP_AMOUNT, PERSISTENT_LIFETIME_THRESHOLD,
};
use crate::call_registry::types::{
    copy_bytes, Call, CallState, CallStats, ConditionType, ContractConfig, RegistryError,
    StakePosition,
};
use crate::host::StakeMap;

verus! {

/// What an address has staked; nothing if it has no entry.
pub open spec fn stake_in(stakes: Map<(bool, u128, u128), i128>, who: Address) -> i128 {
    if stakes.contains_key(who.key()) {
        stakes[who.key()]
    } else {
        0
    }
}

impl CallState {
    /// The stakes on one side.
    pub open spec fn stakes(self, position: StakePosition) -> Map<(bool, u128, u128), i128> {
        match position {
            StakePosition::Up => self.up_stakes,
            StakePosition::Down => self.down_stakes,
        }
    }

    /// The sum of the stakes on one side.
    pub open spec fn total(self, position: StakePosition) -> i128 {
        match position {
            StakePosition::Up => self.total_up_stake,
            StakePosition::Down => self.total_down_stake,
        }
    }

    /// Why a stake cannot be added to the call, if it cannot.
    pub open spec fn add_stake_error(
        self,
        staker: Address,
        amount: i128,
        position: StakePosition,
    ) -> Option<RegistryError> {
        let stakes = self.stakes(position);
        if stake_in(stakes, staker) + amount > i128::MAX {
            Some(RegistryError::Overflow)
        } else if !stakes.contains_key(staker.key()) && stakes.len() >= u32::MAX {
            Some(RegistryError::TooManyEntries)
        } else if self.total(position) + amount > i128::MAX {
            Some(RegistryError::Overflow)
        } else {
            None
        }
    }

    /// The call with a stake added to one side.
    pub open spec fn with_stake(
        self,
        staker: Address,
        amount: i128,
        position: StakePosition,
    ) -> CallState {
        let stakes = self.stakes(position).insert(
            staker.key(),
            (stake_in(self.stakes(position), staker) + amount) as i128,
        );
        let total = (self.total(position) + amount) as i128;
        match position {
            StakePosition::Up => CallState { up_stakes: stakes, total_up_stake: total, ..self },
            StakePosition::Down => CallState {
                down_stakes: stakes,
                total_down_stake: total,
                ..self
            },
        }
    }
}

impl RegistryState {
    /// Why the registry cannot be initialized, if it cannot.
    pub open spec fn initialize_error(self, admin: Address) -> Option<RegistryError> {
        if self.config is Some {
            Some(RegistryError::AlreadyInitialized)
        } else if !self.authorized.contains(admin) {
            Some(RegistryError::Unauthorized)
        } else {
            None
        }
    }

    /// The registry has its first configuration.
    pub open spec fn after_initialize(
        self,
        admin: Address,
        outcome_manager: Address,
    ) -> RegistryState {
        self.after_set_config(
            ContractConfig { admin, outcome_manager, fee_bps: 0 },
        ).after_extend_storage_ttl().after(
            RegistryEffect::Publish(RegistryEvent::Initialized { admin, outcome_manager }),
        )
    }

    /// Why a call cannot be created, if it cannot.
    pub open spec fn create_error(
        self,
        creator: Address,
        stake_amount: i128,
        end_ts: u64,
    ) -> Option<RegistryError> {
        if !self.authorized.contains(creator) {
            Some(RegistryError::Unauthorized)
        } else if stake_amount <= 0 {
            Some(RegistryError::StakeNotPositive)
        } else if end_ts <= self.timestamp {
            Some(RegistryError::EndNotInFuture)
        } else if self.count() == u64::MAX {
            Some(RegistryError::Overflow)
        } else {
            None
        }
    }

    /// The call that a request to create one makes: nobody has staked on it, and it has no
    /// outcome.
    pub open spec fn new_call(
        self,
        creator: Address,
        stake_token: Address,
        stake_amount: i128,
        end_ts: u64,
        token_address: Address,
        pair_id: Seq<u8>,
        ipfs_cid: Seq<u8>,
        condition: ConditionType,
    ) -> CallState {
        CallState {
            id: (self.count() + 1) as u64,
            creator,
            stake_token,
            stake_amount,
            end_ts,
            token_address,
            pair_id,
            ipfs_cid,
            total_up_stake: 0,
            total_down_stake: 0,
            up_stakes: Map::empty(),
            down_stakes: Map::empty(),
            outcome: 0,
            start_price: 0,
            end_price: 0,
            condition,
            settled: false,
            created_at: self.timestamp,
        }
    }

    /// A new call is stored and announced.
    pub open spec fn after_create_call(self, call: CallState) -> RegistryState {
        self.after_next_call_id().after_set_call(call).after_extend_storage_ttl().after(
            RegistryEffect::Publish(
                RegistryEvent::CallCreated {
                    call_id: call.id,
                    creator: call.creator,
                    stake_token: call.stake_token,
                    stake_amount: call.stake_amount,
                    end_ts: call.end_ts,
                    token_address: call.token_address,
                    pair_id: call.pair_id,
                    ipfs_cid: call.ipfs_cid,
                },
            ),
        )
    }

    /// Why a stake is refused, if it is.
    pub open spec fn stake_error(
        self,
        staker: Address,
        call_id: u64,
        amount: i128,
        position: u32,
    ) -> Option<RegistryError> {
        let call = self.calls[call_id];
        if !self.authorized.contains(staker) {
            Some(RegistryError::Unauthorized)
        } else if amount <= 0 {
            Some(RegistryError::StakeNotPositive)
        } else if !self.calls.contains_key(call_id) {
            Some(RegistryError::CallDoesNotExist)
        } else if self.timestamp >= call.end_ts {
            Some(RegistryError::CallEnded)
        } else if call.settled {
            Some(RegistryError::CallSettled)
        } else if StakePosition::of(position) is None {
            Some(RegistryError::InvalidPosition)
        } else if call.add_stake_error(staker, amount, StakePosition::of(position)->0) is Some {
            call.add_stake_error(staker, amount, StakePosition::of(position)->0)
        } else if !self.index_has_room(staker, call_id) {
            Some(RegistryError::TooManyEntries)
        } else {
            None
        }
    }

    /// A stake is taken in, added to the call, indexed and announced.
    pub open spec fn after_stake(
        self,
        staker: Address,
        call_id: u64,
        amount: i128,
        position: u32,
    ) -> RegistryState {
        let call = self.calls[call_id];
        self.after_get_call(call_id).after(
            RegistryEffect::TransferIn { token: call.stake_token, from: staker, amount },
        ).after_set_call(
            call.with_stake(staker, amount, StakePosition::of(position)->0),
        ).after_add_staker_call(staker, call_id).after_extend_storage_ttl().after(
            RegistryEffect::Publish(
                RegistryEvent::StakeAdded { call_id, staker, amount, position },
            ),
        )
    }

    /// Why an outcome is refused, if it is.
    pub open spec fn resolve_error(self, call_id: u64, outcome: u32) -> Option<RegistryError> {
        if self.config is None {
            Some(RegistryError::ContractNotInitialized)
        } else if !self.authorized.contains(self.config->0.outcome_manager) {
            Some(RegistryError::Unauthorized)
        } else if !self.calls.contains_key(call_id) {
            Some(RegistryError::CallDoesNotExist)
        } else if outcome != 1 && outcome != 2 {
            Some(RegistryError::InvalidOutcome)
        } else if self.timestamp < self.calls[call_id].end_ts {
            Some(RegistryError::CallNotEnded)
        } else {
            None
        }
    }

    /// A call gets its outcome.
    pub open spec fn after_resolve(self, call_id: u64, outcome: u32, end_price: i128) -> RegistryState {
        self.after_get_call(call_id).after_set_call(
            CallState { outcome, end_price, ..self.calls[call_id] },
        ).after_extend_storage_ttl().after(
            RegistryEffect::Publish(RegistryEvent::CallResolved { call_id, outcome, end_price }),
        )
    }

    /// Why a question about a stake is refused, if it is.
    pub open spec fn staker_stake_error(self, call_id: u64, position: u32) -> Option<RegistryError> {
        if !self.calls.contains_key(call_id) {
            Some(RegistryError::CallDoesNotExist)
        } else if StakePosition::of(position) is None {
            Some(RegistryError::UnknownPosition)
        } else {
            None
        }
    }

    /// Why the statistics of a call cannot be had, if they cannot.
    pub open spec fn stats_error(self, call_id: u64) -> Option<RegistryError> {
        let call = self.calls[call_id];
        if !self.calls.contains_key(call_id) {
            Some(RegistryError::CallDoesNotExist)
        } else if call.up_stakes.len() + call.down_stakes.len() > u32::MAX {
            Some(RegistryError::Overflow)
        } else {
            None
        }
    }

    /// Why the outcome manager's request about a call is refused, if it is.
    pub open spec fn manager_error(self, call_id: u64) -> Option<RegistryError> {
        if self.config is None {
            Some(RegistryError::NotInitialized)
        } else if !self.authorized.contains(self.config->0.outcome_manager) {
            Some(RegistryError::Unauthorized)
        } else if !self.calls.contains_key(call_id) {
            Some(RegistryError::CallNotFound)
        } else {
            None
        }
    }

    /// Tokens staked on a call are paid out.
    pub open spec fn after_release(self, call_id: u64, to: Address, amount: i128) -> RegistryState {
        self.after_get_call(call_id).after(
            RegistryEffect::TransferOut { token: self.calls[call_id].stake_token, to, amount },
        )
    }

    /// Why a call cannot be marked as settled, if it cannot.
    pub open spec fn mark_settled_error(self, call_id: u64) -> Option<RegistryError> {
        if self.manager_error(call_id) is Some {
            self.manager_error(call_id)
        } else if self.calls[call_id].settled {
            Some(RegistryError::AlreadySettled)
        } else {
            None
        }
    }

    /// A call is settled.
    pub open spec fn after_mark_settled(self, call_id: u64) -> RegistryState {
        self.after_get_call(call_id).after_set_call(
            CallState { settled: true, ..self.calls[call_id] },
        )
    }
}

/// The registry of calls.
pub struct CallRegistry;

impl CallRegistry {
    /// Gives the registry its administrator and its outcome manager, once.
    pub fn initialize(env: &mut RegistryEnv, admin: Address, outcome_manager: Address) -> (r: Result<
        (),
        RegistryError,
    >)
        ensures
            r is Ok <==> old(env)@.initialize_error(admin) is None,
            r is Ok ==> final(env)@ == old(env)@.after_initialize(admin, outcome_manager),
            r matches Err(e) ==> old(env)@.initialize_error(admin) == Some(e) && final(env)@ == old(env)@,
    {
        if get_config(env).is_some() {
            return Err(RegistryError::AlreadyInitialized);
        }
        if !env.has_auth(&admin) {
            return Err(RegistryError::Unauthorized);
        }
        let config = ContractConfig { admin, outcome_manager, fee_bps: 0 };
        set_config(env, &config);
        extend_storage_ttl(env);
        env.record(RegistryEffect::Publish(RegistryEvent::Initialized { admin, outcome_manager }));
        Ok(())
    }

    /// Creates a call that nobody has staked on yet.
    pub fn create_call(
        env: &mut RegistryEnv,
        creator: Address,
        stake_token: Address,
        stake_amount: i128,
        end_ts: u64,
        token_address: Address,
        pair_id: Vec<u8>,
        ipfs_cid: Vec<u8>,
        condition: ConditionType,
    ) -> (r: Result<Call, RegistryError>)
        ensures
            r is Ok <==> old(env)@.create_error(creator, stake_amount, end_ts) is None,
            r matches Ok(call) ==> call@ == old(env)@.new_call(
                creator,
                stake_token,
                stake_amount,
                end_ts,
                token_address,
                pair_id@,
                ipfs_cid@,
                condition,
            ) && final(env)@ == old(env)@.after_create_call(call@),
            r matches Err(e) ==> old(env)@.create_error(creator, stake_amount, end_ts) == Some(e)
                && final(env)@ == old(env)@,
    {
        if !env.has_auth(&creator) {
            return Err(RegistryError::Unauthorized);
        }
        if stake_amount <= 0 {
            return Err(RegistryError::StakeNotPositive);
        }
        let current_timestamp: u64 = env.timestamp;
        if end_ts <= current_timestamp {
            return Err(RegistryError::EndNotInFuture);
        }
        if get_call_counter(env) == u64::MAX {
            return Err(RegistryError::Overflow);
        }
        let call_id: u64 = next_call_id(env);
        let event_pair_id = copy_bytes(&pair_id);
        let event_ipfs_cid = copy_bytes(&ipfs_cid);
        let call = Call {
            id: call_id,
            creator,
            stake_token,
            stake_amount,
            end_ts,
            token_address,
            pair_id,
            ipfs_cid,
            total_up_stake: 0,
            total_down_stake: 0,
            up_stakes: StakeMap::new(&env.host),
            down_stakes: StakeMap::new(&env.host),
            outcome: 0,
            start_price: 0,
            end_price: 0,
            condition,
            settled: false,
            created_at: current_timestamp,
        };
        set_call(env, &call);
        extend_storage_ttl(env);
        env.record(
            RegistryEffect::Publish(
                RegistryEvent::CallCreated {
                    call_id,
                    creator,
                    stake_token,
                    stake_amount,
                    end_ts,
                    token_address,
                    pair_id: event_pair_id,
                    ipfs_cid: event_ipfs_cid,
                },
            ),
        );
        Ok(call)
    }

    /// Keeps a call alive. Anyone may ask for this.
    pub fn extend_call_ttl(env: &mut RegistryEnv, call_id: u64) -> (r: Result<(), RegistryError>)
        ensures
            r is Ok <==> old(env)@.calls.contains_key(call_id),
            r is Ok ==> final(env)@ == old(env)@.after_touch(DataKey::Call(call_id)),
            r matches Err(e) ==> e == RegistryError::CallDoesNotExist && final(env)@ == old(env)@,
    {
        if !call_exists(env, call_id) {
            return Err(RegistryError::CallDoesNotExist);
        }
        env.record(
            RegistryEffect::ExtendTtl {
                key: DataKey::Call(call_id),
                threshold: PERSISTENT_LIFETIME_THRESHOLD,
                extend_to: PERSISTENT_BUMP_AMOUNT,
            },
        );
        Ok(())
    }

    /// Adds to what `staker` has staked on one side of a call: 1 for up, 2 for down.
    pub fn stake_on_call(
        env: &mut RegistryEnv,
        staker: Address,
        call_id: u64,
        amount: i128,
        position: u32,
    ) -> (r: Result<Call, RegistryError>)
        ensures
            r is Ok <==> old(env)@.stake_error(staker, call_id, amount, position) is None,
            r matches Ok(call) ==> call@ == old(env)@.calls[call_id].with_stake(
                staker,
                amount,
                StakePosition::of(position)->0,
            ) && final(env)@ == old(env)@.after_stake(staker, call_id, amount, position),
            r matches Err(e) ==> old(env)@.stake_error(staker, call_id, amount, position) == Some(e)
                && final(env)@ == old(env)@,
    {
        if !env.has_auth(&staker) {
            return Err(RegistryError::Unauthorized);
        }
        if amount <= 0 {
            return Err(RegistryError::StakeNotPositive);
        }
        let mut call = match env.peek_call(call_id) {
            Some(call) => call.clone(),
            None => return Err(RegistryError::CallDoesNotExist),
        };
        let ghost before = call@;
        if env.timestamp >= call.end_ts {
            return Err(RegistryError::CallEnded);
        }
        if call.settled {
            return Err(RegistryError::CallSettled);
        }
        let stake_position = match StakePosition::from_u32(position) {
            Some(p) => p,
            None => return Err(RegistryError::InvalidPosition),
        };
        match stake_position {
            StakePosition::Up => {
                match add_to(&mut call.up_stakes, call.total_up_stake, &staker, amount) {
                    Ok(total) => call.total_up_stake = total,
                    Err(e) => return Err(e),
                }
            },
            StakePosition::Down => {
                match add_to(&mut call.down_stakes, call.total_down_stake, &staker, amount) {
                    Ok(total) => call.total_down_stake = total,
                    Err(e) => return Err(e),
                }
            },
        }
        assert(call@ =~= before.with_stake(staker, amount, stake_position));
        let has_room: bool = match env.peek_staker_calls(&staker) {
            Some(ids) => ids.len() < u32::MAX || ids.contains(call_id),
            None => true,
        };
        if !has_room {
            return Err(RegistryError::TooManyEntries);
        }
        let _ = get_call(env, call_id);
        env.record(
            RegistryEffect::TransferIn { token: call.stake_token, from: staker, amount },
        );
        set_call(env, &call);
        add_staker_call(env, &staker, call_id);
        extend_storage_ttl(env);
        env.record(
            RegistryEffect::Publish(
                RegistryEvent::StakeAdded { call_id, staker, amount, position },
            ),
        );
        Ok(call)
    }

    /// The call of a number.
    pub fn get_call(env: &mut RegistryEnv, call_id: u64) -> (r: Result<Call, RegistryError>)
        ensures
            r is Ok <==> old(env)@.calls.contains_key(call_id),
            r matches Ok(call) ==> call@ == old(env)@.calls[call_id],
            r matches Err(e) ==> e == RegistryError::CallDoesNotExist,
            final(env)@ == old(env)@.after_get_call(call_id),
    {
        match get_call(env, call_id) {
            Some(call) => Ok(call),
            None => Err(RegistryError::CallDoesNotExist),
        }
    }

    /// Whether a price movement meets a condition.
    pub fn evaluate_condition(condition: ConditionType, start_price: i128, end_price: i128) -> (r:
        bool)
        requires
            condition_computable(condition, start_price as int, end_price as int),
        ensures
            r == condition_met(condition, start_price as int, end_price as int),
    {
        evaluate_condition_impl(&condition, start_price, end_price)
    }

    /// The condition of a call.
    pub fn get_condition(env: &mut RegistryEnv, call_id: u64) -> (r: Result<
        ConditionType,
        RegistryError,
    >)
        ensures
            r is Ok <==> old(env)@.calls.contains_key(call_id),
            r matches Ok(condition) ==> condition == old(env)@.calls[call_id].condition,
            r matches Err(e) ==> e == RegistryError::CallDoesNotExist,
            final(env)@ == old(env)@.after_get_call(call_id),
    {
        match get_call(env, call_id) {
            Some(call) => Ok(call.condition),
            None => Err(RegistryError::CallDoesNotExist),
        }
    }

    /// All calls that an address has made, in the order in which it made them.
    pub fn get_calls_by_creator(env: &mut RegistryEnv, creator: Address) -> (r: Vec<Call>)
        ensures
            states(r@) == calls_of(
                old(env)@.calls,
                listed_ids(old(env)@.calls, Some(creator), 1, old(env)@.count() + 1),
            ),
            final(env)@ == old(env)@.after_reads(
                stored_ids(old(env)@.calls, 1, old(env)@.count() + 1),
            ),
    {
        let total_calls: u64 = get_call_counter(env);
        proof {
            crate::call_registry::listing::lemma_search_to_end(
                env@.calls,
                Some(creator),
                1,
                total_calls as int,
                u64::MAX as nat,
            );
        }
        search_calls(env, Some(creator), 1, total_calls, u64::MAX)
    }

    /// A page of calls: the first ones from number `start_id` on, at most `limit` of them and at
    /// most [`MAX_CALL_PAGE_SIZE`].
    pub fn get_calls_paginated(env: &mut RegistryEnv, start_id: u64, limit: u32) -> (r: Vec<Call>)
        ensures
            states(r@) == old(env)@.page(None, start_id, limit),
            final(env)@ == old(env)@.after_page(None, start_id, limit),
    {
        read_page(env, None, start_id, limit)
    }

    /// The same for the calls that one address has made.
    pub fn get_calls_by_creator_paginated(
        env: &mut RegistryEnv,
        creator: Address,
        start_id: u64,
        limit: u32,
    ) -> (r: Vec<Call>)
        ensures
            states(r@) == old(env)@.page(Some(creator), start_id, limit),
            final(env)@ == old(env)@.after_page(Some(creator), start_id, limit),
    {
        read_page(env, Some(creator), start_id, limit)
    }

    /// How much is staked on a call, and by how many.
    pub fn get_call_stats(env: &mut RegistryEnv, call_id: u64) -> (r: Result<
        CallStats,
        RegistryError,
    >)
        ensures
            r is Ok <==> old(env)@.stats_error(call_id) is None,
            r matches Ok(stats) ==> stats.total_up_stake == old(env)@.calls[call_id].total_up_stake
                && stats.total_down_stake == old(env)@.calls[call_id].total_down_stake
                && stats.up_stake_count == old(env)@.calls[call_id].up_stakes.len()
                && stats.down_stake_count == old(env)@.calls[call_id].down_stakes.len()
                && stats.total_stakes == stats.up_stake_count + stats.down_stake_count
                && final(env)@ == old(env)@.after_get_call(call_id),
            r matches Err(e) ==> old(env)@.stats_error(call_id) == Some(e) && final(env)@ == old(env)@,
    {
        let stats = match env.peek_call(call_id) {
            None => return Err(RegistryError::CallDoesNotExist),
            Some(call) => {
                let up_stake_count: u32 = call.up_stakes.len();
                let down_stake_count: u32 = call.down_stakes.len();
                match up_stake_count.checked_add(down_stake_count) {
                    None => return Err(RegistryError::Overflow),
                    Some(total_stakes) => CallStats {
                        total_up_stake: call.total_up_stake,
                        total_down_stake: call.total_down_stake,
                        total_stakes,
                        up_stake_count,
                        down_stake_count,
                    },
                }
            },
        };
        let _ = get_call(env, call_id);
        Ok(stats)
    }

    /// The calls that an address has staked on, in the order of its first stake on each.
    pub fn get_staker_calls(env: &mut RegistryEnv, staker: Address) -> (r: Vec<Call>)
        ensures
            states(r@) == calls_of(
                old(env)@.calls,
                old(env)@.staked_on(staker).filter(|id: u64| old(env)@.calls.contains_key(id)),
            ),
            final(env)@ == old(env)@.after_get_staker_calls(staker).after_reads(
                old(env)@.staked_on(staker),
            ),
    {
        let call_ids = get_staker_calls(env, &staker);
        let ghost s = env@;
        let ghost keep = |id: u64| old(env)@.calls.contains_key(id);
        let mut calls: Vec<Call> = Vec::new();
        let count: u32 = call_ids.len();
        let mut at: u32 = 0;
        proof {
            assert(call_ids@.take(0) =~= Seq::<u64>::empty());
            assert(states(calls@) =~= calls_of(s.calls, Seq::<u64>::empty().filter(keep))) by {
                reveal(Seq::filter);
            }
        }
        while at < count
            invariant
                at <= count,
                count == call_ids@.len(),
                s.calls == old(env)@.calls,
                keep == (|id: u64| old(env)@.calls.contains_key(id)),
                states(calls@) == calls_of(s.calls, call_ids@.take(at as int).filter(keep)),
                env@ == s.after_reads(call_ids@.take(at as int)),
            decreases count - at,
        {
            proof {
                let seen = call_ids@.take(at + 1);
                assert(seen.drop_last() =~= call_ids@.take(at as int));
                reveal(Seq::filter);
                crate::call_registry::listing::lemma_reads_keep_entries(
                    s,
                    call_ids@.take(at as int),
                );
            }
            let ghost before = calls@;
            if let Some(call_id) = call_ids.get(at) {
                if let Some(call) = get_call(env, call_id) {
                    proof {
                        assert(states(before.push(call)) =~= states(before).push(call@));
                        let shown = call_ids@.take(at as int).filter(keep);
                        assert(calls_of(s.calls, shown.push(call_id)) =~= calls_of(
                            s.calls,
                            shown,
                        ).push(call@));
                    }
                    calls.push(call);
                }
            }
            at += 1;
        }
        assert(call_ids@.take(at as int) =~= call_ids@);
        calls
    }

    /// Gives a call its outcome, 1 for up or 2 for down, once staking on it is over. Only the
    /// outcome manager may.
    pub fn resolve_call(env: &mut RegistryEnv, call_id: u64, outcome: u32, end_price: i128) -> (r:
        Result<Call, RegistryError>)
        ensures
            r is Ok <==> old(env)@.resolve_error(call_id, outcome) is None,
            r matches Ok(call) ==> call@ == (CallState {
                outcome,
                end_price,
                ..old(env)@.calls[call_id]
            }) && final(env)@ == old(env)@.after_resolve(call_id, outcome, end_price),
            r matches Err(e) ==> old(env)@.resolve_error(call_id, outcome) == Some(e) && final(env)@ == old(env)@,
    {
        let config = match get_config(env) {
            Some(config) => config,
            None => return Err(RegistryError::ContractNotInitialized),
        };
        if !env.has_auth(&config.outcome_manager) {
            return Err(RegistryError::Unauthorized);
        }
        let mut call = match env.peek_call(call_id) {
            Some(call) => call.clone(),
            None => return Err(RegistryError::CallDoesNotExist),
        };
        if outcome != 1 && outcome != 2 {
            return Err(RegistryError::InvalidOutcome);
        }
        if env.timestamp < call.end_ts {
            return Err(RegistryError::CallNotEnded);
        }
        call.outcome = outcome;
        call.end_price = end_price;
        let _ = get_call(env, call_id);
        set_call(env, &call);
        extend_storage_ttl(env);
        env.record(
            RegistryEffect::Publish(RegistryEvent::CallResolved { call_id, outcome, end_price }),
        );
        Ok(call)
    }

    /// Hands the administration over to another address. Only the administrator may.
    pub fn set_admin(env: &mut RegistryEnv, new_admin: Address) -> (r: Result<(), RegistryError>)
        ensures
            r is Ok <==> old(env)@.admin_error() is None,
            r is Ok ==> final(env)@ == old(env)@.after_set_admin(new_admin),
            r matches Err(e) ==> old(env)@.admin_error() == Some(e) && final(env)@ == old(env)@,
    {
        admin::set_admin(env, new_admin)
    }

    /// Puts another outcome manager in charge. Only the administrator may.
    pub fn set_outcome_manager(env: &mut RegistryEnv, new_manager: Address) -> (r: Result<
        (),
        RegistryError,
    >)
        ensures
            r is Ok <==> old(env)@.admin_error() is None,
            r is Ok ==> final(env)@ == old(env)@.after_set_outcome_manager(new_manager),
            r matches Err(e) ==> old(env)@.admin_error() == Some(e) && final(env)@ == old(env)@,
    {
        admin::set_outcome_manager(env, new_manager)
    }

    /// Sets the protocol fee in basis points, of which there are 10000. Only the administrator
    /// may.
    pub fn set_fee(env: &mut RegistryEnv, new_fee_bps: u32) -> (r: Result<(), RegistryError>)
        ensures
            r is Ok <==> old(env)@.set_fee_error(new_fee_bps) is None,
            r is Ok ==> final(env)@ == old(env)@.after_set_fee(new_fee_bps),
            r matches Err(e) ==> old(env)@.set_fee_error(new_fee_bps) == Some(e) && final(env)@
                == old(env)@,
    {
        admin::set_fee(env, new_fee_bps)
    }

    /// The configuration.
    pub fn get_config(env: &RegistryEnv) -> (r: Result<ContractConfig, RegistryError>)
        ensures
            r is Ok <==> env@.config is Some,
            r matches Ok(config) ==> env@.config == Some(config),
            r matches Err(e) ==> e == RegistryError::ContractNotInitialized,
    {
        match get_config(env) {
            Some(config) => Ok(config),
            None => Err(RegistryError::ContractNotInitialized),
        }
    }

    /// The number of calls made so far.
    pub fn get_call_count(env: &RegistryEnv) -> (r: u64)
        ensures
            r == env@.count(),
    {
        get_call_counter(env)
    }

    /// What an address has staked on one side of a call.
    pub fn get_staker_stake(env: &mut RegistryEnv, call_id: u64, staker: Address, position: u32) -> (r:
        Result<i128, RegistryError>)
        ensures
            r is Ok <==> old(env)@.staker_stake_error(call_id, position) is None,
            r matches Ok(amount) ==> amount == stake_in(
                old(env)@.calls[call_id].stakes(StakePosition::of(position)->0),
                staker,
            ) && final(env)@ == old(env)@.after_get_call(call_id),
            r matches Err(e) ==> old(env)@.staker_stake_error(call_id, position) == Some(e)
                && final(env)@ == old(env)@,
    {
        let amount: i128 = match env.peek_call(call_id) {
            None => return Err(RegistryError::CallDoesNotExist),
            Some(call) => match position {
                1 => call.up_stakes.get(&staker).unwrap_or(0),
                2 => call.down_stakes.get(&staker).unwrap_or(0),
                _ => return Err(RegistryError::UnknownPosition),
            },
        };
        let _ = get_call(env, call_id);
        Ok(amount)
    }

    /// Pays out tokens that are staked on a call. Only the outcome manager may.
    pub fn release_escrow(env: &mut RegistryEnv, call_id: u64, to: Address, amount: i128) -> (r:
        Result<(), RegistryError>)
        ensures
            r is Ok <==> old(env)@.manager_error(call_id) is None,
            r is Ok ==> final(env)@ == old(env)@.after_release(call_id, to, amount),
            r matches Err(e) ==> old(env)@.manager_error(call_id) == Some(e) && final(env)@ == old(env)@,
    {
        let token: Address = match manager_call(env, call_id) {
            Ok(call) => call.stake_token,
            Err(e) => return Err(e),
        };
        let _ = get_call(env, call_id);
        env.record(RegistryEffect::TransferOut { token, to, amount });
        Ok(())
    }

    /// Marks a call as settled, once. Only the outcome manager may.
    pub fn mark_settled(env: &mut RegistryEnv, call_id: u64) -> (r: Result<(), RegistryError>)
        ensures
            r is Ok <==> old(env)@.mark_settled_error(call_id) is None,
            r is Ok ==> final(env)@ == old(env)@.after_mark_settled(call_id),
            r matches Err(e) ==> old(env)@.mark_settled_error(call_id) == Some(e) && final(env)@
                == old(env)@,
    {
        let mut call = match manager_call(env, call_id) {
            Ok(call) => call.clone(),
            Err(e) => return Err(e),
        };
        if call.settled {
            return Err(RegistryError::AlreadySettled);
        }
        call.settled = true;
        let _ = get_call(env, call_id);
        set_call(env, &call);
        Ok(())
    }
}

/// Adds `amount` to what `staker` has in `stakes`, and gives the new total. If it cannot, the
/// stakes stay as they are.
fn add_to(stakes: &mut StakeMap, total: i128, staker: &Address, amount: i128) -> (r: Result<
    i128,
    RegistryError,
>)
    requires
        amount > 0,
    ensures
        ({
            let before = old(stakes)@;
            let stake = stake_in(before, *staker) + amount;
            match r {
                Ok(new_total) => {
                    &&& stake <= i128::MAX
                    &&& before.contains_key(staker.key()) || before.len() < u32::MAX
                    &&& new_total == total + amount
                    &&& final(stakes)@ == before.insert(staker.key(), stake as i128)
                },
                Err(e) => {
                    &&& final(stakes)@ == before
                    &&& if stake > i128::MAX {
                        e == RegistryError::Overflow
                    } else if !before.contains_key(staker.key()) && before.len() >= u32::MAX {
                        e == RegistryError::TooManyEntries
                    } else {
                        e == RegistryError::Overflow && total + amount > i128::MAX
                    }
                },
            }
        }),
{
    let entry = stakes.get(staker);
    let current_stake: i128 = entry.unwrap_or(0);
    let new_stake: i128 = match current_stake.checked_add(amount) {
        Some(sum) => sum,
        None => return Err(RegistryError::Overflow),
    };
    if entry.is_none() && stakes.len() == u32::MAX {
        return Err(RegistryError::TooManyEntries);
    }
    let new_total: i128 = match total.checked_add(amount) {
        Some(sum) => sum,
        None => return Err(RegistryError::Overflow),
    };
    stakes.set(staker, new_stake);
    Ok(new_total)
}

/// The call that the outcome manager asks about, once it is known to have authorized the
/// invocation.
fn manager_call(env: &RegistryEnv, call_id: u64) -> (r: Result<&Call, RegistryError>)
    ensures
        r is Ok <==> env@.manager_error(call_id) is None,
        r matches Ok(call) ==> call@ == env@.calls[call_id],
        r matches Err(e) ==> env@.manager_error(call_id) == Some(e),
{
    let config = match get_config(env) {
        Some(config) => config,
        None => return Err(RegistryError::NotInitialized),
    };
    if !env.has_auth(&config.outcome_manager) {
        return Err(RegistryError::Unauthorized);
    }
    match env.peek_call(call_id) {
        Some(call) => Ok(call),
        None => Err(RegistryError::CallNotFound),
    }
}

/// Reads a page of calls.
fn read_page(env: &mut RegistryEnv, creator: Option<Address>, start_id: u64, limit: u32) -> (r: Vec<
    Call,
>)
    ensures
        states(r@) == old(env)@.page(creator, start_id, limit),
        final(env)@ == old(env)@.after_page(creator, start_id, limit),
{
    let total_calls: u64 = get_call_counter(env);
    let wanted: u32 = if limit < MAX_CALL_PAGE_SIZE {
        limit
    } else {
        MAX_CALL_PAGE_SIZE
    };
    let first: u64 = if start_id < 1 {
        1
    } else {
        start_id
    };
    assert(wanted == page_size(limit));
    search_calls(env, creator, first, total_calls, wanted as u64)
}

} // verus!
