//! What each request does, entry by entry and effect by effect.
//!
//! The laws here speak of a request's inputs, of the entries before and behind it, and of what
//! the host is asked to do, with every number written out.

use vstd::prelude::*;
use crate::address::Address;
use crate::call_registry::contract::stake_in;
use crate::call_registry::events::{AdminChange, RegistryEvent};
use crate::call_registry::listing::states;
use crate::call_registry::storage::{DataKey, RegistryEffect, RegistryEnv, RegistryState};
use crate::call_registry::types::{
    Call, CallState, ConditionType, ContractConfig, RegistryError, StakePosition,
};

verus! {

/// The value of a call is its fields.
pub proof fn law_value_of_call(call: Call)
    ensures
        call@.id == call.id,
        call@.creator == call.creator,
        call@.stake_token == call.stake_token,
        call@.stake_amount == call.stake_amount,
        call@.end_ts == call.end_ts,
        call@.token_address == call.token_address,
        call@.pair_id == call.pair_id@,
        call@.ipfs_cid == call.ipfs_cid@,
        call@.total_up_stake == call.total_up_stake,
        call@.total_down_stake == call.total_down_stake,
        call@.up_stakes == call.up_stakes@,
        call@.down_stakes == call.down_stakes@,
        call@.outcome == call.outcome,
        call@.start_price == call.start_price,
        call@.end_price == call.end_price,
        call@.condition == call.condition,
        call@.settled == call.settled,
        call@.created_at == call.created_at,
{
}

/// The value of a list of calls is the values of the calls, in the same order.
pub proof fn law_value_of_calls(calls: Seq<Call>)
    ensures
        states(calls).len() == calls.len(),
        forall|i: int| 0 <= i < calls.len() ==> (#[trigger] states(calls)[i]) == calls[i]@,
{
}

/// The value of what an invocation works on is its fields, entry by entry.
pub proof fn law_value_of_environment(env: RegistryEnv)
    ensures
        env@.timestamp == env.timestamp,
        env@.authorized == env.authorized@,
        env@.config == env.config,
        env@.call_counter == env.call_counter,
        forall|id: u64| #[trigger] env@.calls.contains_key(id) <==> env.calls@.contains_key(id),
        forall|id: u64|
            env.calls@.contains_key(id) ==> (#[trigger] env@.calls[id]) == env.calls@[id]@,
        forall|who: Address| #[trigger]
            env@.staker_calls.contains_key(who) <==> env.staker_calls@.contains_key(who),
        forall|who: Address|
            env.staker_calls@.contains_key(who) ==> (#[trigger] env@.staker_calls[who])
                == env.staker_calls@[who]@,
        env@.effects.len() == env.effects@.len(),
        forall|i: int|
            0 <= i < env.effects@.len() ==> (#[trigger] env@.effects[i]) == env.effects@[i]@,
{
}

/// The value of an effect is the effect itself, with its byte strings by their bytes.
pub proof fn law_value_of_effect(effect: RegistryEffect<Vec<u8>>)
    ensures
        match effect {
            RegistryEffect::Save(key) => effect@ == RegistryEffect::<Seq<u8>>::Save(key),
            RegistryEffect::ExtendTtl { key, threshold, extend_to } => effect@ == (
            RegistryEffect::<Seq<u8>>::ExtendTtl { key, threshold, extend_to }),
            RegistryEffect::ExtendInstanceTtl { threshold, extend_to } => effect@ == (
            RegistryEffect::<Seq<u8>>::ExtendInstanceTtl { threshold, extend_to }),
            RegistryEffect::TransferIn { token, from, amount } => effect@ == (RegistryEffect::<
                Seq<u8>,
            >::TransferIn { token, from, amount }),
            RegistryEffect::TransferOut { token, to, amount } => effect@ == (RegistryEffect::<
                Seq<u8>,
            >::TransferOut { token, to, amount }),
            RegistryEffect::Publish(event) => match event {
                RegistryEvent::Initialized { admin, outcome_manager } => effect@
                    == RegistryEffect::Publish(
                    (RegistryEvent::<Seq<u8>>::Initialized { admin, outcome_manager }),
                ),
                RegistryEvent::CallCreated {
                    call_id,
                    creator,
                    stake_token,
                    stake_amount,
                    end_ts,
                    token_address,
                    pair_id,
                    ipfs_cid,
                } => effect@ == RegistryEffect::Publish(
                    (RegistryEvent::CallCreated {
                        call_id,
                        creator,
                        stake_token,
                        stake_amount,
                        end_ts,
                        token_address,
                        pair_id: pair_id@,
                        ipfs_cid: ipfs_cid@,
                    }),
                ),
                RegistryEvent::StakeAdded { call_id, staker, amount, position } => effect@
                    == RegistryEffect::Publish(
                    (RegistryEvent::<Seq<u8>>::StakeAdded { call_id, staker, amount, position }),
                ),
                RegistryEvent::CallResolved { call_id, outcome, end_price } => effect@
                    == RegistryEffect::Publish(
                    (RegistryEvent::<Seq<u8>>::CallResolved { call_id, outcome, end_price }),
                ),
                RegistryEvent::AdminParamsChanged(change) => effect@ == RegistryEffect::Publish(
                    RegistryEvent::<Seq<u8>>::AdminParamsChanged(change),
                ),
            },
        },
{
}

/// Calls are counted from nothing, and a staker without an index has staked on nothing.
pub proof fn law_missing_entries(s: RegistryState, who: Address, call_id: u64)
    ensures
        s.call_counter is None ==> s.count() == 0,
        s.call_counter is Some ==> s.call_counter == Some(s.count()),
        !s.staker_calls.contains_key(who) ==> s.staked_on(who).len() == 0,
        s.staker_calls.contains_key(who) ==> s.staked_on(who) == s.staker_calls[who],
        s.index_has_room(who, call_id) <==> !s.staker_calls.contains_key(who)
            || s.staker_calls[who].len() < 0xffff_ffff || s.staker_calls[who].contains(call_id),
{
}

/// Position 1 is the up side of a call, 2 is its down side, and there is no other.
pub proof fn law_positions(call: CallState, position: u32)
    ensures
        StakePosition::of(position) == Some(StakePosition::Up) <==> position == 1,
        StakePosition::of(position) == Some(StakePosition::Down) <==> position == 2,
        StakePosition::of(position) is None <==> position != 1 && position != 2,
        call.stakes(StakePosition::Up) == call.up_stakes,
        call.stakes(StakePosition::Down) == call.down_stakes,
        call.total(StakePosition::Up) == call.total_up_stake,
        call.total(StakePosition::Down) == call.total_down_stake,
{
}

/// What an address has staked is its own entry, by kind and identifier, and nothing without one.
pub proof fn law_stake_is_own_entry(stakes: Map<(bool, u128, u128), i128>, who: Address)
    ensures
        ({
            let key = (who.is_contract, who.id.hi, who.id.lo);
            &&& who.key() == key
            &&& stakes.contains_key(key) ==> stake_in(stakes, who) == stakes[key]
            &&& !stakes.contains_key(key) ==> stake_in(stakes, who) == 0
        }),
{
}

/// Keeping an entry alive asks the host for that alone: 2073600 ledgers for one that has fewer
/// than 1036800, and for the contract instance 120960 if it has fewer than 60480.
pub proof fn law_keeping_alive(s: RegistryState, key: DataKey)
    ensures
        ({
            let t = s.after_touch(key);
            &&& t.effects == s.effects + seq![
                RegistryEffect::ExtendTtl { key, threshold: 1_036_800, extend_to: 2_073_600 },
            ]
            &&& t == (RegistryState { effects: t.effects, ..s })
        }),
        ({
            let t = s.after_extend_storage_ttl();
            &&& t.effects == s.effects + seq![
                RegistryEffect::ExtendInstanceTtl { threshold: 60_480, extend_to: 120_960 },
            ]
            &&& t == (RegistryState { effects: t.effects, ..s })
        }),
{
}

/// A read of a call changes no entry, and keeps the call alive if there is one.
pub proof fn law_read_of_call(s: RegistryState, call_id: u64)
    ensures
        ({
            let t = s.after_get_call(call_id);
            &&& t == (RegistryState { effects: t.effects, ..s })
            &&& s.calls.contains_key(call_id) ==> t.effects == s.effects + seq![
                RegistryEffect::ExtendTtl {
                    key: DataKey::Call(call_id),
                    threshold: 1_036_800,
                    extend_to: 2_073_600,
                },
            ]
            &&& !s.calls.contains_key(call_id) ==> t.effects == s.effects
        }),
{
}

/// Reads of calls, one after the other, keep alive those that are there, in that order.
pub proof fn law_reads_of_calls(s: RegistryState, ids: Seq<u64>)
    requires
        forall|i: int| 0 <= i < ids.len() ==> s.calls.contains_key(#[trigger] ids[i]),
    ensures
        ({
            let t = s.after_reads(ids);
            &&& t == (RegistryState { effects: t.effects, ..s })
            &&& t.effects.len() == s.effects.len() + ids.len()
            &&& t.effects.take(s.effects.len() as int) == s.effects
            &&& forall|i: int|
                0 <= i < ids.len() ==> (#[trigger] t.effects[s.effects.len() + i]) == (
                RegistryEffect::<Seq<u8>>::ExtendTtl {
                    key: DataKey::Call(ids[i]),
                    threshold: 1_036_800,
                    extend_to: 2_073_600,
                })
        }),
    decreases ids.len(),
{
    let t = s.after_reads(ids);
    if ids.len() > 0 {
        let rest = ids.drop_last();
        assert forall|i: int| 0 <= i < rest.len() implies s.calls.contains_key(
            #[trigger] rest[i],
        ) by {
            assert(rest[i] == ids[i]);
        }
        law_reads_of_calls(s, rest);
        let u = s.after_reads(rest);
        assert(s.calls.contains_key(ids[ids.len() - 1]));
        assert(u.calls == s.calls);
        assert(t.effects.take(s.effects.len() as int) =~= u.effects.take(s.effects.len() as int));
        assert forall|i: int| 0 <= i < ids.len() implies (#[trigger] t.effects[s.effects.len() + i])
            == (RegistryEffect::<Seq<u8>>::ExtendTtl {
            key: DataKey::Call(ids[i]),
            threshold: 1_036_800,
            extend_to: 2_073_600,
        }) by {
            if i < rest.len() {
                assert(t.effects[s.effects.len() + i] == u.effects[s.effects.len() + i]);
                assert(rest[i] == ids[i]);
            }
        }
    } else {
        assert(t.effects.take(s.effects.len() as int) =~= s.effects);
    }
}

/// A read of a staker's index changes no entry, and keeps the index alive if anything is in it.
pub proof fn law_read_of_index(s: RegistryState, who: Address)
    ensures
        ({
            let t = s.after_get_staker_calls(who);
            let found = s.staker_calls.contains_key(who) && s.staker_calls[who].len() > 0;
            &&& t == (RegistryState { effects: t.effects, ..s })
            &&& found ==> t.effects == s.effects + seq![
                RegistryEffect::ExtendTtl {
                    key: DataKey::StakerCalls(who),
                    threshold: 1_036_800,
                    extend_to: 2_073_600,
                },
            ]
            &&& !found ==> t.effects == s.effects
        }),
{
}

/// A configuration is stored as it is, in place of the one before, and saved.
pub proof fn law_write_of_config(s: RegistryState, config: ContractConfig)
    ensures
        ({
            let t = s.after_set_config(config);
            &&& t.config == Some(config)
            &&& t.effects == s.effects + seq![RegistryEffect::Save(DataKey::Config)]
            &&& t == (RegistryState { config: t.config, effects: t.effects, ..s })
        }),
{
}

/// A call number is taken by counting one up, and the count is saved.
pub proof fn law_next_number(s: RegistryState)
    requires
        s.call_counter != Some(0xffff_ffff_ffff_ffffu64),
    ensures
        ({
            let t = s.after_next_call_id();
            &&& t.call_counter is Some
            &&& t.call_counter->0 == 1 + (match s.call_counter {
                Some(n) => n as int,
                None => 0,
            })
            &&& t.effects == s.effects + seq![RegistryEffect::Save(DataKey::CallCounter)]
            &&& t == (RegistryState { call_counter: t.call_counter, effects: t.effects, ..s })
        }),
{
}

/// A call is stored as it is under its own number, saved and kept alive; the other calls stay.
pub proof fn law_write_of_call(s: RegistryState, call: CallState)
    ensures
        ({
            let t = s.after_set_call(call);
            &&& t.calls.contains_key(call.id)
            &&& t.calls[call.id] == call
            &&& forall|id: u64|
                id != call.id ==> (#[trigger] t.calls.contains_key(id)) == s.calls.contains_key(id)
            &&& forall|id: u64|
                id != call.id && s.calls.contains_key(id) ==> (#[trigger] t.calls[id])
                    == s.calls[id]
            &&& t.effects == s.effects + seq![
                RegistryEffect::Save(DataKey::Call(call.id)),
                RegistryEffect::ExtendTtl {
                    key: DataKey::Call(call.id),
                    threshold: 1_036_800,
                    extend_to: 2_073_600,
                },
            ]
            &&& t == (RegistryState { calls: t.calls, effects: t.effects, ..s })
        }),
{
}

/// A call that is not in a staker's index is added behind the last one, and the index is saved;
/// one that is there is not added again. Either way the index is kept alive, and no other index
/// changes.
pub proof fn law_write_of_index(s: RegistryState, who: Address, call_id: u64)
    ensures
        ({
            let t = s.after_add_staker_call(who, call_id);
            let before = if s.staker_calls.contains_key(who) {
                s.staker_calls[who]
            } else {
                Seq::<u64>::empty()
            };
            let touch = RegistryEffect::<Seq<u8>>::ExtendTtl {
                key: DataKey::StakerCalls(who),
                threshold: 1_036_800,
                extend_to: 2_073_600,
            };
            &&& t.staker_calls.contains_key(who) ==> t.staker_calls[who].contains(call_id)
            &&& before.contains(call_id) ==> t.staker_calls == s.staker_calls && t.effects
                == s.effects + seq![touch]
            &&& !before.contains(call_id) ==> {
                &&& t.staker_calls.contains_key(who)
                &&& t.staker_calls[who] == before + seq![call_id]
                &&& t.effects == s.effects + seq![
                    RegistryEffect::Save(DataKey::StakerCalls(who)),
                    touch,
                ]
            }
            &&& forall|other: Address|
                other != who ==> (#[trigger] t.staker_calls.contains_key(other))
                    == s.staker_calls.contains_key(other)
            &&& forall|other: Address|
                other != who && s.staker_calls.contains_key(other) ==> (
                #[trigger] t.staker_calls[other]) == s.staker_calls[other]
            &&& t == (RegistryState { staker_calls: t.staker_calls, effects: t.effects, ..s })
        }),
{
    let t = s.after_add_staker_call(who, call_id);
    let before = if s.staker_calls.contains_key(who) {
        s.staker_calls[who]
    } else {
        Seq::<u64>::empty()
    };
    if !before.contains(call_id) {
        assert(t.staker_calls[who] =~= before + seq![call_id]);
        assert(t.staker_calls[who][before.len() as int] == call_id);
    }
}

/// The registry is initialized if it has no configuration and the administrator authorizes it. It
/// then has the two addresses that were given and no fee, and says so.
pub proof fn law_initialize(s: RegistryState, admin: Address, outcome_manager: Address)
    ensures
        s.initialize_error(admin) is None <==> s.config is None && s.authorized.contains(admin),
        s.initialize_error(admin) == Some(RegistryError::AlreadyInitialized) <==> s.config is Some,
        s.initialize_error(admin) == Some(RegistryError::Unauthorized) <==> s.config is None
            && !s.authorized.contains(admin),
        ({
            let t = s.after_initialize(admin, outcome_manager);
            &&& t.config is Some
            &&& t.config->0.admin == admin
            &&& t.config->0.outcome_manager == outcome_manager
            &&& t.config->0.fee_bps == 0
            &&& t.effects == s.effects + seq![
                RegistryEffect::Save(DataKey::Config),
                RegistryEffect::ExtendInstanceTtl { threshold: 60_480, extend_to: 120_960 },
                RegistryEffect::Publish(RegistryEvent::Initialized { admin, outcome_manager }),
            ]
            &&& t == (RegistryState { config: t.config, effects: t.effects, ..s })
        }),
{
}

/// A call is created if its creator authorizes it, its stake is positive, it ends later than now
/// and there is a number left.
pub proof fn law_create_is_granted(
    s: RegistryState,
    creator: Address,
    stake_amount: i128,
    end_ts: u64,
)
    ensures
        ({
            let auth = s.authorized.contains(creator);
            let full = s.call_counter == Some(0xffff_ffff_ffff_ffffu64);
            let error = s.create_error(creator, stake_amount, end_ts);
            &&& error is None <==> auth && stake_amount > 0 && end_ts > s.timestamp && !full
            &&& error == Some(RegistryError::Unauthorized) <==> !auth
            &&& error == Some(RegistryError::StakeNotPositive) <==> auth && stake_amount <= 0
            &&& error == Some(RegistryError::EndNotInFuture) <==> auth && stake_amount > 0
                && end_ts <= s.timestamp
            &&& error == Some(RegistryError::Overflow) <==> auth && stake_amount > 0 && end_ts
                > s.timestamp && full
        }),
{
}

/// A new call has the terms that were given, field by field, and nothing staked on it and no
/// outcome. It is stored under the next number, and announced with its terms; no other call
/// changes.
pub proof fn law_created_call_has_given_terms(
    s: RegistryState,
    creator: Address,
    stake_token: Address,
    stake_amount: i128,
    end_ts: u64,
    token_address: Address,
    pair_id: Seq<u8>,
    ipfs_cid: Seq<u8>,
    condition: ConditionType,
)
    requires
        s.call_counter != Some(0xffff_ffff_ffff_ffffu64),
    ensures
        ({
            let call = s.new_call(
                creator,
                stake_token,
                stake_amount,
                end_ts,
                token_address,
                pair_id,
                ipfs_cid,
                condition,
            );
            let t = s.after_create_call(call);
            let number = 1 + (match s.call_counter {
                Some(n) => n as int,
                None => 0,
            });
            let id = number as u64;
            &&& t.call_counter == Some(id)
            &&& call.id == number
            &&& t.calls.contains_key(id)
            &&& t.calls[id] == call
            &&& call.creator == creator
            &&& call.stake_token == stake_token
            &&& call.stake_amount == stake_amount
            &&& call.end_ts == end_ts
            &&& call.token_address == token_address
            &&& call.pair_id == pair_id
            &&& call.ipfs_cid == ipfs_cid
            &&& call.condition == condition
            &&& call.created_at == s.timestamp
            &&& call.total_up_stake == 0
            &&& call.total_down_stake == 0
            &&& call.up_stakes.dom() == Set::<(bool, u128, u128)>::empty()
            &&& call.down_stakes.dom() == Set::<(bool, u128, u128)>::empty()
            &&& call.outcome == 0
            &&& call.start_price == 0
            &&& call.end_price == 0
            &&& !call.settled
            &&& forall|other: u64|
                other != id ==> (#[trigger] t.calls.contains_key(other)) == s.calls.contains_key(
                    other,
                )
            &&& forall|other: u64|
                other != id && s.calls.contains_key(other) ==> (#[trigger] t.calls[other])
                    == s.calls[other]
            &&& t.effects == s.effects + seq![
                RegistryEffect::Save(DataKey::CallCounter),
                RegistryEffect::Save(DataKey::Call(id)),
                RegistryEffect::ExtendTtl {
                    key: DataKey::Call(id),
                    threshold: 1_036_800,
                    extend_to: 2_073_600,
                },
                RegistryEffect::ExtendInstanceTtl { threshold: 60_480, extend_to: 120_960 },
                RegistryEffect::Publish(
                    RegistryEvent::CallCreated {
                        call_id: id,
                        creator,
                        stake_token,
                        stake_amount,
                        end_ts,
                        token_address,
                        pair_id,
                        ipfs_cid,
                    },
                ),
            ]
            &&& t == (RegistryState {
                call_counter: t.call_counter,
                calls: t.calls,
                effects: t.effects,
                ..s
            })
        }),
{
}

/// A stake is granted if the staker authorizes it, it is positive, the call is there, has not
/// ended and is not settled, the position is 1 or 2, and the new sums and entries fit.
pub proof fn law_stake_is_granted(
    s: RegistryState,
    staker: Address,
    call_id: u64,
    amount: i128,
    position: u32,
)
    ensures
        ({
            let key = (staker.is_contract, staker.id.hi, staker.id.lo);
            let call = s.calls[call_id];
            let side = if position == 1 {
                call.up_stakes
            } else {
                call.down_stakes
            };
            let total = if position == 1 {
                call.total_up_stake
            } else {
                call.total_down_stake
            };
            let has = if side.contains_key(key) {
                side[key] as int
            } else {
                0
            };
            let auth = s.authorized.contains(staker);
            let found = s.calls.contains_key(call_id);
            let open = s.timestamp < call.end_ts;
            let placed = position == 1 || position == 2;
            let asked = auth && amount > 0 && found && open && !call.settled && placed;
            let fits = has + amount <= i128::MAX && total + amount <= i128::MAX;
            let room = side.contains_key(key) || side.len() < 0xffff_ffff;
            let listed = !s.staker_calls.contains_key(staker) || s.staker_calls[staker].contains(
                call_id,
            ) || s.staker_calls[staker].len() < 0xffff_ffff;
            let error = s.stake_error(staker, call_id, amount, position);
            &&& error is None <==> asked && fits && room && listed
            &&& error == Some(RegistryError::Unauthorized) <==> !auth
            &&& error == Some(RegistryError::StakeNotPositive) <==> auth && amount <= 0
            &&& error == Some(RegistryError::CallDoesNotExist) <==> auth && amount > 0 && !found
            &&& error == Some(RegistryError::CallEnded) <==> auth && amount > 0 && found && !open
            &&& error == Some(RegistryError::CallSettled) <==> auth && amount > 0 && found && open
                && call.settled
            &&& error == Some(RegistryError::InvalidPosition) <==> auth && amount > 0 && found
                && open && !call.settled && !placed
            &&& error == Some(RegistryError::Overflow) <==> asked && (has + amount > i128::MAX
                || room && total + amount > i128::MAX)
            &&& error == Some(RegistryError::TooManyEntries) <==> asked && has + amount
                <= i128::MAX && (!room || fits && !listed)
        }),
{
}

/// A stake is taken from the staker's own address, in the token of the call, and is the one
/// movement of tokens. It raises the staker's own entry and the total on the side of the
/// position, and nothing else of the call; the call is put into the staker's index unless it is
/// there. Other calls and other indexes stay.
pub proof fn law_stake_is_taken_from_staker(
    s: RegistryState,
    staker: Address,
    call_id: u64,
    amount: i128,
    position: u32,
)
    requires
        s.stake_error(staker, call_id, amount, position) is None,
        s.calls[call_id].id == call_id,
    ensures
        ({
            let key = (staker.is_contract, staker.id.hi, staker.id.lo);
            let t = s.after_stake(staker, call_id, amount, position);
            let before = s.calls[call_id];
            let after = t.calls[call_id];
            let up = position == 1;
            let index = if s.staker_calls.contains_key(staker) {
                s.staker_calls[staker]
            } else {
                Seq::<u64>::empty()
            };
            let touch = RegistryEffect::<Seq<u8>>::ExtendTtl {
                key: DataKey::Call(call_id),
                threshold: 1_036_800,
                extend_to: 2_073_600,
            };
            let taken = seq![
                touch,
                RegistryEffect::TransferIn { token: before.stake_token, from: staker, amount },
                RegistryEffect::Save(DataKey::Call(call_id)),
                touch,
            ];
            let indexed = if index.contains(call_id) {
                Seq::<RegistryEffect<Seq<u8>>>::empty()
            } else {
                seq![RegistryEffect::Save(DataKey::StakerCalls(staker))]
            };
            let told = seq![
                RegistryEffect::ExtendTtl {
                    key: DataKey::StakerCalls(staker),
                    threshold: 1_036_800,
                    extend_to: 2_073_600,
                },
                RegistryEffect::ExtendInstanceTtl { threshold: 60_480, extend_to: 120_960 },
                RegistryEffect::Publish(
                    RegistryEvent::StakeAdded { call_id, staker, amount, position },
                ),
            ];
            &&& position == 1 || position == 2
            &&& after == before.with_stake(staker, amount, StakePosition::of(position)->0)
            &&& up ==> {
                &&& after.up_stakes.contains_key(key)
                &&& before.up_stakes.contains_key(key) ==> after.up_stakes[key]
                    == before.up_stakes[key] + amount
                &&& !before.up_stakes.contains_key(key) ==> after.up_stakes[key] == amount
                &&& after.up_stakes.remove(key) == before.up_stakes.remove(key)
                &&& after.total_up_stake == before.total_up_stake + amount
                &&& after.down_stakes == before.down_stakes
                &&& after.total_down_stake == before.total_down_stake
            }
            &&& !up ==> {
                &&& after.down_stakes.contains_key(key)
                &&& before.down_stakes.contains_key(key) ==> after.down_stakes[key]
                    == before.down_stakes[key] + amount
                &&& !before.down_stakes.contains_key(key) ==> after.down_stakes[key] == amount
                &&& after.down_stakes.remove(key) == before.down_stakes.remove(key)
                &&& after.total_down_stake == before.total_down_stake + amount
                &&& after.up_stakes == before.up_stakes
                &&& after.total_up_stake == before.total_up_stake
            }
            &&& after == (CallState {
                up_stakes: after.up_stakes,
                down_stakes: after.down_stakes,
                total_up_stake: after.total_up_stake,
                total_down_stake: after.total_down_stake,
                ..before
            })
            &&& forall|id: u64|
                id != call_id ==> (#[trigger] t.calls.contains_key(id)) == s.calls.contains_key(id)
            &&& forall|id: u64|
                id != call_id && s.calls.contains_key(id) ==> (#[trigger] t.calls[id])
                    == s.calls[id]
            &&& t.calls.contains_key(call_id)
            &&& index.contains(call_id) ==> t.staker_calls == s.staker_calls
            &&& !index.contains(call_id) ==> t.staker_calls.contains_key(staker)
                && t.staker_calls[staker] == index + seq![call_id]
            &&& forall|other: Address|
                other != staker ==> (#[trigger] t.staker_calls.contains_key(other))
                    == s.staker_calls.contains_key(other)
            &&& forall|other: Address|
                other != staker && s.staker_calls.contains_key(other) ==> (
                #[trigger] t.staker_calls[other]) == s.staker_calls[other]
            &&& t.effects == s.effects + taken + indexed + told
            &&& t == (RegistryState {
                calls: t.calls,
                staker_calls: t.staker_calls,
                effects: t.effects,
                ..s
            })
        }),
{
}

/// An outcome is taken if the registry is initialized, its outcome manager authorizes it, the
/// call is there, the outcome is 1 or 2 and the call has ended.
pub proof fn law_resolve_is_granted(s: RegistryState, call_id: u64, outcome: u32)
    ensures
        ({
            let set_up = s.config is Some;
            let auth = set_up && s.authorized.contains(s.config->0.outcome_manager);
            let found = auth && s.calls.contains_key(call_id);
            let valid = found && (outcome == 1 || outcome == 2);
            let ended = s.timestamp >= s.calls[call_id].end_ts;
            let error = s.resolve_error(call_id, outcome);
            &&& error is None <==> valid && ended
            &&& error == Some(RegistryError::ContractNotInitialized) <==> !set_up
            &&& error == Some(RegistryError::Unauthorized) <==> set_up && !auth
            &&& error == Some(RegistryError::CallDoesNotExist) <==> auth && !found
            &&& error == Some(RegistryError::InvalidOutcome) <==> found && !valid
            &&& error == Some(RegistryError::CallNotEnded) <==> valid && !ended
        }),
{
}

/// A resolved call has the outcome and the price that were given, and is as before in all else;
/// it is saved and the outcome announced. No other call changes, and no tokens move.
pub proof fn law_resolve_sets_outcome(
    s: RegistryState,
    call_id: u64,
    outcome: u32,
    end_price: i128,
)
    requires
        s.calls.contains_key(call_id),
        s.calls[call_id].id == call_id,
    ensures
        ({
            let t = s.after_resolve(call_id, outcome, end_price);
            let before = s.calls[call_id];
            let after = t.calls[call_id];
            let touch = RegistryEffect::<Seq<u8>>::ExtendTtl {
                key: DataKey::Call(call_id),
                threshold: 1_036_800,
                extend_to: 2_073_600,
            };
            &&& after.outcome == outcome
            &&& after.end_price == end_price
            &&& after == (CallState { outcome: after.outcome, end_price: after.end_price, ..before })
            &&& t.calls.dom() == s.calls.dom()
            &&& forall|id: u64|
                id != call_id && s.calls.contains_key(id) ==> (#[trigger] t.calls[id])
                    == s.calls[id]
            &&& t.effects == s.effects + seq![
                touch,
                RegistryEffect::Save(DataKey::Call(call_id)),
                touch,
                RegistryEffect::ExtendInstanceTtl { threshold: 60_480, extend_to: 120_960 },
                RegistryEffect::Publish(
                    RegistryEvent::CallResolved { call_id, outcome, end_price },
                ),
            ]
            &&& t == (RegistryState { calls: t.calls, effects: t.effects, ..s })
        }),
{
}

/// The outcome manager's requests about a call are granted if the registry is initialized, the
/// outcome manager authorizes them and the call is there; a call is settled only if it is not.
pub proof fn law_manager_is_granted(s: RegistryState, call_id: u64)
    ensures
        ({
            let set_up = s.config is Some;
            let auth = set_up && s.authorized.contains(s.config->0.outcome_manager);
            let found = auth && s.calls.contains_key(call_id);
            let settled = s.calls[call_id].settled;
            let pay = s.manager_error(call_id);
            let settle = s.mark_settled_error(call_id);
            &&& pay is None <==> found
            &&& pay == Some(RegistryError::NotInitialized) <==> !set_up
            &&& pay == Some(RegistryError::Unauthorized) <==> set_up && !auth
            &&& pay == Some(RegistryError::CallNotFound) <==> auth && !found
            &&& settle is None <==> found && !settled
            &&& settle == Some(RegistryError::NotInitialized) <==> !set_up
            &&& settle == Some(RegistryError::Unauthorized) <==> set_up && !auth
            &&& settle == Some(RegistryError::CallNotFound) <==> auth && !found
            &&& settle == Some(RegistryError::AlreadySettled) <==> found && settled
        }),
{
}

/// A release pays the amount to the address that was given, in the token of the call, and is the
/// one movement of tokens. No entry changes.
pub proof fn law_release_pays_the_given_address(
    s: RegistryState,
    call_id: u64,
    to: Address,
    amount: i128,
)
    requires
        s.calls.contains_key(call_id),
    ensures
        ({
            let t = s.after_release(call_id, to, amount);
            &&& t.effects == s.effects + seq![
                RegistryEffect::ExtendTtl {
                    key: DataKey::Call(call_id),
                    threshold: 1_036_800,
                    extend_to: 2_073_600,
                },
                RegistryEffect::TransferOut { token: s.calls[call_id].stake_token, to, amount },
            ]
            &&& t == (RegistryState { effects: t.effects, ..s })
        }),
{
}

/// A call that is marked as settled is settled, and as before in all else; it is saved. No other
/// call changes, and no tokens move.
pub proof fn law_settling_settles_one_call(s: RegistryState, call_id: u64)
    requires
        s.calls.contains_key(call_id),
        s.calls[call_id].id == call_id,
    ensures
        ({
            let t = s.after_mark_settled(call_id);
            let before = s.calls[call_id];
            let after = t.calls[call_id];
            let touch = RegistryEffect::<Seq<u8>>::ExtendTtl {
                key: DataKey::Call(call_id),
                threshold: 1_036_800,
                extend_to: 2_073_600,
            };
            &&& after.settled
            &&& after == (CallState { settled: after.settled, ..before })
            &&& t.calls.dom() == s.calls.dom()
            &&& forall|id: u64|
                id != call_id && s.calls.contains_key(id) ==> (#[trigger] t.calls[id])
                    == s.calls[id]
            &&& t.effects == s.effects + seq![
                touch,
                RegistryEffect::Save(DataKey::Call(call_id)),
                touch,
            ]
            &&& t == (RegistryState { calls: t.calls, effects: t.effects, ..s })
        }),
{
}

/// The administrator's requests are granted if the registry is initialized and its administrator
/// authorizes them, and a fee only if it is at most 10000 basis points.
pub proof fn law_admin_is_granted(s: RegistryState, new_fee_bps: u32)
    ensures
        ({
            let set_up = s.config is Some;
            let auth = set_up && s.authorized.contains(s.config->0.admin);
            let change = s.admin_error();
            let fee = s.set_fee_error(new_fee_bps);
            &&& change is None <==> auth
            &&& change == Some(RegistryError::ContractNotInitialized) <==> !set_up
            &&& change == Some(RegistryError::Unauthorized) <==> set_up && !auth
            &&& fee is None <==> auth && new_fee_bps <= 10_000
            &&& fee == Some(RegistryError::ContractNotInitialized) <==> !set_up
            &&& fee == Some(RegistryError::Unauthorized) <==> set_up && !auth
            &&& fee == Some(RegistryError::FeeTooHigh) <==> auth && new_fee_bps > 10_000
        }),
{
}

/// Each of the administrator's requests sets the one thing that it is about to what was given,
/// and announces the old and the new.
pub proof fn law_admin_changes_one_thing(
    s: RegistryState,
    new_admin: Address,
    new_manager: Address,
    new_fee_bps: u32,
)
    requires
        s.config is Some,
    ensures
        ({
            let old = s.config->0;
            let by_admin = s.after_set_admin(new_admin);
            let by_manager = s.after_set_outcome_manager(new_manager);
            let by_fee = s.after_set_fee(new_fee_bps);
            let saved = seq![
                RegistryEffect::<Seq<u8>>::Save(DataKey::Config),
                RegistryEffect::ExtendInstanceTtl { threshold: 60_480, extend_to: 120_960 },
            ];
            &&& by_admin.config is Some && by_manager.config is Some && by_fee.config is Some
            &&& by_admin.config->0.admin == new_admin
            &&& by_admin.config->0.outcome_manager == old.outcome_manager
            &&& by_admin.config->0.fee_bps == old.fee_bps
            &&& by_manager.config->0.admin == old.admin
            &&& by_manager.config->0.outcome_manager == new_manager
            &&& by_manager.config->0.fee_bps == old.fee_bps
            &&& by_fee.config->0.admin == old.admin
            &&& by_fee.config->0.outcome_manager == old.outcome_manager
            &&& by_fee.config->0.fee_bps == new_fee_bps
            &&& by_admin.effects == s.effects + saved + seq![
                RegistryEffect::Publish(
                    RegistryEvent::AdminParamsChanged(
                        AdminChange::Admin { old_admin: old.admin, new_admin },
                    ),
                ),
            ]
            &&& by_manager.effects == s.effects + saved + seq![
                RegistryEffect::Publish(
                    RegistryEvent::AdminParamsChanged(
                        AdminChange::OutcomeManager {
                            old_manager: old.outcome_manager,
                            new_manager,
                        },
                    ),
                ),
            ]
            &&& by_fee.effects == s.effects + saved + seq![
                RegistryEffect::Publish(
                    RegistryEvent::AdminParamsChanged(
                        AdminChange::FeeBps { old_fee_bps: old.fee_bps, new_fee_bps },
                    ),
                ),
            ]
            &&& by_admin == (RegistryState {
                config: by_admin.config,
                effects: by_admin.effects,
                ..s
            })
            &&& by_manager == (RegistryState {
                config: by_manager.config,
                effects: by_manager.effects,
                ..s
            })
            &&& by_fee == (RegistryState { config: by_fee.config, effects: by_fee.effects, ..s })
        }),
{
}

/// A question about a stake is answered if the call is there and the position is 1 or 2, and one
/// about the statistics of a call if it is there and its stakers can be counted.
pub proof fn law_questions_are_granted(s: RegistryState, call_id: u64, position: u32)
    ensures
        ({
            let found = s.calls.contains_key(call_id);
            let placed = position == 1 || position == 2;
            let stakers = s.calls[call_id].up_stakes.len() + s.calls[call_id].down_stakes.len();
            let stake = s.staker_stake_error(call_id, position);
            let stats = s.stats_error(call_id);
            &&& stake is None <==> found && placed
            &&& stake == Some(RegistryError::CallDoesNotExist) <==> !found
            &&& stake == Some(RegistryError::UnknownPosition) <==> found && !placed
            &&& stats is None <==> found && stakers <= 0xffff_ffff
            &&& stats == Some(RegistryError::CallDoesNotExist) <==> !found
            &&& stats == Some(RegistryError::Overflow) <==> found && stakers > 0xffff_ffff
        }),
{
}

/// Each refusal has the text that names its reason.
pub proof fn law_refusals_have_texts()
    ensures
        RegistryError::Unauthorized.text() == "Unauthorized"@,
        RegistryError::AlreadyInitialized.text() == "Contract already initialized"@,
        RegistryError::ContractNotInitialized.text() == "Contract not initialized"@,
        RegistryError::NotInitialized.text() == "Not initialized"@,
        RegistryError::StakeNotPositive.text() == "Stake amount must be positive"@,
        RegistryError::EndNotInFuture.text() == "End timestamp must be in the future"@,
        RegistryError::CallDoesNotExist.text() == "Call does not exist"@,
        RegistryError::CallNotFound.text() == "Call not found"@,
        RegistryError::CallEnded.text() == "Call has ended"@,
        RegistryError::CallSettled.text() == "Call has been settled"@,
        RegistryError::InvalidPosition.text() == "Invalid position: must be 1 (UP) or 2 (DOWN)"@,
        RegistryError::UnknownPosition.text() == "Invalid position"@,
        RegistryError::InvalidOutcome.text() == "Invalid outcome: must be 1 (UP) or 2 (DOWN)"@,
        RegistryError::CallNotEnded.text() == "Call has not ended yet"@,
        RegistryError::AlreadySettled.text() == "Already settled"@,
        RegistryError::FeeTooHigh.text() == "Fee must not exceed 10000 basis points"@,
{
}

} // verus!
