//! What holds of the registry, whatever is asked of it.
//!
//! No entry of the registry is temporary: one that runs out of ledgers to live is archived, and
//! has to be restored, as it was, before anything can read it again.

use vstd::prelude::*;
use crate::address::Address;
use crate::call_registry::admin::MAX_FEE_BPS;
use crate::call_registry::behaviour::law_reads_of_calls;
use crate::call_registry::condition::{condition_computable, condition_met};
use crate::call_registry::contract::stake_in;
use crate::call_registry::listing::{
    calls_of, first_id, lemma_reads_keep_entries, lemma_search_end_range, listed, listed_ids,
    page_size, search_end, stored, stored_ids,
};
use crate::call_registry::storage::{DataKey, RegistryEffect, RegistryState};
use crate::call_registry::types::{CallState, ConditionType, RegistryError, StakePosition};
use crate::sums::{lemma_sum_insert, sum_of};

verus! {

/// Something that is asked of the registry and may change what it stores.
pub enum Request {
    Initialize { admin: Address, outcome_manager: Address },
    CreateCall {
        creator: Address,
        stake_token: Address,
        stake_amount: i128,
        end_ts: u64,
        token_address: Address,
        pair_id: Seq<u8>,
        ipfs_cid: Seq<u8>,
        condition: ConditionType,
    },
    StakeOnCall { staker: Address, call_id: u64, amount: i128, position: u32 },
    ResolveCall { call_id: u64, outcome: u32, end_price: i128 },
    SetAdmin { new_admin: Address },
    SetOutcomeManager { new_manager: Address },
    SetFee { new_fee_bps: u32 },
    ReleaseEscrow { call_id: u64, to: Address, amount: i128 },
    MarkSettled { call_id: u64 },
    ExtendCallTtl { call_id: u64 },
    GetCalls { ids: Seq<u64> },
    GetStakerCalls { staker: Address },
}

/// The stakes on one side of a call, all positive, add up to the total that the call shows.
pub open spec fn adds_up(stakes: Map<(bool, u128, u128), i128>, total: i128) -> bool {
    &&& stakes.dom().finite()
    &&& forall|key: (bool, u128, u128)| #[trigger] stakes.contains_key(key) ==> stakes[key] > 0
    &&& sum_of(stakes) == total
}

impl CallState {
    /// The call is what a call of that number can be.
    pub open spec fn sound(self, id: u64) -> bool {
        &&& self.id == id
        &&& self.stake_amount > 0
        &&& self.created_at < self.end_ts
        &&& self.outcome <= 2
        &&& adds_up(self.up_stakes, self.total_up_stake)
        &&& adds_up(self.down_stakes, self.total_down_stake)
    }

    /// Whether an address has a stake on either side.
    pub open spec fn has_staker(self, staker: Address) -> bool {
        self.up_stakes.contains_key(staker.key()) || self.down_stakes.contains_key(staker.key())
    }

    /// What stays of a call for good.
    pub open spec fn same_terms(self, other: CallState) -> bool {
        &&& self.id == other.id
        &&& self.creator == other.creator
        &&& self.stake_token == other.stake_token
        &&& self.stake_amount == other.stake_amount
        &&& self.end_ts == other.end_ts
        &&& self.token_address == other.token_address
        &&& self.pair_id == other.pair_id
        &&& self.ipfs_cid == other.ipfs_cid
        &&& self.start_price == other.start_price
        &&& self.condition == other.condition
        &&& self.created_at == other.created_at
    }
}

impl RegistryState {
    /// The calls are numbered from one without a gap, each is sound, the index of each staker
    /// lists the calls staked on and lists them once, and the fee is within bounds.
    pub open spec fn consistent(self) -> bool {
        &&& forall|id: u64| #[trigger] self.calls.contains_key(id) <==> 1 <= id <= self.count()
        &&& forall|id: u64| #[trigger] self.calls.contains_key(id) ==> self.calls[id].sound(id)
        &&& forall|staker: Address| (#[trigger] self.staked_on(staker)).no_duplicates()
        &&& forall|staker: Address, id: u64|
            #[trigger] self.staked_on(staker).contains(id) <==> self.calls.contains_key(id)
                && self.calls[id].has_staker(staker)
        &&& self.config matches Some(config) ==> config.fee_bps <= MAX_FEE_BPS
    }

    /// The same ledger, later, with another invocation.
    pub open spec fn at(self, timestamp: u64, authorized: Seq<Address>) -> RegistryState {
        RegistryState { timestamp, authorized, ..self }
    }

    /// Why a request is refused, if it is.
    pub open spec fn error(self, request: Request) -> Option<RegistryError> {
        match request {
            Request::Initialize { admin, .. } => self.initialize_error(admin),
            Request::CreateCall { creator, stake_amount, end_ts, .. } => self.create_error(
                creator,
                stake_amount,
                end_ts,
            ),
            Request::StakeOnCall { staker, call_id, amount, position } => self.stake_error(
                staker,
                call_id,
                amount,
                position,
            ),
            Request::ResolveCall { call_id, outcome, .. } => self.resolve_error(call_id, outcome),
            Request::SetAdmin { .. } => self.admin_error(),
            Request::SetOutcomeManager { .. } => self.admin_error(),
            Request::SetFee { new_fee_bps } => self.set_fee_error(new_fee_bps),
            Request::ReleaseEscrow { call_id, .. } => self.manager_error(call_id),
            Request::MarkSettled { call_id } => self.mark_settled_error(call_id),
            Request::ExtendCallTtl { call_id } => if self.calls.contains_key(call_id) {
                None
            } else {
                Some(RegistryError::CallDoesNotExist)
            },
            Request::GetCalls { .. } => None,
            Request::GetStakerCalls { .. } => None,
        }
    }

    /// The state behind a request that is granted.
    pub open spec fn granted(self, request: Request) -> RegistryState {
        match request {
            Request::Initialize { admin, outcome_manager } => self.after_initialize(
                admin,
                outcome_manager,
            ),
            Request::CreateCall {
                creator,
                stake_token,
                stake_amount,
                end_ts,
                token_address,
                pair_id,
                ipfs_cid,
                condition,
            } => self.after_create_call(
                self.new_call(
                    creator,
                    stake_token,
                    stake_amount,
                    end_ts,
                    token_address,
                    pair_id,
                    ipfs_cid,
                    condition,
                ),
            ),
            Request::StakeOnCall { staker, call_id, amount, position } => self.after_stake(
                staker,
                call_id,
                amount,
                position,
            ),
            Request::ResolveCall { call_id, outcome, end_price } => self.after_resolve(
                call_id,
                outcome,
                end_price,
            ),
            Request::SetAdmin { new_admin } => self.after_set_admin(new_admin),
            Request::SetOutcomeManager { new_manager } => self.after_set_outcome_manager(
                new_manager,
            ),
            Request::SetFee { new_fee_bps } => self.after_set_fee(new_fee_bps),
            Request::ReleaseEscrow { call_id, to, amount } => self.after_release(
                call_id,
                to,
                amount,
            ),
            Request::MarkSettled { call_id } => self.after_mark_settled(call_id),
            Request::ExtendCallTtl { call_id } => self.after_touch(DataKey::Call(call_id)),
            Request::GetCalls { ids } => self.after_reads(ids),
            Request::GetStakerCalls { staker } => self.after_get_staker_calls(staker).after_reads(
                self.staked_on(staker),
            ),
        }
    }

    /// The state behind a request: a request that is refused changes nothing.
    pub open spec fn next(self, request: Request) -> RegistryState {
        if self.error(request) is None {
            self.granted(request)
        } else {
            self
        }
    }

    /// The state behind a history of requests, each at its time and with its authorizations.
    pub open spec fn run(self, history: Seq<(u64, Seq<Address>, Request)>) -> RegistryState
        decreases history.len(),
    {
        if history.len() == 0 {
            self
        } else {
            let (timestamp, authorized, request) = history.last();
            self.run(history.drop_last()).at(timestamp, authorized).next(request)
        }
    }
}

/// An address is found again by its key.
pub proof fn lemma_key_injective(a: Address, b: Address)
    requires
        a.key() == b.key(),
    ensures
        a == b,
{
}

/// A ledger without entries is consistent.
pub proof fn law_empty_is_consistent(s: RegistryState)
    requires
        s.config is None,
        s.call_counter is None,
        s.calls == Map::<u64, CallState>::empty(),
        s.staker_calls == Map::<Address, Seq<u64>>::empty(),
    ensures
        s.consistent(),
{
}

/// A consistent registry stays consistent, whatever is asked of it.
pub proof fn law_requests_keep_consistent(s: RegistryState, request: Request)
    requires
        s.consistent(),
    ensures
        s.next(request).consistent(),
{
    if s.error(request) is None {
        match request {
            Request::CreateCall {
                creator,
                stake_token,
                stake_amount,
                end_ts,
                token_address,
                pair_id,
                ipfs_cid,
                condition,
            } => {
                let call = s.new_call(
                    creator,
                    stake_token,
                    stake_amount,
                    end_ts,
                    token_address,
                    pair_id,
                    ipfs_cid,
                    condition,
                );
                lemma_create_keeps_consistent(s, call);
            },
            Request::StakeOnCall { staker, call_id, amount, position } => {
                lemma_stake_keeps_consistent(s, staker, call_id, amount, position);
            },
            Request::ResolveCall { call_id, outcome, end_price } => {
                let call = CallState { outcome, end_price, ..s.calls[call_id] };
                lemma_update_keeps_consistent(s, call_id, call, s.next(request));
            },
            Request::MarkSettled { call_id } => {
                let call = CallState { settled: true, ..s.calls[call_id] };
                lemma_update_keeps_consistent(s, call_id, call, s.next(request));
            },
            Request::GetCalls { ids } => {
                lemma_reads_keep_entries(s, ids);
                lemma_same_entries_consistent(s, s.next(request));
            },
            Request::GetStakerCalls { staker } => {
                lemma_reads_keep_entries(s.after_get_staker_calls(staker), s.staked_on(staker));
                lemma_same_entries_consistent(s, s.next(request));
            },
            _ => {
                lemma_same_entries_consistent(s, s.next(request));
            },
        }
    }
}

/// After any history of requests, a registry that starts out consistent is consistent.
pub proof fn law_history_keeps_consistent(
    s: RegistryState,
    history: Seq<(u64, Seq<Address>, Request)>,
)
    requires
        s.consistent(),
    ensures
        s.run(history).consistent(),
    decreases history.len(),
{
    if history.len() > 0 {
        let (timestamp, authorized, request) = history.last();
        let before = s.run(history.drop_last());
        law_history_keeps_consistent(s, history.drop_last());
        lemma_same_entries_consistent(before, before.at(timestamp, authorized));
        law_requests_keep_consistent(before.at(timestamp, authorized), request);
    }
}

/// Consistency is a matter of the calls, the index and the fee.
proof fn lemma_same_entries_consistent(s: RegistryState, t: RegistryState)
    requires
        s.consistent(),
        t.calls == s.calls,
        t.call_counter == s.call_counter,
        t.staker_calls == s.staker_calls,
        t.config matches Some(config) ==> config.fee_bps <= MAX_FEE_BPS,
    ensures
        t.consistent(),
{
    assert forall|staker: Address| (#[trigger] t.staked_on(staker)) == s.staked_on(staker) by {}
}

proof fn lemma_create_keeps_consistent(s: RegistryState, call: CallState)
    requires
        s.consistent(),
        s.count() < u64::MAX,
        call.sound((s.count() + 1) as u64),
        call.up_stakes == Map::<(bool, u128, u128), i128>::empty(),
        call.down_stakes == Map::<(bool, u128, u128), i128>::empty(),
    ensures
        s.after_create_call(call).consistent(),
{
    let t = s.after_create_call(call);
    assert(t.calls == s.calls.insert(call.id, call));
    assert(!s.calls.contains_key(call.id));
    assert forall|staker: Address| (#[trigger] t.staked_on(staker)) == s.staked_on(staker) by {}
    assert forall|staker: Address, id: u64|
        #[trigger] t.staked_on(staker).contains(id) <==> t.calls.contains_key(id)
            && t.calls[id].has_staker(staker) by {
        assert(s.staked_on(staker).contains(id) <==> s.calls.contains_key(id)
            && s.calls[id].has_staker(staker));
    }
}

proof fn lemma_update_keeps_consistent(
    s: RegistryState,
    call_id: u64,
    call: CallState,
    t: RegistryState,
)
    requires
        s.consistent(),
        s.calls.contains_key(call_id),
        call.sound(call_id),
        call.up_stakes == s.calls[call_id].up_stakes,
        call.down_stakes == s.calls[call_id].down_stakes,
        t.calls == s.calls.insert(call_id, call),
        t.call_counter == s.call_counter,
        t.staker_calls == s.staker_calls,
        t.config == s.config,
    ensures
        t.consistent(),
{
    assert forall|staker: Address| (#[trigger] t.staked_on(staker)) == s.staked_on(staker) by {}
    assert forall|staker: Address, id: u64|
        #[trigger] t.staked_on(staker).contains(id) <==> t.calls.contains_key(id)
            && t.calls[id].has_staker(staker) by {
        assert(s.staked_on(staker).contains(id) <==> s.calls.contains_key(id)
            && s.calls[id].has_staker(staker));
    }
}

/// A stake that is added keeps the side that it is added to adding up.
proof fn lemma_stake_adds_up(
    stakes: Map<(bool, u128, u128), i128>,
    total: i128,
    staker: Address,
    amount: i128,
)
    requires
        adds_up(stakes, total),
        amount > 0,
        stake_in(stakes, staker) + amount <= i128::MAX,
        total + amount <= i128::MAX,
    ensures
        adds_up(
            stakes.insert(staker.key(), (stake_in(stakes, staker) + amount) as i128),
            (total + amount) as i128,
        ),
{
    lemma_sum_insert(
        stakes,
        |value: i128| value as int,
        staker.key(),
        (stake_in(stakes, staker) + amount) as i128,
    );
}

proof fn lemma_stake_keeps_consistent(
    s: RegistryState,
    staker: Address,
    call_id: u64,
    amount: i128,
    position: u32,
)
    requires
        s.consistent(),
        s.stake_error(staker, call_id, amount, position) is None,
    ensures
        s.after_stake(staker, call_id, amount, position).consistent(),
{
    let t = s.after_stake(staker, call_id, amount, position);
    let side = StakePosition::of(position)->0;
    let old_call = s.calls[call_id];
    let call = old_call.with_stake(staker, amount, side);
    lemma_stake_adds_up(old_call.stakes(side), old_call.total(side), staker, amount);
    assert(old_call.sound(call_id));
    assert(call.sound(call_id));
    assert(t.calls == s.calls.insert(call_id, call));
    let listed_before = s.staked_on(staker).contains(call_id);
    assert(t.staked_on(staker) == if listed_before {
        s.staked_on(staker)
    } else {
        s.staked_on(staker).push(call_id)
    });
    assert forall|who: Address| who != staker implies (#[trigger] t.staked_on(who))
        == s.staked_on(who) by {}
    assert forall|who: Address| (#[trigger] t.staked_on(who)).no_duplicates() by {
        assert(s.staked_on(who).no_duplicates());
    }
    assert forall|who: Address, id: u64|
        #[trigger] t.staked_on(who).contains(id) <==> t.calls.contains_key(id)
            && t.calls[id].has_staker(who) by {
        assert(s.staked_on(who).contains(id) <==> s.calls.contains_key(id)
            && s.calls[id].has_staker(who));
        if who == staker {
            lemma_push_contains(s.staked_on(staker), call_id, id);
        } else {
            assert(who.key() != staker.key()) by {
                if who.key() == staker.key() {
                    lemma_key_injective(who, staker);
                }
            }
        }
    }
}

proof fn lemma_push_contains(ids: Seq<u64>, last: u64, id: u64)
    ensures
        ids.push(last).contains(id) <==> ids.contains(id) || id == last,
{
    let longer = ids.push(last);
    assert(longer[ids.len() as int] == last);
    if ids.contains(id) {
        let i = choose|i: int| 0 <= i < ids.len() && ids[i] == id;
        assert(longer[i] == id);
    }
    if longer.contains(id) && id != last {
        let i = choose|i: int| 0 <= i < longer.len() && longer[i] == id;
        assert(ids[i] == id);
    }
}

/// Whatever is asked of a consistent registry, it keeps its configuration, its calls and their
/// terms; a call that is settled stays settled, and no stake and no total goes down.
pub proof fn law_requests_keep_calls(s: RegistryState, request: Request)
    requires
        s.consistent(),
    ensures
        s.config is Some ==> s.next(request).config is Some,
        s.count() <= s.next(request).count(),
        forall|id: u64|
            #![trigger s.next(request).calls[id]]
            s.calls.contains_key(id) ==> {
                let before = s.calls[id];
                let after = s.next(request).calls[id];
                &&& s.next(request).calls.contains_key(id)
                &&& after.same_terms(before)
                &&& before.settled ==> after.settled
                &&& before.total_up_stake <= after.total_up_stake
                &&& before.total_down_stake <= after.total_down_stake
            },
        forall|id: u64, who: Address, side: StakePosition|
            #![trigger stake_in(s.next(request).calls[id].stakes(side), who)]
            s.calls.contains_key(id) ==> stake_in(s.calls[id].stakes(side), who) <= stake_in(
                s.next(request).calls[id].stakes(side),
                who,
            ),
{
    let t = s.next(request);
    if s.error(request) is None {
        match request {
            Request::CreateCall { .. } => {
                assert(!s.calls.contains_key((s.count() + 1) as u64));
            },
            Request::StakeOnCall { staker, call_id, amount, position } => {
                let side = StakePosition::of(position)->0;
                assert(s.calls[call_id].sound(call_id));
                assert(t.calls == s.calls.insert(
                    call_id,
                    s.calls[call_id].with_stake(staker, amount, side),
                ));
            },
            Request::ResolveCall { call_id, .. } => {
                assert(s.calls[call_id].sound(call_id));
            },
            Request::MarkSettled { call_id } => {
                assert(s.calls[call_id].sound(call_id));
            },
            Request::GetCalls { ids } => {
                lemma_reads_keep_entries(s, ids);
            },
            Request::GetStakerCalls { staker } => {
                lemma_reads_keep_entries(s.after_get_staker_calls(staker), s.staked_on(staker));
            },
            _ => {},
        }
    }
}

/// Reading calls changes no entry.
pub proof fn law_reading_changes_no_entry(s: RegistryState, ids: Seq<u64>)
    ensures
        s.after_reads(ids).calls == s.calls,
        s.after_reads(ids).call_counter == s.call_counter,
        s.after_reads(ids).config == s.config,
        s.after_reads(ids).staker_calls == s.staker_calls,
{
    lemma_reads_keep_entries(s, ids);
}

/// A registry that has its configuration is never initialized again, whatever is asked in
/// between.
pub proof fn law_initialized_once(
    s: RegistryState,
    history: Seq<(u64, Seq<Address>, Request)>,
    admin: Address,
)
    requires
        s.consistent(),
        s.config is Some,
    ensures
        s.run(history).config is Some,
        s.run(history).initialize_error(admin) == Some(RegistryError::AlreadyInitialized),
    decreases history.len(),
{
    if history.len() > 0 {
        let (timestamp, authorized, request) = history.last();
        let earlier = history.drop_last();
        let before = s.run(earlier).at(timestamp, authorized);
        law_initialized_once(s, earlier, admin);
        law_history_keeps_consistent(s, earlier);
        lemma_same_entries_consistent(s.run(earlier), before);
        law_requests_keep_calls(before, request);
    }
}

/// A new call has a number of its own, the next one, and is found under it; every other call is
/// as it was.
pub proof fn law_created_call_is_found(
    s: RegistryState,
    creator: Address,
    stake_token: Address,
    stake_amount: i128,
    end_ts: u64,
    token_address: Address,
    pair_id: Seq<u8>,
    ipfs_cid: Seq<u8>,
    condition: ConditionType,
)
    requires
        s.consistent(),
        s.create_error(creator, stake_amount, end_ts) is None,
    ensures
        ({
            let call = s.new_call(
                creator,
                stake_token,
                stake_amount,
                end_ts,
                token_address,
                pair_id,
                ipfs_cid,
                condition,
            );
            let t = s.after_create_call(call);
            &&& call.id == s.count() + 1
            &&& t.count() == s.count() + 1
            &&& !s.calls.contains_key(call.id)
            &&& t.calls.contains_key(call.id)
            &&& t.calls[call.id] == call
            &&& forall|id: u64| #[trigger]
                s.calls.contains_key(id) ==> t.calls.contains_key(id) && t.calls[id] == s.calls[id]
        }),
{
}

/// A stake raises what the staker has on that side, and the total of that side, by its amount.
/// What others have, the other side and the other calls stay as they are, and the call is in the
/// staker's index.
pub proof fn law_stake_adds_exactly(
    s: RegistryState,
    staker: Address,
    call_id: u64,
    amount: i128,
    position: u32,
)
    requires
        s.consistent(),
        s.stake_error(staker, call_id, amount, position) is None,
    ensures
        ({
            let side = StakePosition::of(position)->0;
            let before = s.calls[call_id];
            let t = s.after_stake(staker, call_id, amount, position);
            let after = t.calls[call_id];
            &&& stake_in(after.stakes(side), staker) == stake_in(before.stakes(side), staker)
                + amount
            &&& after.total(side) == before.total(side) + amount
            &&& forall|who: Address| #![trigger who.key()]
                who != staker ==> stake_in(after.stakes(side), who) == stake_in(
                    before.stakes(side),
                    who,
                )
            &&& forall|other: StakePosition|
                other != side ==> #[trigger] after.stakes(other) == before.stakes(other)
                    && after.total(other) == before.total(other)
            &&& forall|id: u64|
                id != call_id && s.calls.contains_key(id) ==> #[trigger] t.calls[id] == s.calls[id]
            &&& t.staked_on(staker).contains(call_id)
        }),
{
    let t = s.after_stake(staker, call_id, amount, position);
    assert(s.calls[call_id].sound(call_id));
    lemma_push_contains(s.staked_on(staker), call_id, call_id);
    assert forall|who: Address| #![trigger who.key()] who != staker implies stake_in(
        t.calls[call_id].stakes(StakePosition::of(position)->0),
        who,
    ) == stake_in(s.calls[call_id].stakes(StakePosition::of(position)->0), who) by {
        if who.key() == staker.key() {
            lemma_key_injective(who, staker);
        }
    }
}

/// Staking again on a call that is in the staker's index leaves the index as it is.
pub proof fn law_index_lists_once(
    s: RegistryState,
    staker: Address,
    call_id: u64,
    amount: i128,
    position: u32,
)
    requires
        s.stake_error(staker, call_id, amount, position) is None,
        s.staked_on(staker).contains(call_id),
    ensures
        s.after_stake(staker, call_id, amount, position).staker_calls == s.staker_calls,
{
}

/// A stake that the registry granted.
pub struct Stake {
    pub staker: Address,
    pub call_id: u64,
    pub amount: i128,
    pub side: StakePosition,
}

impl RegistryState {
    /// The stake that a request adds, if it is one and is granted.
    pub open spec fn stake_granted(self, request: Request) -> Option<Stake> {
        match request {
            Request::StakeOnCall { staker, call_id, amount, position } => if self.stake_error(
                staker,
                call_id,
                amount,
                position,
            ) is None {
                Some(Stake { staker, call_id, amount, side: StakePosition::of(position)->0 })
            } else {
                None
            },
            _ => None,
        }
    }

    /// The stakes that are granted in a history of requests, in order.
    pub open spec fn stakes_granted(self, history: Seq<(u64, Seq<Address>, Request)>) -> Seq<Stake>
        decreases history.len(),
    {
        if history.len() == 0 {
            Seq::empty()
        } else {
            let (timestamp, authorized, request) = history.last();
            let before = self.run(history.drop_last()).at(timestamp, authorized);
            match before.stake_granted(request) {
                Some(stake) => self.stakes_granted(history.drop_last()).push(stake),
                None => self.stakes_granted(history.drop_last()),
            }
        }
    }

    /// What an address has staked on one side of a call; nothing if there is no such call.
    pub open spec fn stake_on(self, call_id: u64, who: Address, side: StakePosition) -> int {
        if self.calls.contains_key(call_id) {
            stake_in(self.calls[call_id].stakes(side), who) as int
        } else {
            0
        }
    }
}

/// The sum of the stakes of an address on one side of a call.
pub open spec fn amount_staked(
    stakes: Seq<Stake>,
    call_id: u64,
    who: Address,
    side: StakePosition,
) -> int
    decreases stakes.len(),
{
    if stakes.len() == 0 {
        0
    } else {
        let stake = stakes.last();
        amount_staked(stakes.drop_last(), call_id, who, side) + if stake.staker == who
            && stake.call_id == call_id && stake.side == side {
            stake.amount as int
        } else {
            0
        }
    }
}

/// The calls of the stakes of an address, stake by stake.
pub open spec fn calls_staked_on(stakes: Seq<Stake>, who: Address) -> Seq<u64> {
    stakes.filter(|stake: Stake| stake.staker == who).map_values(|stake: Stake| stake.call_id)
}

/// The numbers of a list, each at its first place only.
pub open spec fn first_places(ids: Seq<u64>) -> Seq<u64>
    decreases ids.len(),
{
    if ids.len() == 0 {
        Seq::empty()
    } else if ids.drop_last().contains(ids.last()) {
        first_places(ids.drop_last())
    } else {
        first_places(ids.drop_last()).push(ids.last())
    }
}

/// First places lose no number.
proof fn lemma_first_places_contains(ids: Seq<u64>, id: u64)
    ensures
        first_places(ids).contains(id) <==> ids.contains(id),
    decreases ids.len(),
{
    if ids.len() > 0 {
        let rest = ids.drop_last();
        lemma_first_places_contains(rest, id);
        lemma_push_contains(rest, ids.last(), id);
        lemma_push_contains(first_places(rest), ids.last(), id);
        assert(ids =~= rest.push(ids.last()));
    }
}

/// A list without repetition is its first places.
proof fn lemma_first_places_distinct(ids: Seq<u64>)
    requires
        ids.no_duplicates(),
    ensures
        first_places(ids) == ids,
    decreases ids.len(),
{
    if ids.len() > 0 {
        let rest = ids.drop_last();
        assert(!rest.contains(ids.last()));
        lemma_first_places_distinct(rest);
        assert(ids =~= rest.push(ids.last()));
    }
}

/// One more stake counts, if it is of the address.
proof fn lemma_calls_staked_push(stakes: Seq<Stake>, stake: Stake, who: Address)
    ensures
        calls_staked_on(stakes.push(stake), who) == if stake.staker == who {
            calls_staked_on(stakes, who).push(stake.call_id)
        } else {
            calls_staked_on(stakes, who)
        },
{
    reveal(Seq::filter);
    assert(stakes.push(stake).drop_last() =~= stakes);
    let own = stakes.filter(|stake: Stake| stake.staker == who);
    assert(own.push(stake).map_values(|stake: Stake| stake.call_id) =~= own.map_values(
        |stake: Stake| stake.call_id,
    ).push(stake.call_id));
}

/// What one request does to a stake: it is raised by the stake that the request adds, if it adds
/// one of that address on that side of that call, and else stays.
pub proof fn law_only_stakes_raise_stakes(
    s: RegistryState,
    request: Request,
    call_id: u64,
    who: Address,
    side: StakePosition,
)
    requires
        s.consistent(),
    ensures
        s.next(request).stake_on(call_id, who, side) == s.stake_on(call_id, who, side) + (
        match s.stake_granted(request) {
            Some(stake) => if stake.staker == who && stake.call_id == call_id && stake.side
                == side {
                stake.amount as int
            } else {
                0
            },
            None => 0,
        }),
{
    if s.error(request) is None {
        match request {
            Request::CreateCall { .. } => {
                assert(!s.calls.contains_key((s.count() + 1) as u64));
            },
            Request::StakeOnCall { staker, call_id: staked, .. } => {
                assert(s.calls[staked].sound(staked));
                if who.key() == staker.key() {
                    lemma_key_injective(who, staker);
                }
            },
            Request::ResolveCall { call_id: resolved, .. } => {
                assert(s.calls[resolved].sound(resolved));
            },
            Request::MarkSettled { call_id: settled } => {
                assert(s.calls[settled].sound(settled));
            },
            Request::GetCalls { ids } => {
                lemma_reads_keep_entries(s, ids);
            },
            Request::GetStakerCalls { staker } => {
                lemma_reads_keep_entries(s.after_get_staker_calls(staker), s.staked_on(staker));
            },
            _ => {},
        }
    }
}

/// After any history of requests, what an address has staked on one side of a call is what it had
/// before and the sum of the amounts that it was granted there.
pub proof fn law_stake_is_sum_of_granted(
    s: RegistryState,
    history: Seq<(u64, Seq<Address>, Request)>,
    call_id: u64,
    who: Address,
    side: StakePosition,
)
    requires
        s.consistent(),
    ensures
        s.run(history).stake_on(call_id, who, side) == s.stake_on(call_id, who, side)
            + amount_staked(s.stakes_granted(history), call_id, who, side),
    decreases history.len(),
{
    if history.len() > 0 {
        let (timestamp, authorized, request) = history.last();
        let earlier = history.drop_last();
        let before = s.run(earlier).at(timestamp, authorized);
        law_stake_is_sum_of_granted(s, earlier, call_id, who, side);
        law_history_keeps_consistent(s, earlier);
        lemma_same_entries_consistent(s.run(earlier), before);
        law_only_stakes_raise_stakes(before, request, call_id, who, side);
        if let Some(stake) = before.stake_granted(request) {
            assert(s.stakes_granted(earlier).push(stake).drop_last() =~= s.stakes_granted(earlier));
        }
    }
}

/// After any history of requests, the index of a staker lists what it listed before and then the
/// calls that the staker was granted stakes on, each at the place of its first granted stake.
pub proof fn law_index_is_order_of_first_stakes(
    s: RegistryState,
    history: Seq<(u64, Seq<Address>, Request)>,
    who: Address,
)
    requires
        s.staked_on(who).no_duplicates(),
    ensures
        s.run(history).staked_on(who) == first_places(
            s.staked_on(who) + calls_staked_on(s.stakes_granted(history), who),
        ),
    decreases history.len(),
{
    let ids = s.staked_on(who) + calls_staked_on(s.stakes_granted(history), who);
    if history.len() > 0 {
        let (timestamp, authorized, request) = history.last();
        let earlier = history.drop_last();
        let before = s.run(earlier).at(timestamp, authorized);
        let granted = s.stakes_granted(earlier);
        let shorter = s.staked_on(who) + calls_staked_on(granted, who);
        law_index_is_order_of_first_stakes(s, earlier, who);
        assert(before.staked_on(who) == first_places(shorter));
        match request {
            Request::StakeOnCall { staker, call_id, amount, position } => {
                if let Some(stake) = before.stake_granted(request) {
                    lemma_calls_staked_push(granted, stake, who);
                    if staker == who {
                        assert(ids =~= shorter.push(call_id));
                        assert(ids.drop_last() =~= shorter);
                        lemma_first_places_contains(shorter, call_id);
                    }
                }
            },
            Request::GetCalls { ids } => {
                lemma_reads_keep_entries(before, ids);
            },
            Request::GetStakerCalls { staker } => {
                lemma_reads_keep_entries(
                    before.after_get_staker_calls(staker),
                    before.staked_on(staker),
                );
            },
            _ => {},
        }
    } else {
        assert(calls_staked_on(s.stakes_granted(history), who) =~= Seq::empty()) by {
            reveal(Seq::filter);
        }
        assert(ids =~= s.staked_on(who));
        lemma_first_places_distinct(ids);
    }
}

/// What one effect moves of a token: to the contract, if `inward`, else from it.
pub open spec fn moved_by(effect: RegistryEffect<Seq<u8>>, token: Address, inward: bool) -> int {
    match effect {
        RegistryEffect::TransferIn { token: moved, amount, .. } => if inward && moved == token {
            amount as int
        } else {
            0
        },
        RegistryEffect::TransferOut { token: moved, amount, .. } => if !inward && moved == token {
            amount as int
        } else {
            0
        },
        _ => 0,
    }
}

/// What a list of effects moves of a token: to the contract, if `inward`, else from it.
pub open spec fn moved(effects: Seq<RegistryEffect<Seq<u8>>>, token: Address, inward: bool) -> int
    decreases effects.len(),
{
    if effects.len() == 0 {
        0
    } else {
        moved(effects.drop_last(), token, inward) + moved_by(effects.last(), token, inward)
    }
}

impl RegistryState {
    /// What the contract was paid of a token.
    pub open spec fn received(self, token: Address) -> int {
        moved(self.effects, token, true)
    }

    /// What the contract paid of a token.
    pub open spec fn paid_out(self, token: Address) -> int {
        moved(self.effects, token, false)
    }

    /// What is staked of a token on the calls up to a number.
    pub open spec fn staked_up_to(self, token: Address, last: int) -> int
        decreases last,
    {
        if last <= 0 {
            0
        } else {
            let call = self.calls[last as u64];
            self.staked_up_to(token, last - 1) + if call.stake_token == token {
                call.total_up_stake + call.total_down_stake
            } else {
                0
            }
        }
    }

    /// What is staked of a token on all calls.
    pub open spec fn staked(self, token: Address) -> int {
        self.staked_up_to(token, self.count() as int)
    }
}

/// One more effect counts as what it moves.
proof fn lemma_moved_push(
    effects: Seq<RegistryEffect<Seq<u8>>>,
    effect: RegistryEffect<Seq<u8>>,
    token: Address,
    inward: bool,
)
    ensures
        moved(effects.push(effect), token, inward) == moved(effects, token, inward) + moved_by(
            effect,
            token,
            inward,
        ),
{
    assert(effects.push(effect).drop_last() =~= effects);
}

/// Effects that move no tokens leave what was moved.
proof fn lemma_moved_quiet(
    effects: Seq<RegistryEffect<Seq<u8>>>,
    more: Seq<RegistryEffect<Seq<u8>>>,
    token: Address,
    inward: bool,
)
    requires
        forall|i: int| 0 <= i < more.len() ==> moved_by(#[trigger] more[i], token, inward) == 0,
    ensures
        moved(effects + more, token, inward) == moved(effects, token, inward),
    decreases more.len(),
{
    if more.len() > 0 {
        lemma_moved_quiet(effects, more.drop_last(), token, inward);
        lemma_moved_push(effects + more.drop_last(), more.last(), token, inward);
        assert(effects + more =~= (effects + more.drop_last()).push(more.last()));
    } else {
        assert(effects + more =~= effects);
    }
}

/// Reading calls moves no tokens.
proof fn lemma_reads_are_quiet(s: RegistryState, ids: Seq<u64>, token: Address, inward: bool)
    ensures
        moved(s.after_reads(ids).effects, token, inward) == moved(s.effects, token, inward),
    decreases ids.len(),
{
    if ids.len() > 0 {
        let before = s.after_reads(ids.drop_last());
        lemma_reads_are_quiet(s, ids.drop_last(), token, inward);
        lemma_moved_push(
            before.effects,
            before.after_get_call(ids.last()).effects.last(),
            token,
            inward,
        );
    }
}

/// Only stakes and releases move tokens.
pub proof fn law_only_stakes_and_releases_move_tokens(
    s: RegistryState,
    request: Request,
    token: Address,
)
    requires
        !(request is StakeOnCall),
        !(request is ReleaseEscrow),
    ensures
        s.next(request).received(token) == s.received(token),
        s.next(request).paid_out(token) == s.paid_out(token),
{
    let t = s.next(request);
    if s.error(request) is None {
        match request {
            Request::GetCalls { ids } => {
                lemma_reads_are_quiet(s, ids, token, true);
                lemma_reads_are_quiet(s, ids, token, false);
            },
            Request::GetStakerCalls { staker } => {
                let read = s.after_get_staker_calls(staker);
                lemma_moved_push(s.effects, read.effects.last(), token, true);
                lemma_moved_push(s.effects, read.effects.last(), token, false);
                lemma_reads_are_quiet(read, s.staked_on(staker), token, true);
                lemma_reads_are_quiet(read, s.staked_on(staker), token, false);
            },
            _ => {
                let more = t.effects.skip(s.effects.len() as int);
                assert(t.effects =~= s.effects + more);
                lemma_moved_quiet(s.effects, more, token, true);
                lemma_moved_quiet(s.effects, more, token, false);
            },
        }
    }
}

/// A stake is backed: the contract is paid exactly the amount that is added to the call, in the
/// call's own token, and nothing else moves.
pub proof fn law_stake_is_paid_in(
    s: RegistryState,
    staker: Address,
    call_id: u64,
    amount: i128,
    position: u32,
    token: Address,
)
    requires
        s.stake_error(staker, call_id, amount, position) is None,
    ensures
        ({
            let t = s.after_stake(staker, call_id, amount, position);
            &&& t.received(token) == s.received(token) + (if token
                == s.calls[call_id].stake_token {
                amount as int
            } else {
                0
            })
            &&& t.paid_out(token) == s.paid_out(token)
        }),
{
    let t = s.after_stake(staker, call_id, amount, position);
    let read = s.after_get_call(call_id);
    let paid = read.after(
        RegistryEffect::TransferIn { token: s.calls[call_id].stake_token, from: staker, amount },
    );
    let more = t.effects.skip(paid.effects.len() as int);
    assert(t.effects =~= paid.effects + more);
    lemma_moved_push(s.effects, read.effects.last(), token, true);
    lemma_moved_push(s.effects, read.effects.last(), token, false);
    lemma_moved_push(read.effects, paid.effects.last(), token, true);
    lemma_moved_push(read.effects, paid.effects.last(), token, false);
    lemma_moved_quiet(paid.effects, more, token, true);
    lemma_moved_quiet(paid.effects, more, token, false);
}

/// A release pays exactly its amount, in the call's own token, and nothing else moves.
pub proof fn law_release_is_paid_out(
    s: RegistryState,
    call_id: u64,
    to: Address,
    amount: i128,
    token: Address,
)
    requires
        s.manager_error(call_id) is None,
    ensures
        ({
            let t = s.after_release(call_id, to, amount);
            &&& t.paid_out(token) == s.paid_out(token) + (if token
                == s.calls[call_id].stake_token {
                amount as int
            } else {
                0
            })
            &&& t.received(token) == s.received(token)
        }),
{
    let t = s.after_release(call_id, to, amount);
    let read = s.after_get_call(call_id);
    lemma_moved_push(s.effects, read.effects.last(), token, true);
    lemma_moved_push(s.effects, read.effects.last(), token, false);
    lemma_moved_push(read.effects, t.effects.last(), token, true);
    lemma_moved_push(read.effects, t.effects.last(), token, false);
}

/// Tokens leave the contract only by a request that the outcome manager authorized.
pub proof fn law_only_manager_pays_out(s: RegistryState, request: Request, token: Address)
    requires
        s.next(request).paid_out(token) != s.paid_out(token),
    ensures
        s.config is Some,
        s.authorized.contains(s.config->0.outcome_manager),
{
    match request {
        Request::StakeOnCall { staker, call_id, amount, position } => {
            if s.error(request) is None {
                law_stake_is_paid_in(s, staker, call_id, amount, position, token);
            }
        },
        Request::ReleaseEscrow { .. } => {},
        _ => {
            law_only_stakes_and_releases_move_tokens(s, request, token);
        },
    }
}

/// Reading calls asks the host for nothing but to keep entries alive.
proof fn lemma_reads_only_keep_alive(s: RegistryState, ids: Seq<u64>)
    ensures
        s.after_reads(ids).effects.len() >= s.effects.len(),
        forall|i: int|
            s.effects.len() <= i < s.after_reads(ids).effects.len() ==> (
            #[trigger] s.after_reads(ids).effects[i]) is ExtendTtl,
    decreases ids.len(),
{
    if ids.len() > 0 {
        lemma_reads_only_keep_alive(s, ids.drop_last());
    }
}

/// Reading calls keeps what the host was asked for before.
proof fn lemma_reads_keep_effects(s: RegistryState, ids: Seq<u64>)
    ensures
        s.after_reads(ids).effects.len() >= s.effects.len(),
        s.after_reads(ids).effects.take(s.effects.len() as int) == s.effects,
    decreases ids.len(),
{
    let n = s.effects.len() as int;
    if ids.len() > 0 {
        let before = s.after_reads(ids.drop_last());
        lemma_reads_keep_effects(s, ids.drop_last());
        assert(s.after_reads(ids).effects.take(n) =~= before.effects.take(n));
    } else {
        assert(s.effects.take(n) =~= s.effects);
    }
}

/// No request takes tokens from an address that did not authorize it, and none pays tokens to
/// anyone unless the outcome manager authorized it.
pub proof fn law_tokens_move_by_authorization(s: RegistryState, request: Request, i: int)
    requires
        s.effects.len() <= i < s.next(request).effects.len(),
    ensures
        s.next(request).effects[i] matches RegistryEffect::TransferIn { token, from, amount } ==> {
            &&& s.authorized.contains(from)
            &&& amount > 0
            &&& request matches Request::StakeOnCall { staker, call_id, amount: asked, .. }
                && staker == from && asked == amount && s.calls.contains_key(call_id)
                && s.calls[call_id].stake_token == token
        },
        s.next(request).effects[i] matches RegistryEffect::TransferOut { token, to, amount } ==> {
            &&& s.config is Some
            &&& s.authorized.contains(s.config->0.outcome_manager)
            &&& request matches Request::ReleaseEscrow { call_id, to: receiver, amount: asked }
                && receiver == to && asked == amount && s.calls.contains_key(call_id)
                && s.calls[call_id].stake_token == token
        },
{
    match request {
        Request::GetCalls { ids } => {
            lemma_reads_only_keep_alive(s, ids);
            assert(s.after_reads(ids).effects[i] is ExtendTtl);
        },
        Request::GetStakerCalls { staker } => {
            let read = s.after_get_staker_calls(staker);
            let ids = s.staked_on(staker);
            lemma_reads_only_keep_alive(read, ids);
            lemma_reads_keep_effects(read, ids);
            let t = read.after_reads(ids);
            if i < read.effects.len() {
                assert(t.effects[i] == t.effects.take(read.effects.len() as int)[i]);
            }
            assert(t.effects[i] is ExtendTtl);
        },
        _ => {},
    }
}

/// What is staked follows a write of one call.
proof fn lemma_staked_insert(
    s: RegistryState,
    t: RegistryState,
    token: Address,
    call_id: u64,
    last: int,
)
    requires
        0 <= last <= u64::MAX,
        forall|id: u64| id != call_id && 1 <= id <= last ==> #[trigger] t.calls[id] == s.calls[id],
        t.calls[call_id].stake_token == s.calls[call_id].stake_token,
    ensures
        t.staked_up_to(token, last) == s.staked_up_to(token, last) + (if 1 <= call_id <= last
            && s.calls[call_id].stake_token == token {
            t.calls[call_id].total_up_stake + t.calls[call_id].total_down_stake
                - s.calls[call_id].total_up_stake - s.calls[call_id].total_down_stake
        } else {
            0
        }),
    decreases last,
{
    if last > 0 {
        lemma_staked_insert(s, t, token, call_id, last - 1);
        assert(last as u64 != call_id ==> t.calls[last as u64] == s.calls[last as u64]);
    }
}

/// What is staked on calls that stay as they are stays.
proof fn lemma_staked_same(s: RegistryState, t: RegistryState, token: Address, last: int)
    requires
        0 <= last <= u64::MAX,
        forall|id: u64| 1 <= id <= last ==> #[trigger] t.calls[id] == s.calls[id],
    ensures
        t.staked_up_to(token, last) == s.staked_up_to(token, last),
    decreases last,
{
    if last > 0 {
        lemma_staked_same(s, t, token, last - 1);
        assert(t.calls[last as u64] == s.calls[last as u64]);
    }
}

/// The stakes on record and the tokens that were paid in rise together.
pub proof fn law_requests_keep_stakes_backed(s: RegistryState, request: Request, token: Address)
    requires
        s.consistent(),
    ensures
        s.next(request).received(token) - s.next(request).staked(token) == s.received(token)
            - s.staked(token),
{
    let t = s.next(request);
    let last = s.count() as int;
    if s.error(request) is None {
        match request {
            Request::StakeOnCall { staker, call_id, amount, position } => {
                law_stake_is_paid_in(s, staker, call_id, amount, position, token);
                assert(s.calls[call_id].sound(call_id));
                lemma_staked_insert(s, t, token, call_id, last);
            },
            Request::ReleaseEscrow { call_id, to, amount } => {
                law_release_is_paid_out(s, call_id, to, amount, token);
                lemma_staked_same(s, t, token, last);
            },
            _ => {
                law_only_stakes_and_releases_move_tokens(s, request, token);
                match request {
                    Request::CreateCall { .. } => {
                        lemma_staked_same(s, t, token, last);
                    },
                    Request::ResolveCall { call_id, .. } => {
                        assert(s.calls[call_id].sound(call_id));
                        lemma_staked_insert(s, t, token, call_id, last);
                    },
                    Request::MarkSettled { call_id } => {
                        assert(s.calls[call_id].sound(call_id));
                        lemma_staked_insert(s, t, token, call_id, last);
                    },
                    Request::GetCalls { ids } => {
                        lemma_reads_keep_entries(s, ids);
                        lemma_staked_same(s, t, token, last);
                    },
                    Request::GetStakerCalls { staker } => {
                        lemma_reads_keep_entries(
                            s.after_get_staker_calls(staker),
                            s.staked_on(staker),
                        );
                        lemma_staked_same(s, t, token, last);
                    },
                    _ => {
                        lemma_staked_same(s, t, token, last);
                    },
                }
            },
        }
    }
}

/// After any history of requests that starts with nothing, the tokens that were paid in are
/// exactly the stakes on record.
pub proof fn law_history_keeps_stakes_backed(
    s: RegistryState,
    history: Seq<(u64, Seq<Address>, Request)>,
    token: Address,
)
    requires
        s.consistent(),
        s.count() == 0,
        s.effects.len() == 0,
    ensures
        s.run(history).received(token) == s.run(history).staked(token),
    decreases history.len(),
{
    if history.len() > 0 {
        let (timestamp, authorized, request) = history.last();
        let earlier = s.run(history.drop_last());
        let before = earlier.at(timestamp, authorized);
        law_history_keeps_stakes_backed(s, history.drop_last(), token);
        law_history_keeps_consistent(s, history.drop_last());
        lemma_same_entries_consistent(earlier, before);
        lemma_staked_same(earlier, before, token, earlier.count() as int);
        law_requests_keep_stakes_backed(before, request, token);
    }
}

/// While a call takes stakes it cannot be resolved, and once it can be resolved it takes none.
pub proof fn law_stake_or_resolve(
    s: RegistryState,
    staker: Address,
    call_id: u64,
    amount: i128,
    position: u32,
    outcome: u32,
)
    ensures
        s.stake_error(staker, call_id, amount, position) is None ==> s.resolve_error(
            call_id,
            outcome,
        ) is Some,
        s.resolve_error(call_id, outcome) is None ==> s.stake_error(
            staker,
            call_id,
            amount,
            position,
        ) is Some,
{
}

/// A call that is settled takes no more stakes and is not settled again, whatever is asked in
/// between.
pub proof fn law_settled_is_final(
    s: RegistryState,
    history: Seq<(u64, Seq<Address>, Request)>,
    call_id: u64,
    staker: Address,
    amount: i128,
    position: u32,
)
    requires
        s.consistent(),
        s.calls.contains_key(call_id),
        s.calls[call_id].settled,
    ensures
        s.run(history).calls.contains_key(call_id),
        s.run(history).calls[call_id].settled,
        s.run(history).stake_error(staker, call_id, amount, position) is Some,
        s.run(history).mark_settled_error(call_id) is Some,
    decreases history.len(),
{
    if history.len() > 0 {
        let (timestamp, authorized, request) = history.last();
        let earlier = history.drop_last();
        let before = s.run(earlier).at(timestamp, authorized);
        law_settled_is_final(s, earlier, call_id, staker, amount, position);
        law_history_keeps_consistent(s, earlier);
        lemma_same_entries_consistent(s.run(earlier), before);
        law_requests_keep_calls(before, request);
        assert(before.next(request).calls[call_id].settled);
    }
}

/// Marking a call as settled settles it.
pub proof fn law_mark_settled_settles(s: RegistryState, call_id: u64)
    requires
        s.consistent(),
        s.mark_settled_error(call_id) is None,
    ensures
        s.after_mark_settled(call_id).calls[call_id].settled,
{
    assert(s.calls[call_id].sound(call_id));
}

/// Once there is a configuration, only a request that its administrator authorized changes it.
pub proof fn law_only_admin_reconfigures(s: RegistryState, request: Request)
    requires
        s.config is Some,
        s.next(request).config != s.config,
    ensures
        s.authorized.contains(s.config->0.admin),
{
    match request {
        Request::GetCalls { ids } => {
            lemma_reads_keep_entries(s, ids);
        },
        Request::GetStakerCalls { staker } => {
            lemma_reads_keep_entries(s.after_get_staker_calls(staker), s.staked_on(staker));
        },
        _ => {},
    }
}

/// Only a request that the outcome manager authorized gives a call an outcome or settles it.
pub proof fn law_only_manager_decides(s: RegistryState, request: Request, call_id: u64)
    requires
        s.consistent(),
        s.calls.contains_key(call_id),
        s.next(request).calls[call_id].outcome != s.calls[call_id].outcome || s.next(
            request,
        ).calls[call_id].end_price != s.calls[call_id].end_price || s.next(
            request,
        ).calls[call_id].settled != s.calls[call_id].settled,
    ensures
        s.config is Some,
        s.authorized.contains(s.config->0.outcome_manager),
{
    if s.error(request) is None {
        match request {
            Request::CreateCall { .. } => {
                assert(!s.calls.contains_key((s.count() + 1) as u64));
            },
            Request::StakeOnCall { call_id: staked, .. } => {
                assert(s.calls[staked].sound(staked));
            },
            Request::GetCalls { ids } => {
                lemma_reads_keep_entries(s, ids);
            },
            Request::GetStakerCalls { staker } => {
                lemma_reads_keep_entries(s.after_get_staker_calls(staker), s.staked_on(staker));
            },
            _ => {},
        }
    }
}

/// Only a request that an address authorized changes what it has staked.
pub proof fn law_only_staker_stakes(
    s: RegistryState,
    request: Request,
    call_id: u64,
    who: Address,
    side: StakePosition,
)
    requires
        s.consistent(),
        s.calls.contains_key(call_id),
        stake_in(s.next(request).calls[call_id].stakes(side), who) != stake_in(
            s.calls[call_id].stakes(side),
            who,
        ),
    ensures
        s.authorized.contains(who),
{
    if s.error(request) is None {
        match request {
            Request::CreateCall { .. } => {
                assert(!s.calls.contains_key((s.count() + 1) as u64));
            },
            Request::StakeOnCall { staker, call_id: staked, .. } => {
                assert(s.calls[staked].sound(staked));
                if who.key() == staker.key() {
                    lemma_key_injective(who, staker);
                }
            },
            Request::ResolveCall { call_id: resolved, .. } => {
                assert(s.calls[resolved].sound(resolved));
            },
            Request::MarkSettled { call_id: settled } => {
                assert(s.calls[settled].sound(settled));
            },
            Request::GetCalls { ids } => {
                lemma_reads_keep_entries(s, ids);
            },
            Request::GetStakerCalls { staker } => {
                lemma_reads_keep_entries(s.after_get_staker_calls(staker), s.staked_on(staker));
            },
            _ => {},
        }
    }
}

/// A listing is in order, and has exactly the calls that are stored within its bounds and, where
/// an address is given, were made by it.
pub proof fn law_listing_is_exact(
    calls: Map<u64, CallState>,
    creator: Option<Address>,
    from: int,
    to: int,
)
    requires
        0 <= from,
    ensures
        forall|id: u64| #[trigger]
            listed_ids(calls, creator, from, to).contains(id) <==> from <= id < to && listed(
                calls,
                creator,
                id as int,
            ),
        forall|i: int, j: int|
            0 <= i < j < listed_ids(calls, creator, from, to).len() ==> listed_ids(
                calls,
                creator,
                from,
                to,
            )[i] < listed_ids(calls, creator, from, to)[j],
    decreases to - from,
{
    let ids = listed_ids(calls, creator, from, to);
    if to > from {
        let shorter = listed_ids(calls, creator, from, to - 1);
        law_listing_is_exact(calls, creator, from, to - 1);
        if listed(calls, creator, to - 1) {
            let last = (to - 1) as u64;
            assert forall|id: u64| #[trigger] ids.contains(id) <==> from <= id < to && listed(
                calls,
                creator,
                id as int,
            ) by {
                lemma_push_contains(shorter, last, id);
                assert(shorter.contains(id) <==> from <= id < to - 1 && listed(
                    calls,
                    creator,
                    id as int,
                ));
            }
            assert forall|i: int, j: int| 0 <= i < j < ids.len() implies ids[i] < ids[j] by {
                assert(shorter.contains(shorter[i]));
            }
        } else {
            assert forall|id: u64| #[trigger] ids.contains(id) <==> from <= id < to && listed(
                calls,
                creator,
                id as int,
            ) by {
                assert(shorter.contains(id) <==> from <= id < to - 1 && listed(
                    calls,
                    creator,
                    id as int,
                ));
            }
        }
    }
}

/// A listing can be cut in two anywhere.
proof fn lemma_listing_splits(
    calls: Map<u64, CallState>,
    creator: Option<Address>,
    from: int,
    cut: int,
    to: int,
)
    requires
        from <= cut <= to,
    ensures
        listed_ids(calls, creator, from, to) == listed_ids(calls, creator, from, cut) + listed_ids(
            calls,
            creator,
            cut,
            to,
        ),
    decreases to - cut,
{
    let whole = listed_ids(calls, creator, from, to);
    let front = listed_ids(calls, creator, from, cut);
    if cut < to {
        lemma_listing_splits(calls, creator, from, cut, to - 1);
        assert(whole =~= front + listed_ids(calls, creator, cut, to));
    } else {
        assert(whole =~= front + listed_ids(calls, creator, cut, to));
    }
}

/// A search lists at most as many calls as it wants, and fewer only if there are no more.
proof fn lemma_search_len(
    calls: Map<u64, CallState>,
    creator: Option<Address>,
    from: int,
    last: int,
    wanted: nat,
)
    requires
        from <= last + 1,
    ensures
        ({
            let end = search_end(calls, creator, from, last, wanted);
            &&& listed_ids(calls, creator, from, end).len() <= wanted
            &&& end <= last ==> listed_ids(calls, creator, from, end).len() == wanted
        }),
    decreases last - from + 1,
{
    let end = search_end(calls, creator, from, last, wanted);
    if wanted > 0 && from <= last {
        let left = if listed(calls, creator, from) {
            (wanted - 1) as nat
        } else {
            wanted
        };
        lemma_search_len(calls, creator, from + 1, last, left);
        lemma_search_end_range(calls, creator, from + 1, last, left);
        lemma_listing_splits(calls, creator, from, from + 1, end);
        assert(listed_ids(calls, creator, from, from) == Seq::<u64>::empty());
        reveal_with_fuel(listed_ids, 2);
    }
}

/// The calls of a joined list of numbers are the joined calls.
proof fn lemma_calls_of_add(calls: Map<u64, CallState>, a: Seq<u64>, b: Seq<u64>)
    ensures
        calls_of(calls, a + b) == calls_of(calls, a) + calls_of(calls, b),
{
    assert(calls_of(calls, a + b) =~= calls_of(calls, a) + calls_of(calls, b));
}

impl RegistryState {
    /// All calls from a number on, on one page without end.
    pub open spec fn all_from(self, creator: Option<Address>, from: int) -> Seq<CallState> {
        calls_of(self.calls, listed_ids(self.calls, creator, from, self.count() + 1))
    }
}

/// A page is never longer than asked for, nor than the longest page.
pub proof fn law_page_length(
    s: RegistryState,
    creator: Option<Address>,
    start_id: u64,
    limit: u32,
)
    ensures
        s.page(creator, start_id, limit).len() <= limit,
        s.page(creator, start_id, limit).len() <= 20,
{
    let from = first_id(start_id);
    let last = s.count() as int;
    if from <= last + 1 {
        lemma_search_len(s.calls, creator, from, last, page_size(limit));
    }
}

/// A page has the first calls from its start on: what comes behind the page is what comes behind
/// its end, and a page that is not full has no calls behind it.
pub proof fn law_pages_cover_all(
    s: RegistryState,
    creator: Option<Address>,
    start_id: u64,
    limit: u32,
)
    ensures
        s.all_from(creator, first_id(start_id)) == s.page(creator, start_id, limit) + s.all_from(
            creator,
            s.page_end(creator, start_id, limit),
        ),
        s.page(creator, start_id, limit).len() < page_size(limit) ==> s.all_from(
            creator,
            s.page_end(creator, start_id, limit),
        ).len() == 0,
{
    let from = first_id(start_id);
    let last = s.count() as int;
    let end = s.page_end(creator, start_id, limit);
    lemma_search_end_range(s.calls, creator, from, last, page_size(limit));
    if from <= last + 1 {
        lemma_search_len(s.calls, creator, from, last, page_size(limit));
        lemma_listing_splits(s.calls, creator, from, end, last + 1);
        lemma_calls_of_add(
            s.calls,
            listed_ids(s.calls, creator, from, end),
            listed_ids(s.calls, creator, end, last + 1),
        );
    } else {
        assert(s.all_from(creator, from) =~= s.page(creator, start_id, limit) + s.all_from(
            creator,
            end,
        ));
    }
}

/// The next page starts behind the last call of this one: what comes behind a page that is not
/// empty is what comes behind the number of its last call.
pub proof fn law_next_page_follows_last_call(
    s: RegistryState,
    creator: Option<Address>,
    start_id: u64,
    limit: u32,
)
    requires
        forall|id: u64| #[trigger] s.calls.contains_key(id) ==> s.calls[id].id == id,
        s.page(creator, start_id, limit).len() > 0,
    ensures
        ({
            let page = s.page(creator, start_id, limit);
            &&& first_id(start_id) <= page.last().id <= s.count()
            &&& s.all_from(creator, s.page_end(creator, start_id, limit)) == s.all_from(
                creator,
                page.last().id + 1,
            )
            &&& s.all_from(creator, first_id(start_id)) == page + s.all_from(
                creator,
                page.last().id + 1,
            )
        }),
{
    let from = first_id(start_id);
    let count = s.count() as int;
    let end = s.page_end(creator, start_id, limit);
    let ids = listed_ids(s.calls, creator, from, end);
    let last = ids.last();
    lemma_search_end_range(s.calls, creator, from, count, page_size(limit));
    law_pages_cover_all(s, creator, start_id, limit);
    law_listing_is_exact(s.calls, creator, from, end);
    assert(ids.contains(last));
    assert(s.page(creator, start_id, limit).last().id == last);
    let gap = listed_ids(s.calls, creator, last + 1, end);
    assert(gap.len() == 0) by {
        law_listing_is_exact(s.calls, creator, last + 1, end);
        if gap.len() > 0 {
            assert(gap.contains(gap[0]));
            assert(ids.contains(gap[0]));
            let i = choose|i: int| 0 <= i < ids.len() && ids[i] == gap[0];
            assert(i == ids.len() - 1 || ids[i] < ids[ids.len() - 1]);
        }
    }
    lemma_listing_splits(s.calls, creator, last + 1, end, count + 1);
    assert(gap + listed_ids(s.calls, creator, end, count + 1) =~= listed_ids(
        s.calls,
        creator,
        end,
        count + 1,
    ));
}

/// A listing has the call of every number within its bounds that is stored and, where an address
/// is given, has that address as its creator, whatever else the call is; it has no other, and has
/// them in the order of their numbers.
pub proof fn law_listing_has_all_calls(
    calls: Map<u64, CallState>,
    creator: Option<Address>,
    from: int,
    to: int,
)
    requires
        0 <= from,
    ensures
        ({
            let ids = listed_ids(calls, creator, from, to);
            let list = calls_of(calls, ids);
            &&& list.len() == ids.len()
            &&& forall|i: int|
                #![trigger ids[i]]
                #![trigger list[i]]
                0 <= i < ids.len() ==> {
                    &&& list[i] == calls[ids[i]]
                    &&& from <= ids[i] < to
                    &&& calls.contains_key(ids[i])
                    &&& creator is Some ==> calls[ids[i]].creator == creator->0
                }
            &&& forall|i: int, j: int| 0 <= i < j < ids.len() ==> ids[i] < ids[j]
            &&& forall|id: u64| #[trigger]
                calls.contains_key(id) && from <= id < to && (creator is Some ==> calls[id].creator
                    == creator->0) ==> ids.contains(id) && list.contains(calls[id])
        }),
{
    let ids = listed_ids(calls, creator, from, to);
    let list = calls_of(calls, ids);
    law_listing_is_exact(calls, creator, from, to);
    assert forall|i: int|
        #![trigger ids[i]]
        #![trigger list[i]]
        0 <= i < ids.len() implies {
        &&& list[i] == calls[ids[i]]
        &&& from <= ids[i] < to
        &&& calls.contains_key(ids[i])
        &&& creator is Some ==> calls[ids[i]].creator == creator->0
    } by {
        assert(ids.contains(ids[i]));
    }
    assert forall|id: u64| #[trigger]
        calls.contains_key(id) && from <= id < to && (creator is Some ==> calls[id].creator
            == creator->0) implies ids.contains(id) && list.contains(calls[id]) by {
        assert(listed(calls, creator, id as int));
        assert(ids.contains(id));
        let i = choose|i: int| 0 <= i < ids.len() && ids[i] == id;
        assert(list[i] == calls[id]);
    }
}

/// The numbers of stored calls within bounds are all there, in order, and no others are.
pub proof fn law_stored_numbers_are_exact(calls: Map<u64, CallState>, from: int, to: int)
    requires
        0 <= from,
    ensures
        forall|id: u64| #[trigger]
            stored_ids(calls, from, to).contains(id) <==> from <= id < to && calls.contains_key(id),
        forall|i: int, j: int|
            0 <= i < j < stored_ids(calls, from, to).len() ==> stored_ids(calls, from, to)[i]
                < stored_ids(calls, from, to)[j],
    decreases to - from,
{
    let ids = stored_ids(calls, from, to);
    if to > from {
        let shorter = stored_ids(calls, from, to - 1);
        law_stored_numbers_are_exact(calls, from, to - 1);
        assert forall|id: u64| #[trigger] ids.contains(id) <==> from <= id < to
            && calls.contains_key(id) by {
            lemma_push_contains(shorter, (to - 1) as u64, id);
            assert(shorter.contains(id) <==> from <= id < to - 1 && calls.contains_key(id));
        }
        assert forall|i: int, j: int| 0 <= i < j < ids.len() implies ids[i] < ids[j] by {
            assert(shorter.contains(shorter[i]));
        }
    }
}

/// A search that finds as many calls as it wants stops right behind the last of them.
proof fn lemma_search_ends_on_listed(
    calls: Map<u64, CallState>,
    creator: Option<Address>,
    from: int,
    last: int,
    wanted: nat,
)
    requires
        wanted > 0,
        listed_ids(calls, creator, from, search_end(calls, creator, from, last, wanted)).len()
            == wanted,
    ensures
        ({
            let end = search_end(calls, creator, from, last, wanted);
            &&& end > from
            &&& listed(calls, creator, end - 1)
        }),
    decreases last - from + 1,
{
    let end = search_end(calls, creator, from, last, wanted);
    if from <= last {
        let left = if listed(calls, creator, from) {
            (wanted - 1) as nat
        } else {
            wanted
        };
        lemma_search_end_range(calls, creator, from + 1, last, left);
        lemma_listing_splits(calls, creator, from, from + 1, end);
        reveal_with_fuel(listed_ids, 2);
        if left > 0 {
            lemma_search_ends_on_listed(calls, creator, from + 1, last, left);
        }
    }
}

/// A page has at most `limit` calls and at most 20, of the creator if one is given. If it is not
/// full, it has all such calls from its start to the last call there is, whatever else they are.
pub proof fn law_page_has_all_calls(
    s: RegistryState,
    creator: Option<Address>,
    start_id: u64,
    limit: u32,
)
    ensures
        ({
            let page = s.page(creator, start_id, limit);
            let count = match s.call_counter {
                Some(n) => n,
                None => 0,
            };
            &&& page.len() <= limit
            &&& page.len() <= 20
            &&& creator is Some ==> forall|i: int|
                0 <= i < page.len() ==> (#[trigger] page[i]).creator == creator->0
            &&& page.len() < limit && page.len() < 20 ==> forall|id: u64| #[trigger]
                s.calls.contains_key(id) && start_id <= id && 1 <= id <= count && (creator is Some
                    ==> s.calls[id].creator == creator->0) ==> page.contains(s.calls[id])
        }),
{
    let from = first_id(start_id);
    let last = s.count() as int;
    let end = s.page_end(creator, start_id, limit);
    let page = s.page(creator, start_id, limit);
    law_page_length(s, creator, start_id, limit);
    lemma_search_end_range(s.calls, creator, from, last, page_size(limit));
    law_listing_has_all_calls(s.calls, creator, from, end);
    let count = match s.call_counter {
        Some(n) => n,
        None => 0,
    };
    if from <= last {
        lemma_search_len(s.calls, creator, from, last, page_size(limit));
        if page.len() < limit && page.len() < 20 {
            assert(end == last + 1);
            assert forall|id: u64| #[trigger]
                s.calls.contains_key(id) && start_id <= id && 1 <= id <= count && (creator is Some
                    ==> s.calls[id].creator == creator->0) implies page.contains(
                s.calls[id],
            ) by {
                assert(from <= id < end);
            }
        }
    }
}

/// The calls on a page are in the order of their numbers, and none is left out between the start
/// and the last call of the page. The page keeps alive the stored calls from its start to its
/// last call, if it is full, and else to the last call there is, in order; it changes no entry.
pub proof fn law_page_is_in_order(
    s: RegistryState,
    creator: Option<Address>,
    start_id: u64,
    limit: u32,
)
    requires
        forall|id: u64| #[trigger] s.calls.contains_key(id) ==> s.calls[id].id == id,
    ensures
        ({
            let page = s.page(creator, start_id, limit);
            let t = s.after_page(creator, start_id, limit);
            let count = match s.call_counter {
                Some(n) => n as int,
                None => 0,
            };
            let first = if start_id == 0 {
                1
            } else {
                start_id as int
            };
            let full = page.len() == limit || page.len() == 20;
            let behind = if page.len() == 0 && full {
                first
            } else if full {
                page.last().id + 1
            } else {
                count + 1
            };
            let read = stored_ids(s.calls, first, behind);
            let n = s.effects.len() as int;
            &&& forall|i: int, j: int|
                0 <= i < j < page.len() ==> (#[trigger] page[i]).id < (#[trigger] page[j]).id
            &&& forall|i: int|
                0 <= i < page.len() ==> first <= (#[trigger] page[i]).id <= count
                    && s.calls.contains_key(page[i].id) && s.calls[page[i].id] == page[i]
            &&& page.len() > 0 ==> forall|id: u64| #[trigger]
                s.calls.contains_key(id) && first <= id <= page.last().id && (creator is Some
                    ==> s.calls[id].creator == creator->0) ==> page.contains(s.calls[id])
            &&& t == (RegistryState { effects: t.effects, ..s })
            &&& t.effects.len() == n + read.len()
            &&& t.effects.take(n) == s.effects
            &&& forall|i: int|
                0 <= i < read.len() ==> (#[trigger] t.effects[n + i]) == (RegistryEffect::<
                    Seq<u8>,
                >::ExtendTtl {
                    key: DataKey::Call(read[i]),
                    threshold: 1_036_800,
                    extend_to: 2_073_600,
                })
        }),
{
    let from = first_id(start_id);
    let last = s.count() as int;
    let wanted = page_size(limit);
    let end = s.page_end(creator, start_id, limit);
    let ids = listed_ids(s.calls, creator, from, end);
    let page = s.page(creator, start_id, limit);
    law_page_length(s, creator, start_id, limit);
    lemma_search_end_range(s.calls, creator, from, last, wanted);
    law_listing_has_all_calls(s.calls, creator, from, end);
    let full = page.len() == limit || page.len() == 20;
    if from <= last {
        lemma_search_len(s.calls, creator, from, last, wanted);
    }
    assert(full ==> page.len() == wanted);
    if full && wanted > 0 {
        lemma_search_ends_on_listed(s.calls, creator, from, last, wanted);
        assert(ids.last() == end - 1);
        assert(page.last().id == end - 1);
    }
    let read = stored_ids(s.calls, from, end);
    law_stored_numbers_are_exact(s.calls, from, end);
    assert forall|i: int| 0 <= i < read.len() implies s.calls.contains_key(#[trigger] read[i]) by {
        assert(read.contains(read[i]));
    }
    law_reads_of_calls(s, read);
    if from > last && !full {
        assert(end == from);
        assert(stored_ids(s.calls, from, last + 1) =~= stored_ids(s.calls, from, end));
    }
}

/// A page asks for calls from its start on, or behind those that are loaded.
pub proof fn law_loading_goes_on(s: RegistryState, start_id: u64, loaded: u64)
    ensures
        s.next_to_load(start_id, loaded) >= 1,
        s.next_to_load(start_id, loaded) >= start_id,
        s.next_to_load(start_id, loaded) > loaded,
        s.next_to_load(start_id, loaded) == 1 || s.next_to_load(start_id, loaded) == start_id
            || s.next_to_load(start_id, loaded) == loaded + 1,
{
}

/// Two ledgers hold the same calls from a number up to but not including another.
pub open spec fn same_between(
    a: Map<u64, CallState>,
    b: Map<u64, CallState>,
    from: int,
    to: int,
) -> bool {
    forall|id: u64| #![trigger a.contains_key(id)] #![trigger b.contains_key(id)]
        from <= id < to ==> a.contains_key(id) == b.contains_key(id) && (a.contains_key(id)
            ==> a[id] == b[id])
}

/// Listings within bounds between which two ledgers hold the same calls are the same.
proof fn lemma_listing_agrees(
    a: Map<u64, CallState>,
    b: Map<u64, CallState>,
    creator: Option<Address>,
    from: int,
    to: int,
)
    requires
        same_between(a, b, from, to),
    ensures
        listed_ids(a, creator, from, to) == listed_ids(b, creator, from, to),
        stored_ids(a, from, to) == stored_ids(b, from, to),
        calls_of(a, listed_ids(a, creator, from, to)) == calls_of(
            b,
            listed_ids(b, creator, from, to),
        ),
    decreases to - from,
{
    if to > from {
        lemma_listing_agrees(a, b, creator, from, to - 1);
        assert(stored(a, to - 1) == stored(b, to - 1));
        let shorter = listed_ids(a, creator, from, to - 1);
        if listed(a, creator, to - 1) {
            let last = (to - 1) as u64;
            assert(a.contains_key(last) && b.contains_key(last));
            assert(calls_of(a, shorter.push(last)) =~= calls_of(a, shorter).push(a[last]));
            assert(calls_of(b, shorter.push(last)) =~= calls_of(b, shorter).push(b[last]));
        }
    } else {
        assert(calls_of(a, Seq::empty()) =~= calls_of(b, Seq::empty()));
    }
}

/// A search stops at the same number in two ledgers that hold the same calls as far as it goes.
proof fn lemma_search_agrees(
    a: Map<u64, CallState>,
    b: Map<u64, CallState>,
    creator: Option<Address>,
    from: int,
    last: int,
    wanted: nat,
    to: int,
)
    requires
        same_between(a, b, from, to),
        search_end(a, creator, from, last, wanted) <= to || to > last,
    ensures
        search_end(b, creator, from, last, wanted) == search_end(a, creator, from, last, wanted),
    decreases last - from + 1,
{
    if wanted > 0 && from <= last {
        let left = if listed(a, creator, from) {
            (wanted - 1) as nat
        } else {
            wanted
        };
        lemma_search_end_range(a, creator, from + 1, last, left);
        assert(from < to);
        assert(listed(a, creator, from) == listed(b, creator, from)) by {
            if 0 <= from <= u64::MAX {
                assert(a.contains_key(from as u64) == b.contains_key(from as u64));
            }
        }
        lemma_search_agrees(a, b, creator, from + 1, last, left, to);
    }
}

/// A search goes no further than the number behind the last call that it wants.
proof fn lemma_search_stops(
    calls: Map<u64, CallState>,
    creator: Option<Address>,
    from: int,
    last: int,
    wanted: nat,
    to: int,
)
    requires
        from <= to,
        listed_ids(calls, creator, from, to).len() >= wanted,
    ensures
        search_end(calls, creator, from, last, wanted) <= to,
    decreases last - from + 1,
{
    if wanted > 0 && from <= last {
        lemma_listing_splits(calls, creator, from, from + 1, to);
        reveal_with_fuel(listed_ids, 2);
        let left = if listed(calls, creator, from) {
            (wanted - 1) as nat
        } else {
            wanted
        };
        lemma_search_stops(calls, creator, from + 1, last, left, to);
    }
}

/// No more calls are listed than there are numbers.
proof fn lemma_listing_len(
    calls: Map<u64, CallState>,
    creator: Option<Address>,
    from: int,
    to: int,
)
    requires
        from <= to,
    ensures
        listed_ids(calls, creator, from, to).len() <= to - from,
    decreases to - from,
{
    if to > from {
        lemma_listing_len(calls, creator, from, to - 1);
    }
}

/// Of a ledger `t`, a page needs no more calls than the listing asks to be loaded: once a state
/// `s` that holds the calls of `t` up to `loaded` needs no more of them, `s` and `t` give the same
/// page and read the same calls for it; and as long as it needs more, the page of `t` reads all
/// that it needs.
pub proof fn law_page_needs_what_is_loaded(
    s: RegistryState,
    t: RegistryState,
    creator: Option<Address>,
    start_id: u64,
    limit: u32,
    loaded: u64,
)
    requires
        s.count() == t.count(),
        same_between(s.calls, t.calls, first_id(start_id), s.next_to_load(start_id, loaded)),
    ensures
        s.left_to_load(creator, start_id, limit, loaded) == 0 ==> {
            &&& s.page(creator, start_id, limit) == t.page(creator, start_id, limit)
            &&& s.page_end(creator, start_id, limit) == t.page_end(creator, start_id, limit)
            &&& stored_ids(
                s.calls,
                first_id(start_id),
                s.page_end(creator, start_id, limit),
            ) == stored_ids(t.calls, first_id(start_id), t.page_end(creator, start_id, limit))
        },
        s.left_to_load(creator, start_id, limit, loaded) > 0 ==> s.next_to_load(start_id, loaded)
            + s.left_to_load(creator, start_id, limit, loaded) <= t.page_end(
            creator,
            start_id,
            limit,
        ),
{
    let from = first_id(start_id);
    let next = s.next_to_load(start_id, loaded);
    let last = s.count() as int;
    let wanted = page_size(limit);
    let left = s.left_to_load(creator, start_id, limit, loaded);
    lemma_listing_agrees(s.calls, t.calls, creator, from, next);
    if left == 0 {
        let end = s.page_end(creator, start_id, limit);
        if next <= last {
            lemma_search_stops(s.calls, creator, from, last, wanted, next);
        }
        lemma_search_end_range(s.calls, creator, from, last, wanted);
        lemma_search_agrees(s.calls, t.calls, creator, from, last, wanted, next);
        lemma_listing_agrees(s.calls, t.calls, creator, from, end);
    } else {
        let end = t.page_end(creator, start_id, limit);
        lemma_search_len(t.calls, creator, from, last, wanted);
        lemma_search_end_range(t.calls, creator, from, last, wanted);
        if end < next + left {
            if end <= next {
                lemma_listing_splits(t.calls, creator, from, end, next);
            } else {
                lemma_listing_splits(t.calls, creator, from, next, end);
                lemma_listing_len(t.calls, creator, next, end);
            }
        }
    }
}

/// For any target, the price ends above it, below it, or on it, and only one of these.
pub proof fn law_targets_exclude_each_other(target: i128, start_price: int, end_price: int)
    ensures
        condition_met(ConditionType::TargetAbove(target), start_price, end_price) || condition_met(
            ConditionType::TargetBelow(target),
            start_price,
            end_price,
        ) || condition_met(ConditionType::Range(target, target), start_price, end_price),
        !(condition_met(ConditionType::TargetAbove(target), start_price, end_price)
            && condition_met(ConditionType::TargetBelow(target), start_price, end_price)),
        !(condition_met(ConditionType::TargetAbove(target), start_price, end_price)
            && condition_met(ConditionType::Range(target, target), start_price, end_price)),
        !(condition_met(ConditionType::TargetBelow(target), start_price, end_price)
            && condition_met(ConditionType::Range(target, target), start_price, end_price)),
{
}

/// A percentage is met if the price started above nothing and moved by at least so many
/// hundredths of that; a range is met if the price is neither below nor above it.
pub proof fn law_conditions(
    target: i128,
    other: i128,
    percent: u32,
    start_price: int,
    end_price: int,
)
    ensures
        condition_met(ConditionType::TargetAbove(target), start_price, end_price) <==> end_price
            > target,
        condition_met(ConditionType::TargetBelow(target), start_price, end_price) <==> end_price
            < target,
        condition_met(ConditionType::PercentUp(percent), start_price, end_price) <==> start_price
            > 0 && 100 * (end_price - start_price) >= percent * start_price,
        condition_met(ConditionType::PercentDown(percent), start_price, end_price) <==> start_price
            > 0 && 100 * (start_price - end_price) >= percent * start_price,
        condition_met(ConditionType::Range(target, other), start_price, end_price) <==> target
            <= end_price && end_price <= other,
{
    assert(start_price * (100 + percent) == 100 * start_price + percent * start_price)
        by (nonlinear_arith);
    assert(start_price * (100 - percent) == 100 * start_price - percent * start_price)
        by (nonlinear_arith);
}

/// Only a percentage of a positive price can be out of reach, and it is if one of the two
/// products that it compares does not fit an `i128`.
pub proof fn law_conditions_within_reach(condition: ConditionType, start_price: int, end_price: int)
    ensures
        condition_computable(condition, start_price, end_price) <==> {
            let factor = match condition {
                ConditionType::PercentUp(percent) => 100 + percent,
                ConditionType::PercentDown(percent) => 100 - percent,
                _ => 0,
            };
            let percentage = condition is PercentUp || condition is PercentDown;
            percentage && start_price > 0 ==> i128::MIN <= end_price * 100 <= i128::MAX
                && i128::MIN <= start_price * factor <= i128::MAX
        },
{
}

/// A price cannot have both risen and fallen by a percentage, unless both percentages are zero.
pub proof fn law_percentages_exclude_each_other(
    up: u32,
    down: u32,
    start_price: int,
    end_price: int,
)
    requires
        up > 0 || down > 0,
    ensures
        !(condition_met(ConditionType::PercentUp(up), start_price, end_price) && condition_met(
            ConditionType::PercentDown(down),
            start_price,
            end_price,
        )),
{
    if start_price > 0 {
        assert(start_price * (100 + up) > start_price * (100 - down)) by (nonlinear_arith)
            requires
                start_price > 0,
                up > 0 || down > 0,
        ;
    }
}

} // verus!
