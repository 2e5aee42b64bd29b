//! What holds of the outcome manager, whatever is asked of it.
//!
//! Votes and their counts are temporary entries, which expire. A law holds whatever expires,
//! unless it says otherwise.

use vstd::prelude::*;
use crate::address::Address;
use crate::bytes32::Bytes32;
use crate::outcome_manager::contract::{oracle_set, report_hash, MAX_FEE_BPS};
use crate::outcome_manager::storage::{InstanceKey, ManagerEffect, ManagerState, TempKey};
use crate::outcome_manager::types::{ManagerError, Outcome, SignedOutcome};

verus! {

/// Something that is asked of the outcome manager, or happens to it, and may change what it
/// stores.
pub enum Request {
    Initialize {
        admin: Address,
        oracles: Seq<Bytes32>,
        quorum: u32,
        fee_collector: Address,
        fee_bps: u32,
    },
    AddOracle { oracle: Bytes32 },
    RemoveOracle { oracle: Bytes32 },
    SetQuorum { quorum: u32 },
    SetAdmin { new_admin: Address },
    SubmitOutcome { registry: Address, signed: SignedOutcome, signature_valid: bool },
    ClaimPayout {
        registry: Address,
        call_id: u64,
        staker: Address,
        staker_winning_stake: i128,
        total_winning_stake: i128,
        total_losing_stake: i128,
    },
    MarkSettled { registry: Address, call_id: u64 },
    /// A temporary entry expires. Nobody asks for this, and nothing refuses it.
    Expire { key: TempKey },
}

/// Nothing expires in a history.
pub open spec fn nothing_expires(history: Seq<(Seq<Address>, Request)>) -> bool {
    forall|i: int| 0 <= i < history.len() ==> !((#[trigger] history[i]).1 is Expire)
}

/// The vote of an oracle on a call does not expire in a history.
pub open spec fn vote_is_kept(
    history: Seq<(Seq<Address>, Request)>,
    oracle: Bytes32,
    call_id: u64,
) -> bool {
    forall|i: int|
        0 <= i < history.len() ==> (#[trigger] history[i]).1 != (Request::Expire {
            key: TempKey::Submission(oracle, call_id),
        })
}

impl ManagerState {
    /// The oracles that voted on a call for the report of a digest.
    pub open spec fn voters(self, outcome_hash: Bytes32, call_id: u64) -> Set<Bytes32> {
        Set::new(
            |oracle: Bytes32|
                self.submissions.contains_key((oracle, call_id)) && self.submissions[(
                    oracle,
                    call_id,
                )] == outcome_hash,
        )
    }

    /// The count of votes for a report is the number of oracles that voted for it.
    pub open spec fn tallied(self, outcome_hash: Bytes32, call_id: u64) -> bool {
        &&& self.voters(outcome_hash, call_id).finite()
        &&& self.vote_count(outcome_hash, call_id) == self.voters(outcome_hash, call_id).len()
    }

    /// Every outcome is of its call and is up or down, no quorum is of nobody, and the fee is
    /// within bounds.
    pub open spec fn well_set(self) -> bool {
        &&& forall|call_id: u64| #[trigger]
            self.final_outcomes.contains_key(call_id) ==> {
                &&& self.final_outcomes[call_id].call_id == call_id
                &&& self.final_outcomes[call_id].outcome == 1
                    || self.final_outcomes[call_id].outcome == 2
            }
        &&& self.quorum matches Some(quorum) ==> quorum >= 1
        &&& self.fee() <= MAX_FEE_BPS
    }

    /// In addition, every vote is stored and counted, and every outcome was voted for.
    pub open spec fn sound(self) -> bool {
        &&& self.well_set()
        &&& forall|outcome_hash: Bytes32, call_id: u64| #[trigger]
            self.tallied(outcome_hash, call_id)
        &&& forall|call_id: u64| #[trigger]
            self.final_outcomes.contains_key(call_id) ==> self.vote_count(
                report_hash(self.final_outcomes[call_id]),
                call_id,
            ) >= 1
    }

    /// A temporary entry is gone.
    pub open spec fn after_expiry(self, key: TempKey) -> ManagerState {
        match key {
            TempKey::Submission(oracle, call_id) => ManagerState {
                submissions: self.submissions.remove((oracle, call_id)),
                ..self
            },
            TempKey::VoteCount(outcome_hash, call_id) => ManagerState {
                votes: self.votes.remove((outcome_hash, call_id)),
                ..self
            },
        }
    }

    /// The same ledger, with another invocation.
    pub open spec fn at(self, authorized: Seq<Address>) -> ManagerState {
        ManagerState { authorized, ..self }
    }

    /// Why a request is refused, if it is.
    pub open spec fn error(self, request: Request) -> Option<ManagerError> {
        match request {
            Request::Initialize { admin, oracles, quorum, fee_bps, .. } => self.initialize_error(
                admin,
                oracles,
                quorum,
                fee_bps,
            ),
            Request::AddOracle { oracle } => self.add_oracle_error(oracle),
            Request::RemoveOracle { .. } => self.oracles_error(),
            Request::SetQuorum { quorum } => self.set_quorum_error(quorum),
            Request::SetAdmin { .. } => self.admin_error(),
            Request::SubmitOutcome { signed, signature_valid, .. } => self.submit_error(
                signed,
                signature_valid,
            ),
            Request::ClaimPayout {
                call_id,
                staker,
                staker_winning_stake,
                total_winning_stake,
                total_losing_stake,
                ..
            } => self.claim_error(
                call_id,
                staker,
                staker_winning_stake,
                total_winning_stake,
                total_losing_stake,
            ),
            Request::MarkSettled { call_id, .. } => self.mark_settled_error(call_id),
            Request::Expire { .. } => None,
        }
    }

    /// The state behind a request that is granted.
    pub open spec fn granted(self, request: Request) -> ManagerState {
        match request {
            Request::Initialize { admin, oracles, quorum, fee_collector, fee_bps } =>
                self.after_initialize(admin, oracles, quorum, fee_collector, fee_bps),
            Request::AddOracle { oracle } => self.after_set_oracles(
                self.oracles->0.insert(oracle.key(), true),
            ),
            Request::RemoveOracle { oracle } => self.after_set_oracles(
                self.oracles->0.remove(oracle.key()),
            ),
            Request::SetQuorum { quorum } => self.after_set_quorum(quorum),
            Request::SetAdmin { new_admin } => self.after_set_admin(new_admin),
            Request::SubmitOutcome { registry, signed, .. } => self.after_submit(
                registry,
                signed,
                report_hash(signed.report()),
            ),
            Request::ClaimPayout {
                registry,
                call_id,
                staker,
                staker_winning_stake,
                total_winning_stake,
                total_losing_stake,
            } => self.after_claim(
                registry,
                call_id,
                staker,
                self.payout_for(staker_winning_stake, total_winning_stake, total_losing_stake),
            ),
            Request::MarkSettled { registry, call_id } => self.after(
                ManagerEffect::MarkSettled { registry, call_id },
            ),
            Request::Expire { key } => self.after_expiry(key),
        }
    }

    /// The state behind a request: a request that is refused changes nothing.
    pub open spec fn next(self, request: Request) -> ManagerState {
        if self.error(request) is None {
            self.granted(request)
        } else {
            self
        }
    }

    /// The state behind a history of requests, each with its authorizations.
    pub open spec fn run(self, history: Seq<(Seq<Address>, Request)>) -> ManagerState
        decreases history.len(),
    {
        if history.len() == 0 {
            self
        } else {
            let (authorized, request) = history.last();
            self.run(history.drop_last()).at(authorized).next(request)
        }
    }
}

/// Soundness is a matter of the votes, the outcomes, the quorum and the fee.
proof fn lemma_same_entries_sound(s: ManagerState, t: ManagerState)
    requires
        s.sound(),
        t.submissions == s.submissions,
        t.votes == s.votes,
        t.final_outcomes == s.final_outcomes,
        t.quorum matches Some(quorum) ==> quorum >= 1,
        t.fee() <= MAX_FEE_BPS,
    ensures
        t.sound(),
{
    assert forall|outcome_hash: Bytes32, call_id: u64| #[trigger]
        t.tallied(outcome_hash, call_id) by {
        assert(s.tallied(outcome_hash, call_id));
        assert(t.voters(outcome_hash, call_id) =~= s.voters(outcome_hash, call_id));
    }
}

/// Whatever is asked of it and whatever expires, the outcome manager stays well set.
pub proof fn law_requests_keep_well_set(s: ManagerState, request: Request)
    requires
        s.well_set(),
    ensures
        s.next(request).well_set(),
{
}

/// The same over a history of requests.
pub proof fn law_history_keeps_well_set(s: ManagerState, history: Seq<(Seq<Address>, Request)>)
    requires
        s.well_set(),
    ensures
        s.run(history).well_set(),
    decreases history.len(),
{
    if history.len() > 0 {
        let (authorized, request) = history.last();
        law_history_keeps_well_set(s, history.drop_last());
        law_requests_keep_well_set(s.run(history.drop_last()).at(authorized), request);
    }
}

/// A ledger without entries is sound.
pub proof fn law_empty_is_sound(s: ManagerState)
    requires
        s.quorum is None,
        s.fee_bps is None,
        s.final_outcomes == Map::<u64, Outcome>::empty(),
        s.submissions == Map::<(Bytes32, u64), Bytes32>::empty(),
        s.votes == Map::<(Bytes32, u64), u32>::empty(),
    ensures
        s.sound(),
{
    assert forall|outcome_hash: Bytes32, call_id: u64| #[trigger]
        s.tallied(outcome_hash, call_id) by {
        assert(s.voters(outcome_hash, call_id) =~= Set::empty());
    }
}

/// A vote by an oracle that has not voted on the call is counted with those for the same report,
/// and leaves all other counts.
proof fn lemma_vote_is_tallied(s: ManagerState, signed: SignedOutcome, outcome_hash: Bytes32)
    requires
        forall|h: Bytes32, c: u64| #[trigger] s.tallied(h, c),
        !s.submissions.contains_key((signed.oracle_pubkey, signed.call_id)),
        s.vote_count(outcome_hash, signed.call_id) < u32::MAX,
    ensures
        forall|h: Bytes32, c: u64| #[trigger] s.after_vote(signed, outcome_hash).tallied(h, c),
{
    let t = s.after_vote(signed, outcome_hash);
    let oracle = signed.oracle_pubkey;
    assert forall|h: Bytes32, c: u64| #[trigger] t.tallied(h, c) by {
        assert(s.tallied(h, c));
        if h == outcome_hash && c == signed.call_id {
            assert(!s.voters(h, c).contains(oracle));
            assert(t.voters(h, c) =~= s.voters(h, c).insert(oracle));
        } else {
            assert(t.voters(h, c) =~= s.voters(h, c));
        }
    }
}

/// A sound outcome manager stays sound, whatever is asked of it, as long as nothing expires.
pub proof fn law_requests_keep_sound(s: ManagerState, request: Request)
    requires
        s.sound(),
        !(request is Expire),
    ensures
        s.next(request).sound(),
{
    let t = s.next(request);
    law_requests_keep_well_set(s, request);
    if s.error(request) is None {
        match request {
            Request::SubmitOutcome { registry, signed, .. } => {
                let outcome_hash = report_hash(signed.report());
                let voted = s.after_vote(signed, outcome_hash);
                lemma_vote_is_tallied(s, signed, outcome_hash);
                assert forall|h: Bytes32, c: u64| #[trigger] t.tallied(h, c) by {
                    assert(voted.tallied(h, c));
                    assert(t.voters(h, c) =~= voted.voters(h, c));
                }
            },
            _ => {
                lemma_same_entries_sound(s, t);
            },
        }
    }
}

/// After any history of requests in which nothing expires, an outcome manager that starts out
/// sound is sound.
pub proof fn law_history_keeps_sound(s: ManagerState, history: Seq<(Seq<Address>, Request)>)
    requires
        s.sound(),
        nothing_expires(history),
    ensures
        s.run(history).sound(),
    decreases history.len(),
{
    if history.len() > 0 {
        let (authorized, request) = history.last();
        let before = s.run(history.drop_last());
        assert(nothing_expires(history.drop_last())) by {
            assert forall|i: int| 0 <= i < history.len() - 1 implies !((
            #[trigger] history.drop_last()[i]).1 is Expire) by {
                assert(!(history[i].1 is Expire));
            }
        }
        assert(!(history[history.len() - 1].1 is Expire));
        law_history_keeps_sound(s, history.drop_last());
        lemma_same_entries_sound(before, before.at(authorized));
        law_requests_keep_sound(before.at(authorized), request);
    }
}

/// As long as no vote and no count has expired, a vote decides its call exactly when, with it, a
/// quorum of different oracles has voted for one report; the outcome is then what they reported.
pub proof fn law_quorum_decides(
    s: ManagerState,
    registry: Address,
    signed: SignedOutcome,
    signature_valid: bool,
)
    requires
        s.sound(),
        s.submit_error(signed, signature_valid) is None,
    ensures
        ({
            let outcome_hash = report_hash(signed.report());
            let t = s.after_submit(registry, signed, outcome_hash);
            &&& t.voters(outcome_hash, signed.call_id).finite()
            &&& t.voters(outcome_hash, signed.call_id).contains(signed.oracle_pubkey)
            &&& t.final_outcomes.contains_key(signed.call_id) <==> t.voters(
                outcome_hash,
                signed.call_id,
            ).len() >= s.quorum->0
            &&& t.final_outcomes.contains_key(signed.call_id)
                ==> t.final_outcomes[signed.call_id] == signed.report()
        }),
{
    let outcome_hash = report_hash(signed.report());
    let voted = s.after_vote(signed, outcome_hash);
    let t = s.after_submit(registry, signed, outcome_hash);
    lemma_vote_is_tallied(s, signed, outcome_hash);
    assert(voted.tallied(outcome_hash, signed.call_id));
    assert(t.voters(outcome_hash, signed.call_id) =~= voted.voters(outcome_hash, signed.call_id));
}

/// A call gets an outcome only from a report that a trusted oracle signed.
pub proof fn law_only_oracles_decide(s: ManagerState, request: Request, call_id: u64)
    requires
        !s.final_outcomes.contains_key(call_id),
        s.next(request).final_outcomes.contains_key(call_id),
    ensures
        request matches Request::SubmitOutcome { signed, signature_valid, .. } && {
            &&& signature_valid
            &&& s.oracles is Some
            &&& s.oracles->0.contains_key(signed.oracle_pubkey.key())
            &&& signed.call_id == call_id
            &&& s.next(request).final_outcomes[call_id] == signed.report()
        },
{
}

/// Whatever is asked of it, the outcome manager keeps the outcomes that it has and the claims
/// that were paid, and stays set up. It keeps every vote that was cast until the vote expires.
pub proof fn law_requests_keep_decisions(s: ManagerState, request: Request)
    ensures
        s.admin is Some ==> s.next(request).admin is Some,
        forall|call_id: u64| #[trigger]
            s.final_outcomes.contains_key(call_id) ==> s.next(
                request,
            ).final_outcomes.contains_key(call_id) && s.next(request).final_outcomes[call_id]
                == s.final_outcomes[call_id],
        forall|key: (Bytes32, u64)| #[trigger]
            s.submissions.contains_key(key) && request != (Request::Expire {
                key: TempKey::Submission(key.0, key.1),
            }) ==> s.next(request).submissions.contains_key(key)
                && s.next(request).submissions[key] == s.submissions[key],
        forall|key: (u64, Address)| #[trigger]
            s.claimed.contains_key(key) ==> s.next(request).claimed.contains_key(key),
{
}

/// The same over a history of requests, in which a vote may expire.
pub proof fn law_history_keeps_decisions(s: ManagerState, history: Seq<(Seq<Address>, Request)>)
    ensures
        s.admin is Some ==> s.run(history).admin is Some,
        forall|call_id: u64| #[trigger]
            s.final_outcomes.contains_key(call_id) ==> s.run(
                history,
            ).final_outcomes.contains_key(call_id) && s.run(history).final_outcomes[call_id]
                == s.final_outcomes[call_id],
        forall|key: (Bytes32, u64)| #[trigger]
            s.submissions.contains_key(key) && vote_is_kept(history, key.0, key.1) ==> s.run(
                history,
            ).submissions.contains_key(key)
                && s.run(history).submissions[key] == s.submissions[key],
        forall|key: (u64, Address)| #[trigger]
            s.claimed.contains_key(key) ==> s.run(history).claimed.contains_key(key),
    decreases history.len(),
{
    if history.len() > 0 {
        let (authorized, request) = history.last();
        let before = s.run(history.drop_last()).at(authorized);
        law_history_keeps_decisions(s, history.drop_last());
        law_requests_keep_decisions(before, request);
        assert forall|call_id: u64| #[trigger] s.final_outcomes.contains_key(call_id) implies
            s.run(history).final_outcomes.contains_key(call_id) && s.run(
            history,
        ).final_outcomes[call_id] == s.final_outcomes[call_id] by {
            assert(before.final_outcomes.contains_key(call_id));
        }
        assert forall|key: (Bytes32, u64)| #[trigger]
            s.submissions.contains_key(key) && vote_is_kept(history, key.0, key.1) implies
            s.run(history).submissions.contains_key(key) && s.run(history).submissions[key]
            == s.submissions[key] by {
            assert(vote_is_kept(history.drop_last(), key.0, key.1)) by {
                assert forall|i: int| 0 <= i < history.len() - 1 implies (
                #[trigger] history.drop_last()[i]).1 != (Request::Expire {
                    key: TempKey::Submission(key.0, key.1),
                }) by {
                    assert(history[i] == history.drop_last()[i]);
                }
            }
            assert(history[history.len() - 1] == history.last());
            assert(before.submissions.contains_key(key));
        }
        assert forall|key: (u64, Address)| #[trigger] s.claimed.contains_key(key) implies s.run(
            history,
        ).claimed.contains_key(key) by {
            assert(before.claimed.contains_key(key));
        }
    }
}

/// An outcome manager that is set up is never set up again.
pub proof fn law_initialized_once(
    s: ManagerState,
    history: Seq<(Seq<Address>, Request)>,
    admin: Address,
    oracles: Seq<Bytes32>,
    quorum: u32,
    fee_bps: u32,
)
    requires
        s.admin is Some,
    ensures
        s.run(history).initialize_error(admin, oracles, quorum, fee_bps) == Some(
            ManagerError::AlreadyInitialized,
        ),
{
    law_history_keeps_decisions(s, history);
}

/// Once a call has its outcome, no vote on it is taken, whatever is asked in between.
pub proof fn law_no_vote_after_decision(
    s: ManagerState,
    history: Seq<(Seq<Address>, Request)>,
    signed: SignedOutcome,
    signature_valid: bool,
)
    requires
        s.final_outcomes.contains_key(signed.call_id),
    ensures
        s.run(history).submit_error(signed, signature_valid) is Some,
        s.run(history).final_outcomes[signed.call_id] == s.final_outcomes[signed.call_id],
{
    law_history_keeps_decisions(s, history);
}

/// An oracle votes on a call once: as long as its vote has not expired, a second report of it on
/// the same call is refused, whatever it says and whatever is asked in between.
pub proof fn law_one_vote_per_oracle(
    s: ManagerState,
    registry: Address,
    first: SignedOutcome,
    history: Seq<(Seq<Address>, Request)>,
    second: SignedOutcome,
    signature_valid: bool,
)
    requires
        s.submit_error(first, true) is None,
        second.oracle_pubkey == first.oracle_pubkey,
        second.call_id == first.call_id,
        vote_is_kept(history, first.oracle_pubkey, first.call_id),
    ensures
        s.after_submit(registry, first, report_hash(first.report())).run(history).submit_error(
            second,
            signature_valid,
        ) is Some,
{
    let t = s.after_submit(registry, first, report_hash(first.report()));
    assert(t.submissions.contains_key((first.oracle_pubkey, first.call_id)));
    law_history_keeps_decisions(t, history);
}

/// A staker is paid for a call once: a second claim is refused, whatever it says and whatever is
/// asked in between.
pub proof fn law_claimed_once(
    s: ManagerState,
    registry: Address,
    call_id: u64,
    staker: Address,
    first: (i128, i128, i128),
    history: Seq<(Seq<Address>, Request)>,
    second: (i128, i128, i128),
)
    requires
        s.claim_error(call_id, staker, first.0, first.1, first.2) is None,
    ensures
        s.after_claim(
            registry,
            call_id,
            staker,
            s.payout_for(first.0, first.1, first.2),
        ).run(history).claim_error(call_id, staker, second.0, second.1, second.2) is Some,
{
    let t = s.after_claim(registry, call_id, staker, s.payout_for(first.0, first.1, first.2));
    assert(t.claimed.contains_key((call_id, staker)));
    law_history_keeps_decisions(t, history);
}

/// That a staker was paid is stored before anything is paid.
pub proof fn law_claim_is_stored_before_it_is_paid(
    s: ManagerState,
    registry: Address,
    call_id: u64,
    staker: Address,
    stakes: (i128, i128, i128),
)
    ensures
        ({
            let t = s.after_claim(
                registry,
                call_id,
                staker,
                s.payout_for(stakes.0, stakes.1, stakes.2),
            );
            let first = s.effects.len() as int;
            &&& first < t.effects.len()
            &&& t.effects.take(first) == s.effects
            &&& t.effects[first] == ManagerEffect::Save(InstanceKey::Claimed(call_id, staker))
            &&& forall|i: int|
                first <= i < t.effects.len() && (#[trigger] t.effects[i]) is ReleaseEscrow ==> first
                    < i
        }),
{
    let t = s.after_claim(registry, call_id, staker, s.payout_for(stakes.0, stakes.1, stakes.2));
    assert(t.effects.take(s.effects.len() as int) =~= s.effects);
}

/// Once the outcome manager is set up, only a request that its administrator authorized changes
/// who it trusts, how many of them decide, and who administers it.
pub proof fn law_only_admin_reconfigures(s: ManagerState, request: Request)
    requires
        s.admin is Some,
        s.next(request).admin != s.admin || s.next(request).oracles != s.oracles || s.next(
            request,
        ).quorum != s.quorum,
    ensures
        s.authorized.contains(s.admin->0),
{
}

/// Once the outcome manager is set up, the fee and its receiver are fixed.
pub proof fn law_fee_is_fixed(s: ManagerState, request: Request)
    requires
        s.admin is Some,
    ensures
        s.next(request).fee_bps == s.fee_bps,
        s.next(request).fee_collector == s.fee_collector,
{
}

/// Only a staker who authorized the request is paid.
pub proof fn law_only_staker_claims(
    s: ManagerState,
    request: Request,
    call_id: u64,
    staker: Address,
)
    requires
        !s.claimed.contains_key((call_id, staker)),
        s.next(request).claimed.contains_key((call_id, staker)),
    ensures
        s.authorized.contains(staker),
        s.final_outcomes.contains_key(call_id),
{
}

/// An oracle is trusted right after it is added, and not right after it is removed; the others
/// are trusted as before.
pub proof fn law_oracles_are_added_and_removed(
    oracles: Map<(u128, u128), bool>,
    oracle: Bytes32,
    other: Bytes32,
)
    requires
        other != oracle,
    ensures
        oracles.insert(oracle.key(), true).contains_key(oracle.key()),
        !oracles.remove(oracle.key()).contains_key(oracle.key()),
        oracles.insert(oracle.key(), true).contains_key(other.key()) == oracles.contains_key(
            other.key(),
        ),
        oracles.remove(oracle.key()).contains_key(other.key()) == oracles.contains_key(
            other.key(),
        ),
{
    assert(other.key() != oracle.key()) by {
        if other.key() == oracle.key() {
            assert(other == oracle);
        }
    }
}

/// Exactly the oracles that are given at the start are trusted.
pub proof fn law_initial_oracles(oracles: Seq<Bytes32>, oracle: Bytes32)
    ensures
        oracle_set(oracles).contains_key(oracle.key()) <==> oracles.contains(oracle),
    decreases oracles.len(),
{
    if oracles.len() > 0 {
        law_initial_oracles(oracles.drop_last(), oracle);
        let last = oracles.last();
        if oracle.key() == last.key() {
            assert(oracle == last);
            assert(oracles[oracles.len() - 1] == oracle);
        }
        if oracles.drop_last().contains(oracle) {
            let i = choose|i: int|
                0 <= i < oracles.drop_last().len() && oracles.drop_last()[i] == oracle;
            assert(oracles[i] == oracle);
        }
        if oracles.contains(oracle) && oracle != last {
            let i = choose|i: int| 0 <= i < oracles.len() && oracles[i] == oracle;
            assert(oracles.drop_last()[i] == oracle);
        }
    }
}

} // verus!
