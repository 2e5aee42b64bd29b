//! What each request does, entry by entry and effect by effect.
//!
//! The laws here speak of a request's inputs, of the entries before and behind it, and of what
//! the host is asked to do, with every number written out.

use vstd::prelude::*;
use crate::address::Address;
use crate::arith::{lemma_trunc_div_bound, trunc_div};
use crate::bytes32::{bytes32, Bytes32};
use crate::host::sha256_digest;
use crate::outcome_manager::contract::{oracle_set, report_hash};
use crate::outcome_manager::laws::{
    law_history_keeps_sound, law_initial_oracles, law_quorum_decides, nothing_expires, Request,
};
use crate::outcome_manager::payout::{fee_share, law_payout_formula, payout, payout_error};
use crate::outcome_manager::storage::{
    InstanceKey, ManagerEffect, ManagerEnv, ManagerState, TempKey,
};
use crate::outcome_manager::types::{ManagerError, ManagerEvent, Outcome, SignedOutcome};
use crate::outcome_manager::verification::{canonical_message, lemma_message_injective};

verus! {

/// The value of what an invocation works on is its fields.
pub proof fn law_value_of_environment(env: ManagerEnv)
    ensures
        env@.authorized == env.authorized@,
        env@.admin == env.admin,
        env@.oracles is Some <==> env.oracles is Some,
        env.oracles is Some ==> env@.oracles->0 == env.oracles->0@,
        env@.quorum == env.quorum,
        env@.fee_collector == env.fee_collector,
        env@.fee_bps == env.fee_bps,
        env@.final_outcomes == env.final_outcomes@,
        env@.claimed == env.claimed@,
        env@.submissions == env.submissions@,
        env@.votes == env.votes@,
        env@.effects == env.effects@,
{
}

/// There is no fee where none is stored, and no vote where none is counted; oracles are told
/// apart by their whole keys.
pub proof fn law_missing_entries(
    s: ManagerState,
    outcome_hash: Bytes32,
    call_id: u64,
    oracle: Bytes32,
)
    ensures
        s.fee_bps is None ==> s.fee() == 0,
        s.fee_bps is Some ==> s.fee_bps == Some(s.fee()),
        !s.votes.contains_key((outcome_hash, call_id)) ==> s.vote_count(outcome_hash, call_id)
            == 0,
        s.votes.contains_key((outcome_hash, call_id)) ==> s.vote_count(outcome_hash, call_id)
            == s.votes[(outcome_hash, call_id)],
        oracle.key() == (oracle.hi, oracle.lo),
{
}

/// A report is the call, the outcome, the price and the time that were signed.
pub proof fn law_report_is_what_was_signed(signed: SignedOutcome)
    ensures
        signed.report().call_id == signed.call_id,
        signed.report().outcome == signed.outcome,
        signed.report().price == signed.price,
        signed.report().timestamp == signed.timestamp,
{
}

/// The outcome manager is set up if it is not, the administrator authorizes it, the quorum is at
/// least one and at most the number of given oracles, and the fee is at most 10000 basis points.
/// It then has the settings that were given, and trusts the given oracles and no others.
pub proof fn law_initialize(
    s: ManagerState,
    admin: Address,
    oracles: Seq<Bytes32>,
    quorum: u32,
    fee_collector: Address,
    fee_bps: u32,
)
    ensures
        ({
            let error = s.initialize_error(admin, oracles, quorum, fee_bps);
            let auth = s.admin is None && s.authorized.contains(admin);
            let counted = auth && 1 <= quorum && quorum <= oracles.len();
            &&& error is None <==> counted && fee_bps <= 10_000
            &&& error == Some(ManagerError::AlreadyInitialized) <==> s.admin is Some
            &&& error == Some(ManagerError::Unauthorized) <==> s.admin is None
                && !s.authorized.contains(admin)
            &&& error == Some(ManagerError::InvalidQuorum) <==> auth && !counted
            &&& error == Some(ManagerError::InvalidFeeBps) <==> counted && fee_bps > 10_000
        }),
        ({
            let t = s.after_initialize(admin, oracles, quorum, fee_collector, fee_bps);
            &&& t.admin == Some(admin)
            &&& t.quorum == Some(quorum)
            &&& t.fee_collector == Some(fee_collector)
            &&& t.fee_bps == Some(fee_bps)
            &&& t.oracles is Some
            &&& forall|oracle: Bytes32| #[trigger]
                oracles.contains(oracle) <==> t.oracles->0.contains_key((oracle.hi, oracle.lo))
            &&& t.effects == s.effects + seq![
                ManagerEffect::Save(InstanceKey::Admin),
                ManagerEffect::Save(InstanceKey::Oracles),
                ManagerEffect::Save(InstanceKey::Quorum),
                ManagerEffect::Save(InstanceKey::FeeCollector),
                ManagerEffect::Save(InstanceKey::FeeBps),
            ]
            &&& t == (ManagerState {
                admin: t.admin,
                oracles: t.oracles,
                quorum: t.quorum,
                fee_collector: t.fee_collector,
                fee_bps: t.fee_bps,
                effects: t.effects,
                ..s
            })
        }),
{
    assert forall|oracle: Bytes32| #[trigger]
        oracles.contains(oracle) <==> oracle_set(oracles).contains_key((oracle.hi, oracle.lo)) by {
        law_initial_oracles(oracles, oracle);
    }
}

/// The administrator's requests are granted if the outcome manager is set up and its
/// administrator authorizes them. An oracle is added only if there is room, a quorum is set only
/// if it is at least one and at most the number of oracles, and a call is closed only if it has
/// its outcome.
pub proof fn law_admin_is_granted(s: ManagerState, oracle: Bytes32, quorum: u32, call_id: u64)
    ensures
        ({
            let auth = s.admin is Some && s.authorized.contains(s.admin->0);
            let ready = auth && s.oracles is Some;
            let members = s.oracles->0;
            let room = members.contains_key((oracle.hi, oracle.lo)) || members.len()
                < 0xffff_ffff;
            let decided = s.final_outcomes.contains_key(call_id);
            let new_admin = s.admin_error();
            let removal = s.oracles_error();
            let addition = s.add_oracle_error(oracle);
            let change = s.set_quorum_error(quorum);
            let closing = s.mark_settled_error(call_id);
            let refused = Some(ManagerError::Unauthorized);
            let unset = Some(ManagerError::NotInitialized);
            &&& new_admin is None <==> auth
            &&& new_admin == unset <==> s.admin is None
            &&& new_admin == refused <==> s.admin is Some && !auth
            &&& removal is None <==> ready
            &&& removal == unset <==> s.admin is None || auth && s.oracles is None
            &&& removal == refused <==> s.admin is Some && !auth
            &&& addition is None <==> ready && room
            &&& addition == unset <==> s.admin is None || auth && s.oracles is None
            &&& addition == refused <==> s.admin is Some && !auth
            &&& addition == Some(ManagerError::TooManyEntries) <==> ready && !room
            &&& change is None <==> ready && 1 <= quorum && quorum <= members.len()
            &&& change == unset <==> s.admin is None || auth && s.oracles is None
            &&& change == refused <==> s.admin is Some && !auth
            &&& change == Some(ManagerError::InvalidQuorum) <==> ready && (quorum < 1 || quorum
                > members.len())
            &&& closing is None <==> auth && decided
            &&& closing == unset <==> s.admin is None
            &&& closing == refused <==> s.admin is Some && !auth
            &&& closing == Some(ManagerError::CallNotFinalized) <==> auth && !decided
        }),
{
}

/// Each of the administrator's requests sets the one thing that it is about to what was given,
/// and has it saved; whatever the host is asked for comes behind what it was asked for before.
pub proof fn law_admin_changes_one_thing(
    s: ManagerState,
    members: Map<(u128, u128), bool>,
    quorum: u32,
    new_admin: Address,
    effect: ManagerEffect,
)
    ensures
        ({
            let by_oracles = s.after_set_oracles(members);
            let by_quorum = s.after_set_quorum(quorum);
            let by_admin = s.after_set_admin(new_admin);
            let asked = s.after(effect);
            &&& by_oracles.oracles == Some(members)
            &&& by_oracles.effects == s.effects + seq![ManagerEffect::Save(InstanceKey::Oracles)]
            &&& by_oracles == (ManagerState {
                oracles: by_oracles.oracles,
                effects: by_oracles.effects,
                ..s
            })
            &&& by_quorum.quorum == Some(quorum)
            &&& by_quorum.effects == s.effects + seq![ManagerEffect::Save(InstanceKey::Quorum)]
            &&& by_quorum == (ManagerState {
                quorum: by_quorum.quorum,
                effects: by_quorum.effects,
                ..s
            })
            &&& by_admin.admin == Some(new_admin)
            &&& by_admin.effects == s.effects + seq![ManagerEffect::Save(InstanceKey::Admin)]
            &&& by_admin == (ManagerState {
                admin: by_admin.admin,
                effects: by_admin.effects,
                ..s
            })
            &&& asked.effects == s.effects + seq![effect]
            &&& asked == (ManagerState { effects: asked.effects, ..s })
        }),
{
}

/// A report is taken if the oracle that signed it is trusted, the call has no outcome yet, the
/// oracle has no vote on the call, the outcome is 1 or 2, the signature is the oracle's, and the
/// vote can be counted.
pub proof fn law_report_is_taken(s: ManagerState, signed: SignedOutcome, signature_valid: bool)
    ensures
        ({
            let trusted = s.oracles is Some && s.oracles->0.contains_key(
                (signed.oracle_pubkey.hi, signed.oracle_pubkey.lo),
            );
            let undecided = trusted && !s.final_outcomes.contains_key(signed.call_id);
            let first = undecided && !s.submissions.contains_key(
                (signed.oracle_pubkey, signed.call_id),
            );
            let checked = first && (signed.outcome == 1 || signed.outcome == 2);
            let hash = bytes32(
                sha256_digest(
                    canonical_message(
                        (Outcome {
                            call_id: signed.call_id,
                            outcome: signed.outcome,
                            price: signed.price,
                            timestamp: signed.timestamp,
                        }),
                    ),
                ),
            );
            let full = s.votes.contains_key((hash, signed.call_id)) && s.votes[(
                hash,
                signed.call_id,
            )] == 0xffff_ffff;
            let check = s.check_error(signed);
            let error = s.submit_error(signed, signature_valid);
            &&& check is None <==> checked
            &&& check == Some(ManagerError::NotInitialized) <==> s.oracles is None
            &&& check == Some(ManagerError::UnauthorizedOracle) <==> s.oracles is Some && !trusted
            &&& check == Some(ManagerError::AlreadySettled) <==> trusted && !undecided
            &&& check == Some(ManagerError::DuplicateSubmission) <==> undecided && !first
            &&& check == Some(ManagerError::InvalidOutcome) <==> first && !checked
            &&& error is None <==> checked && signature_valid && !full && s.quorum is Some
            &&& !checked ==> error == check
            &&& error == Some(ManagerError::InvalidSignature) <==> checked && !signature_valid
            &&& error == Some(ManagerError::Overflow) <==> checked && signature_valid && full
            &&& checked && signature_valid && !full && s.quorum is None ==> error == Some(
                ManagerError::NotInitialized,
            )
        }),
{
}

/// A vote can be counted under a digest if there is a quorum and the count can go up.
pub proof fn law_vote_is_counted(s: ManagerState, outcome_hash: Bytes32, call_id: u64)
    ensures
        ({
            let full = s.votes.contains_key((outcome_hash, call_id)) && s.votes[(
                outcome_hash,
                call_id,
            )] == 0xffff_ffff;
            let error = s.vote_error(outcome_hash, call_id);
            &&& error is None <==> !full && s.quorum is Some
            &&& error == Some(ManagerError::Overflow) <==> full
            &&& error == Some(ManagerError::NotInitialized) <==> !full && s.quorum is None
        }),
{
}

/// A vote under a digest is stored as the oracle's on the call and counted with those under the
/// same digest. If that makes as many as the quorum, the call has what the oracle reported as its
/// outcome, and the registry is told exactly that, once it is stored. No other vote, count or
/// outcome changes.
pub proof fn law_vote_decides_with_quorum(
    s: ManagerState,
    registry: Address,
    signed: SignedOutcome,
    outcome_hash: Bytes32,
)
    requires
        s.vote_error(outcome_hash, signed.call_id) is None,
    ensures
        ({
            let t = s.after_submit(registry, signed, outcome_hash);
            let vote = (signed.oracle_pubkey, signed.call_id);
            let tally = (outcome_hash, signed.call_id);
            let votes = 1 + (if s.votes.contains_key(tally) {
                s.votes[tally] as int
            } else {
                0
            });
            let decides = votes >= s.quorum->0;
            let voted = seq![
                ManagerEffect::SaveTemporary(
                    TempKey::Submission(signed.oracle_pubkey, signed.call_id),
                ),
                ManagerEffect::SaveTemporary(TempKey::VoteCount(outcome_hash, signed.call_id)),
                ManagerEffect::Publish(
                    ManagerEvent::OutcomeSubmitted {
                        call_id: signed.call_id,
                        oracle: signed.oracle_pubkey,
                        outcome: signed.outcome,
                    },
                ),
            ];
            let decided = seq![
                ManagerEffect::Save(InstanceKey::FinalOutcome(signed.call_id)),
                ManagerEffect::ResolveCall {
                    registry,
                    call_id: signed.call_id,
                    outcome: signed.outcome,
                    end_price: signed.price,
                },
                ManagerEffect::Publish(
                    ManagerEvent::OutcomeFinalized {
                        call_id: signed.call_id,
                        outcome: signed.outcome,
                        price: signed.price,
                    },
                ),
            ];
            &&& t.submissions.contains_key(vote)
            &&& t.submissions[vote] == outcome_hash
            &&& t.submissions.remove(vote) == s.submissions.remove(vote)
            &&& t.votes.contains_key(tally)
            &&& t.votes[tally] == votes
            &&& t.votes.remove(tally) == s.votes.remove(tally)
            &&& decides ==> {
                let outcome = t.final_outcomes[signed.call_id];
                &&& t.final_outcomes.contains_key(signed.call_id)
                &&& outcome.call_id == signed.call_id
                &&& outcome.outcome == signed.outcome
                &&& outcome.price == signed.price
                &&& outcome.timestamp == signed.timestamp
                &&& t.final_outcomes.remove(signed.call_id) == s.final_outcomes.remove(
                    signed.call_id,
                )
                &&& t.effects == s.effects + voted + decided
            }
            &&& !decides ==> t.final_outcomes == s.final_outcomes && t.effects == s.effects + voted
            &&& t == (ManagerState {
                submissions: t.submissions,
                votes: t.votes,
                final_outcomes: t.final_outcomes,
                effects: t.effects,
                ..s
            })
        }),
{
}

/// The digest that stands for a report is the SHA-256 digest of the report's canonical message.
pub proof fn law_hash_is_digest_of_message(report: Outcome)
    ensures
        report_hash(report) == bytes32(sha256_digest(canonical_message(report))),
{
}

/// The digests of the messages of two reports differ if the messages do.
pub open spec fn no_collision(a: Outcome, b: Outcome) -> bool {
    bytes32(sha256_digest(canonical_message(a))) == bytes32(sha256_digest(canonical_message(b)))
        ==> canonical_message(a) == canonical_message(b)
}

/// Unless two messages have one digest, two votes are counted together only if they agree on the
/// call, the outcome, the price and the time.
pub proof fn law_votes_together_agree(first: SignedOutcome, second: SignedOutcome)
    requires
        report_hash(first.report()) == report_hash(second.report()),
        no_collision(
            (Outcome {
                call_id: first.call_id,
                outcome: first.outcome,
                price: first.price,
                timestamp: first.timestamp,
            }),
            (Outcome {
                call_id: second.call_id,
                outcome: second.outcome,
                price: second.price,
                timestamp: second.timestamp,
            }),
        ),
    ensures
        first.call_id == second.call_id,
        first.outcome == second.outcome,
        first.price == second.price,
        first.timestamp == second.timestamp,
{
    lemma_message_injective(first.report(), second.report());
}

impl ManagerState {
    /// The reports that are taken in a history of requests, in order.
    pub open spec fn reports_taken(self, history: Seq<(Seq<Address>, Request)>) -> Seq<
        SignedOutcome,
    >
        decreases history.len(),
    {
        if history.len() == 0 {
            Seq::empty()
        } else {
            let (authorized, request) = history.last();
            let before = self.run(history.drop_last()).at(authorized);
            let earlier = self.reports_taken(history.drop_last());
            match request {
                Request::SubmitOutcome { signed, signature_valid, .. } => if before.submit_error(
                    signed,
                    signature_valid,
                ) is None {
                    earlier.push(signed)
                } else {
                    earlier
                },
                _ => earlier,
            }
        }
    }
}

/// The oracles that reported on a call exactly what is given.
pub open spec fn reporters(
    reports: Seq<SignedOutcome>,
    call_id: u64,
    outcome: u32,
    price: i128,
    timestamp: u64,
) -> Set<Bytes32> {
    Set::new(
        |oracle: Bytes32|
            exists|i: int|
                0 <= i < reports.len() && (#[trigger] reports[i]).oracle_pubkey == oracle
                    && reports[i].call_id == call_id && reports[i].outcome == outcome
                    && reports[i].price == price && reports[i].timestamp == timestamp,
    )
}

/// Each report that was taken is stored as its oracle's vote, under its digest.
spec fn votes_match(s: ManagerState, reports: Seq<SignedOutcome>) -> bool {
    &&& forall|i: int|
        0 <= i < reports.len() ==> s.submissions.contains_key(
            ((#[trigger] reports[i]).oracle_pubkey, reports[i].call_id),
        ) && s.submissions[(reports[i].oracle_pubkey, reports[i].call_id)] == report_hash(
            reports[i].report(),
        )
    &&& forall|oracle: Bytes32, call_id: u64| #[trigger]
        s.submissions.contains_key((oracle, call_id)) ==> exists|i: int|
            0 <= i < reports.len() && (#[trigger] reports[i]).oracle_pubkey == oracle
                && reports[i].call_id == call_id
}

/// The votes on the ledger are the reports that were taken.
proof fn lemma_history_matches_votes(s: ManagerState, history: Seq<(Seq<Address>, Request)>)
    requires
        s.submissions.dom() == Set::<(Bytes32, u64)>::empty(),
        nothing_expires(history),
    ensures
        votes_match(s.run(history), s.reports_taken(history)),
    decreases history.len(),
{
    let reports = s.reports_taken(history);
    let t = s.run(history);
    if history.len() > 0 {
        let (authorized, request) = history.last();
        let earlier = history.drop_last();
        assert(nothing_expires(earlier)) by {
            assert forall|i: int| 0 <= i < earlier.len() implies !((#[trigger] earlier[i]).1
                is Expire) by {
                assert(!(history[i].1 is Expire));
            }
        }
        assert(!(history[history.len() - 1].1 is Expire));
        lemma_history_matches_votes(s, earlier);
        let before = s.run(earlier).at(authorized);
        let old_reports = s.reports_taken(earlier);
        match request {
            Request::SubmitOutcome { registry, signed, signature_valid } => {
                if before.submit_error(signed, signature_valid) is None {
                    let key = (signed.oracle_pubkey, signed.call_id);
                    assert(t.submissions == before.submissions.insert(
                        key,
                        report_hash(signed.report()),
                    ));
                    assert forall|i: int| 0 <= i < reports.len() implies t.submissions.contains_key(
                        ((#[trigger] reports[i]).oracle_pubkey, reports[i].call_id),
                    ) && t.submissions[(reports[i].oracle_pubkey, reports[i].call_id)]
                        == report_hash(reports[i].report()) by {
                        if i < old_reports.len() {
                            assert(reports[i] == old_reports[i]);
                        }
                    }
                    assert forall|oracle: Bytes32, call_id: u64| #[trigger]
                        t.submissions.contains_key((oracle, call_id)) implies exists|i: int|
                        0 <= i < reports.len() && (#[trigger] reports[i]).oracle_pubkey == oracle
                            && reports[i].call_id == call_id by {
                        if (oracle, call_id) == key {
                            assert(reports[old_reports.len() as int] == signed);
                        } else {
                            assert(before.submissions.contains_key((oracle, call_id)));
                            let i = choose|i: int|
                                0 <= i < old_reports.len() && (
                                #[trigger] old_reports[i]).oracle_pubkey == oracle
                                    && old_reports[i].call_id == call_id;
                            assert(reports[i] == old_reports[i]);
                        }
                    }
                }
            },
            _ => {
                assert(t.submissions == before.submissions);
            },
        }
    }
}

/// From a ledger without votes on, and as long as no vote expires and no two messages of taken
/// reports have one digest, a report decides its call exactly when, with it, at least a quorum of
/// different oracles reported the same call, outcome, price and time; the outcome is then what
/// all of them reported.
pub proof fn law_quorum_reported_the_outcome(
    s: ManagerState,
    history: Seq<(Seq<Address>, Request)>,
    authorized: Seq<Address>,
    registry: Address,
    signed: SignedOutcome,
    signature_valid: bool,
)
    requires
        s.sound(),
        s.submissions.dom() == Set::<(Bytes32, u64)>::empty(),
        nothing_expires(history),
        s.run(history).at(authorized).submit_error(signed, signature_valid) is None,
        forall|i: int|
            0 <= i < s.reports_taken(history).len() ==> no_collision(
                (#[trigger] s.reports_taken(history)[i]).report(),
                signed.report(),
            ),
    ensures
        ({
            let before = s.run(history).at(authorized);
            let t = before.after_submit(registry, signed, report_hash(signed.report()));
            let agreeing = reporters(
                s.reports_taken(history).push(signed),
                signed.call_id,
                signed.outcome,
                signed.price,
                signed.timestamp,
            );
            &&& agreeing.finite()
            &&& t.final_outcomes.contains_key(signed.call_id) <==> agreeing.len()
                >= before.quorum->0
            &&& t.final_outcomes.contains_key(signed.call_id) ==> {
                let outcome = t.final_outcomes[signed.call_id];
                &&& outcome.outcome == signed.outcome
                &&& outcome.price == signed.price
                &&& outcome.timestamp == signed.timestamp
            }
        }),
{
    let before = s.run(history).at(authorized);
    let hash = report_hash(signed.report());
    let t = before.after_submit(registry, signed, hash);
    let old_reports = s.reports_taken(history);
    let reports = old_reports.push(signed);
    let agreeing = reporters(
        reports,
        signed.call_id,
        signed.outcome,
        signed.price,
        signed.timestamp,
    );
    let voters = t.voters(hash, signed.call_id);
    lemma_history_matches_votes(s, history);
    law_history_keeps_sound(s, history);
    lemma_at_is_sound(s.run(history), authorized);
    law_quorum_decides(before, registry, signed, signature_valid);
    assert(t.submissions == before.submissions.insert(
        (signed.oracle_pubkey, signed.call_id),
        hash,
    ));
    assert forall|oracle: Bytes32| voters.contains(oracle) implies agreeing.contains(oracle) by {
        if oracle == signed.oracle_pubkey {
            assert(reports[old_reports.len() as int] == signed);
        } else {
            assert(before.submissions.contains_key((oracle, signed.call_id)));
            let i = choose|i: int|
                0 <= i < old_reports.len() && (#[trigger] old_reports[i]).oracle_pubkey == oracle
                    && old_reports[i].call_id == signed.call_id;
            assert(reports[i] == old_reports[i]);
            assert(no_collision(old_reports[i].report(), signed.report()));
            lemma_message_injective(old_reports[i].report(), signed.report());
        }
    }
    assert forall|oracle: Bytes32| agreeing.contains(oracle) implies voters.contains(oracle) by {
        let i = choose|i: int|
            0 <= i < reports.len() && (#[trigger] reports[i]).oracle_pubkey == oracle
                && reports[i].call_id == signed.call_id && reports[i].outcome == signed.outcome
                && reports[i].price == signed.price && reports[i].timestamp == signed.timestamp;
        if i < old_reports.len() {
            assert(reports[i] == old_reports[i]);
            assert(reports[i].report() == signed.report());
        }
    }
    assert(agreeing =~= voters);
}

/// Who authorizes an invocation is no matter of soundness.
proof fn lemma_at_is_sound(s: ManagerState, authorized: Seq<Address>)
    requires
        s.sound(),
    ensures
        s.at(authorized).sound(),
{
    let t = s.at(authorized);
    assert forall|outcome_hash: Bytes32, call_id: u64| #[trigger]
        t.tallied(outcome_hash, call_id) by {
        assert(s.tallied(outcome_hash, call_id));
        assert(t.voters(outcome_hash, call_id) =~= s.voters(outcome_hash, call_id));
    }
}

/// A payout can be worked out if the fee before division, the two shares before division and the
/// sum fit an `i128`. The fee is `lost * fee_bps / 10000`, and the shares are those of `stake` in
/// `won`, all rounded towards zero.
pub proof fn law_payout_within_reach(stake: int, won: int, lost: int, fee_bps: int)
    requires
        won > 0,
    ensures
        ({
            let least = -0x8000_0000_0000_0000_0000_0000_0000_0000int;
            let bound = 0x8000_0000_0000_0000_0000_0000_0000_0000int;
            let fee = trunc_div(lost * fee_bps, 10_000);
            let amount = stake + trunc_div(stake * (lost - fee), won);
            let fee_fits = least <= lost * fee_bps < bound;
            let share_fits = fee_fits && least <= stake * fee < bound;
            let prize_fits = share_fits && least <= stake * (lost - fee) < bound;
            let error = payout_error(stake, won, lost, fee_bps);
            &&& error is None <==> prize_fits && least <= amount < bound
            &&& error == Some(ManagerError::FeeOverflow) <==> !fee_fits
            &&& error == Some(ManagerError::FeeShareOverflow) <==> fee_fits && !share_fits
            &&& error == Some(ManagerError::PrizeOverflow) <==> share_fits && !prize_fits
            &&& error == Some(ManagerError::PayoutOverflow) <==> prize_fits && !(least <= amount
                < bound)
            &&& payout(stake, won, lost, fee_bps) == amount
            &&& fee_share(stake, won, lost, fee_bps) == trunc_div(stake * fee, won)
        }),
{
}

/// A claim is granted if the staker authorizes it, the call has its outcome, the staker was not
/// paid for it, the stake and the winning stakes are positive, there is someone to receive the
/// fee, and the payout can be worked out.
pub proof fn law_claim_is_granted(
    s: ManagerState,
    call_id: u64,
    staker: Address,
    stake: i128,
    won: i128,
    lost: i128,
)
    ensures
        ({
            let auth = s.authorized.contains(staker);
            let decided = auth && s.final_outcomes.contains_key(call_id);
            let first = decided && !s.claimed.contains_key((call_id, staker));
            let staked = first && stake > 0;
            let valid = staked && won > 0;
            let ready = valid && s.fee_collector is Some;
            let fee_bps = match s.fee_bps {
                Some(fee_bps) => fee_bps as int,
                None => 0,
            };
            let error = s.claim_error(call_id, staker, stake, won, lost);
            let reach = payout_error(stake as int, won as int, lost as int, fee_bps);
            &&& error is None <==> ready && reach is None
            &&& error == Some(ManagerError::Unauthorized) <==> !auth
            &&& error == Some(ManagerError::CallNotSettled) <==> auth && !decided
            &&& error == Some(ManagerError::AlreadyClaimed) <==> decided && !first
            &&& error == Some(ManagerError::NothingToClaim) <==> first && !staked
            &&& error == Some(ManagerError::InvalidTotalWinningStake) <==> staked && !valid
            &&& error == Some(ManagerError::FeeCollectorNotSet) <==> valid && !ready
            &&& ready ==> error == reach
        }),
{
}

/// A claim is noted as the staker's on the call, and then has the registry release the winner's
/// share of the fee to the fee collector, if it is positive, and the stake with the winner's share
/// of the prize to the staker, and nothing else. The fee is `lost * fee_bps / 10000`, the prize is
/// `lost` less the fee, and the winner's share of either is `stake / won` of it, all rounded
/// towards zero.
pub proof fn law_claim_releases_payout(
    s: ManagerState,
    registry: Address,
    call_id: u64,
    staker: Address,
    stake: i128,
    won: i128,
    lost: i128,
)
    requires
        s.claim_error(call_id, staker, stake, won, lost) is None,
    ensures
        ({
            let fee_bps = match s.fee_bps {
                Some(fee_bps) => fee_bps as int,
                None => 0,
            };
            let fee = trunc_div(lost * fee_bps, 10_000);
            let share = trunc_div(stake * fee, won as int);
            let amount = stake + trunc_div(stake * (lost - fee), won as int);
            let collector = s.fee_collector->0;
            let t = s.after_claim(registry, call_id, staker, s.payout_for(stake, won, lost));
            let noted = seq![ManagerEffect::Save(InstanceKey::Claimed(call_id, staker))];
            let charged = if share > 0 {
                seq![
                    ManagerEffect::ReleaseEscrow {
                        registry,
                        call_id,
                        to: collector,
                        amount: share as i128,
                    },
                    ManagerEffect::Publish(
                        ManagerEvent::FeeCollected { call_id, amount: share as i128, collector },
                    ),
                ]
            } else {
                Seq::<ManagerEffect>::empty()
            };
            let paid = seq![
                ManagerEffect::ReleaseEscrow {
                    registry,
                    call_id,
                    to: staker,
                    amount: amount as i128,
                },
                ManagerEffect::Publish(
                    ManagerEvent::PayoutClaimed { call_id, staker, amount: amount as i128 },
                ),
            ];
            &&& i128::MIN <= share <= i128::MAX
            &&& i128::MIN <= amount <= i128::MAX
            &&& t.effects == s.effects + noted + charged + paid
            &&& t.claimed.contains_key((call_id, staker))
            &&& t.claimed.remove((call_id, staker)) == s.claimed.remove((call_id, staker))
            &&& t == (ManagerState { claimed: t.claimed, effects: t.effects, ..s })
        }),
{
    let fee_bps = match s.fee_bps {
        Some(fee_bps) => fee_bps as int,
        None => 0,
    };
    let fee = trunc_div(lost * fee_bps, 10_000);
    law_payout_within_reach(stake as int, won as int, lost as int, fee_bps);
    lemma_trunc_div_bound(stake * fee, won as int);
}

/// With losing stakes that are not negative and a fee of at most 10000 basis points, every
/// division of a claim rounds down: the staker gets
/// `stake + stake * (lost - lost * fee_bps / 10000) / won`, and the fee collector
/// `stake * (lost * fee_bps / 10000) / won` if that is positive. The two releases are the only
/// ones, the first to the fee collector and the last to the staker.
pub proof fn law_claim_pays_by_formula(
    s: ManagerState,
    registry: Address,
    call_id: u64,
    staker: Address,
    stake: i128,
    won: i128,
    lost: i128,
)
    requires
        s.claim_error(call_id, staker, stake, won, lost) is None,
        lost >= 0,
        s.fee_bps is Some ==> s.fee_bps->0 <= 10_000,
    ensures
        ({
            let fee_bps = match s.fee_bps {
                Some(fee_bps) => fee_bps as int,
                None => 0,
            };
            let fee = lost * fee_bps / 10_000;
            let share = stake * fee / (won as int);
            let amount = stake + stake * (lost - fee) / (won as int);
            let n = s.effects.len() as int;
            let t = s.after_claim(registry, call_id, staker, s.payout_for(stake, won, lost));
            &&& share > 0 ==> {
                &&& t.effects.len() == n + 5
                &&& t.effects[n + 1] matches ManagerEffect::ReleaseEscrow {
                    registry: asked,
                    call_id: id,
                    to,
                    amount: fees,
                } && asked == registry && id == call_id && to == s.fee_collector->0 && fees
                    == share
                &&& t.effects[n + 3] matches ManagerEffect::ReleaseEscrow {
                    registry: asked,
                    call_id: id,
                    to,
                    amount: paid,
                } && asked == registry && id == call_id && to == staker && paid == amount
                &&& !(t.effects[n] is ReleaseEscrow)
                &&& !(t.effects[n + 2] is ReleaseEscrow)
                &&& !(t.effects[n + 4] is ReleaseEscrow)
            }
            &&& share == 0 ==> {
                &&& t.effects.len() == n + 3
                &&& t.effects[n + 1] matches ManagerEffect::ReleaseEscrow {
                    registry: asked,
                    call_id: id,
                    to,
                    amount: paid,
                } && asked == registry && id == call_id && to == staker && paid == amount
                &&& !(t.effects[n] is ReleaseEscrow)
                &&& !(t.effects[n + 2] is ReleaseEscrow)
            }
            &&& share >= 0
        }),
{
    let fee_bps = match s.fee_bps {
        Some(fee_bps) => fee_bps as int,
        None => 0,
    };
    law_claim_releases_payout(s, registry, call_id, staker, stake, won, lost);
    law_payout_formula(stake as int, won as int, lost as int, fee_bps);
    law_payout_within_reach(stake as int, won as int, lost as int, fee_bps);
    let fee = lost * fee_bps / 10_000;
    assert(stake * fee / (won as int) >= 0) by (nonlinear_arith)
        requires
            stake > 0,
            fee >= 0,
            won > 0,
    ;
}

/// Each refusal has the text that names its reason.
pub proof fn law_refusals_have_texts()
    ensures
        ManagerError::AlreadyInitialized.text() == "already initialized"@,
        ManagerError::NotInitialized.text() == "not initialized"@,
        ManagerError::InvalidQuorum.text() == "invalid quorum"@,
        ManagerError::InvalidFeeBps.text() == "invalid fee_bps"@,
        ManagerError::UnauthorizedOracle.text() == "unauthorized oracle"@,
        ManagerError::AlreadySettled.text() == "already settled"@,
        ManagerError::DuplicateSubmission.text() == "duplicate submission"@,
        ManagerError::InvalidOutcome.text() == "invalid outcome: must be 1 (UP) or 2 (DOWN)"@,
        ManagerError::CallNotSettled.text() == "call not settled"@,
        ManagerError::CallNotFinalized.text() == "call not finalized"@,
        ManagerError::AlreadyClaimed.text() == "already claimed"@,
        ManagerError::NothingToClaim.text() == "nothing to claim"@,
        ManagerError::InvalidTotalWinningStake.text() == "invalid total winning stake"@,
        ManagerError::FeeCollectorNotSet.text() == "fee collector not set"@,
        ManagerError::FeeOverflow.text() == "overflow in fee calculation"@,
        ManagerError::FeeShareOverflow.text() == "overflow in staker fee share"@,
        ManagerError::PrizeOverflow.text() == "overflow in prize calculation"@,
        ManagerError::PayoutOverflow.text() == "overflow in payout sum"@,
{
}

} // verus!
