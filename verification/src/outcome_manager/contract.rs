//! The requests that the outcome manager answers.
//!
//! Each request that can be refused has a specification that names the error, if any, and
//! another that gives the state behind a request that is granted.

use vstd::prelude::*;
use crate::address::Address;
use crate::bytes32::{bytes32, Bytes32};
use crate::host::{sha256, sha256_digest, OracleSet};
use crate::outcome_manager::payout::{compute_payout, fee_share, payout, payout_error, Payout};
use crate::outcome_manager::storage::{
    InstanceKey, ManagerEffect, ManagerEnv, ManagerState, TempKey,
};
use crate::outcome_manager::types::{ManagerError, ManagerEvent, Outcome, SignedOutcome};
use crate::outcome_manager::verification::{build_message, canonical_message};

verus! {

/// The highest fee, in basis points: all of it.
pub const MAX_FEE_BPS: u32 = 10_000;

/// The set of the given public keys.
pub open spec fn oracle_set(oracles: Seq<Bytes32>) -> Map<(u128, u128), bool>
    decreases oracles.len(),
{
    if oracles.len() == 0 {
        Map::empty()
    } else {
        oracle_set(oracles.drop_last()).insert(oracles.last().key(), true)
    }
}

/// The digest of the canonical message of a report.
pub open spec fn report_hash(report: Outcome) -> Bytes32 {
    bytes32(sha256_digest(canonical_message(report)))
}

impl ManagerState {
    /// Why the outcome manager cannot be set up, if it cannot.
    pub open spec fn initialize_error(
        self,
        admin: Address,
        oracles: Seq<Bytes32>,
        quorum: u32,
        fee_bps: u32,
    ) -> Option<ManagerError> {
        if self.admin is Some {
            Some(ManagerError::AlreadyInitialized)
        } else if !self.authorized.contains(admin) {
            Some(ManagerError::Unauthorized)
        } else if quorum == 0 || quorum > oracles.len() {
            Some(ManagerError::InvalidQuorum)
        } else if fee_bps > MAX_FEE_BPS {
            Some(ManagerError::InvalidFeeBps)
        } else {
            None
        }
    }

    /// The outcome manager is set up.
    pub open spec fn after_initialize(
        self,
        admin: Address,
        oracles: Seq<Bytes32>,
        quorum: u32,
        fee_collector: Address,
        fee_bps: u32,
    ) -> ManagerState {
        ManagerState {
            admin: Some(admin),
            oracles: Some(oracle_set(oracles)),
            quorum: Some(quorum),
            fee_collector: Some(fee_collector),
            fee_bps: Some(fee_bps),
            ..self
        }.after(ManagerEffect::Save(InstanceKey::Admin)).after(
            ManagerEffect::Save(InstanceKey::Oracles),
        ).after(ManagerEffect::Save(InstanceKey::Quorum)).after(
            ManagerEffect::Save(InstanceKey::FeeCollector),
        ).after(ManagerEffect::Save(InstanceKey::FeeBps))
    }

    /// Why the administrator's requests are refused, if they are.
    pub open spec fn admin_error(self) -> Option<ManagerError> {
        match self.admin {
            None => Some(ManagerError::NotInitialized),
            Some(admin) => if !self.authorized.contains(admin) {
                Some(ManagerError::Unauthorized)
            } else {
                None
            },
        }
    }

    /// Why the administrator's requests about oracles are refused, if they are.
    pub open spec fn oracles_error(self) -> Option<ManagerError> {
        if self.admin_error() is Some {
            self.admin_error()
        } else if self.oracles is None {
            Some(ManagerError::NotInitialized)
        } else {
            None
        }
    }

    /// Why an oracle cannot be added, if it cannot.
    pub open spec fn add_oracle_error(self, oracle: Bytes32) -> Option<ManagerError> {
        if self.oracles_error() is Some {
            self.oracles_error()
        } else if !self.oracles->0.contains_key(oracle.key()) && self.oracles->0.len()
            >= u32::MAX {
            Some(ManagerError::TooManyEntries)
        } else {
            None
        }
    }

    /// The set of trusted oracles is replaced.
    pub open spec fn after_set_oracles(self, oracles: Map<(u128, u128), bool>) -> ManagerState {
        ManagerState { oracles: Some(oracles), ..self }.after(
            ManagerEffect::Save(InstanceKey::Oracles),
        )
    }

    /// Why a quorum is refused, if it is.
    pub open spec fn set_quorum_error(self, quorum: u32) -> Option<ManagerError> {
        if self.oracles_error() is Some {
            self.oracles_error()
        } else if quorum == 0 || quorum > self.oracles->0.len() {
            Some(ManagerError::InvalidQuorum)
        } else {
            None
        }
    }

    /// Another quorum is asked for.
    pub open spec fn after_set_quorum(self, quorum: u32) -> ManagerState {
        ManagerState { quorum: Some(quorum), ..self }.after(
            ManagerEffect::Save(InstanceKey::Quorum),
        )
    }

    /// Another administrator takes over.
    pub open spec fn after_set_admin(self, new_admin: Address) -> ManagerState {
        ManagerState { admin: Some(new_admin), ..self }.after(
            ManagerEffect::Save(InstanceKey::Admin),
        )
    }

    /// Why a report is refused before its signature is looked at, if it is.
    pub open spec fn check_error(self, signed: SignedOutcome) -> Option<ManagerError> {
        if self.oracles is None {
            Some(ManagerError::NotInitialized)
        } else if !self.oracles->0.contains_key(signed.oracle_pubkey.key()) {
            Some(ManagerError::UnauthorizedOracle)
        } else if self.final_outcomes.contains_key(signed.call_id) {
            Some(ManagerError::AlreadySettled)
        } else if self.submissions.contains_key((signed.oracle_pubkey, signed.call_id)) {
            Some(ManagerError::DuplicateSubmission)
        } else if signed.outcome != 1 && signed.outcome != 2 {
            Some(ManagerError::InvalidOutcome)
        } else {
            None
        }
    }

    /// Why a vote for a report cannot be counted, if it cannot.
    pub open spec fn vote_error(self, outcome_hash: Bytes32, call_id: u64) -> Option<ManagerError> {
        if self.vote_count(outcome_hash, call_id) == u32::MAX {
            Some(ManagerError::Overflow)
        } else if self.quorum is None {
            Some(ManagerError::NotInitialized)
        } else {
            None
        }
    }

    /// Why a report is refused, if it is.
    pub open spec fn submit_error(self, signed: SignedOutcome, signature_valid: bool) -> Option<
        ManagerError,
    > {
        if self.check_error(signed) is Some {
            self.check_error(signed)
        } else if !signature_valid {
            Some(ManagerError::InvalidSignature)
        } else {
            self.vote_error(report_hash(signed.report()), signed.call_id)
        }
    }

    /// A call gets its outcome, and the registry is told.
    pub open spec fn after_finalize(self, registry: Address, outcome: Outcome) -> ManagerState {
        ManagerState {
            final_outcomes: self.final_outcomes.insert(outcome.call_id, outcome),
            ..self
        }.after(ManagerEffect::Save(InstanceKey::FinalOutcome(outcome.call_id))).after(
            ManagerEffect::ResolveCall {
                registry,
                call_id: outcome.call_id,
                outcome: outcome.outcome,
                end_price: outcome.price,
            },
        ).after(
            ManagerEffect::Publish(
                ManagerEvent::OutcomeFinalized {
                    call_id: outcome.call_id,
                    outcome: outcome.outcome,
                    price: outcome.price,
                },
            ),
        )
    }

    /// An oracle's vote is stored, counted and announced.
    pub open spec fn after_vote(self, signed: SignedOutcome, outcome_hash: Bytes32) -> ManagerState {
        let count = (self.vote_count(outcome_hash, signed.call_id) + 1) as u32;
        let stored = ManagerState {
            submissions: self.submissions.insert(
                (signed.oracle_pubkey, signed.call_id),
                outcome_hash,
            ),
            ..self
        }.after(
            ManagerEffect::SaveTemporary(TempKey::Submission(signed.oracle_pubkey, signed.call_id)),
        );
        ManagerState {
            votes: stored.votes.insert((outcome_hash, signed.call_id), count),
            ..stored
        }.after(
            ManagerEffect::SaveTemporary(TempKey::VoteCount(outcome_hash, signed.call_id)),
        ).after(
            ManagerEffect::Publish(
                ManagerEvent::OutcomeSubmitted {
                    call_id: signed.call_id,
                    oracle: signed.oracle_pubkey,
                    outcome: signed.outcome,
                },
            ),
        )
    }

    /// An oracle's vote is counted, and decides the call if the quorum is reached.
    pub open spec fn after_submit(
        self,
        registry: Address,
        signed: SignedOutcome,
        outcome_hash: Bytes32,
    ) -> ManagerState {
        let voted = self.after_vote(signed, outcome_hash);
        if voted.vote_count(outcome_hash, signed.call_id) >= self.quorum->0 {
            voted.after_finalize(registry, signed.report())
        } else {
            voted
        }
    }

    /// Why a claim is refused, if it is.
    pub open spec fn claim_error(
        self,
        call_id: u64,
        staker: Address,
        staker_winning_stake: i128,
        total_winning_stake: i128,
        total_losing_stake: i128,
    ) -> Option<ManagerError> {
        if !self.authorized.contains(staker) {
            Some(ManagerError::Unauthorized)
        } else if !self.final_outcomes.contains_key(call_id) {
            Some(ManagerError::CallNotSettled)
        } else if self.claimed.contains_key((call_id, staker)) {
            Some(ManagerError::AlreadyClaimed)
        } else if staker_winning_stake <= 0 {
            Some(ManagerError::NothingToClaim)
        } else if total_winning_stake <= 0 {
            Some(ManagerError::InvalidTotalWinningStake)
        } else if self.fee_collector is None {
            Some(ManagerError::FeeCollectorNotSet)
        } else {
            payout_error(
                staker_winning_stake as int,
                total_winning_stake as int,
                total_losing_stake as int,
                self.fee() as int,
            )
        }
    }

    /// A claim is noted, and then paid: the fee, if there is any, and the winner.
    pub open spec fn after_claim(
        self,
        registry: Address,
        call_id: u64,
        staker: Address,
        paid: Payout,
    ) -> ManagerState {
        let collector = self.fee_collector->0;
        let noted = ManagerState {
            claimed: self.claimed.insert((call_id, staker), true),
            ..self
        }.after(ManagerEffect::Save(InstanceKey::Claimed(call_id, staker)));
        let charged = if paid.fee_share > 0 {
            noted.after(
                ManagerEffect::ReleaseEscrow {
                    registry,
                    call_id,
                    to: collector,
                    amount: paid.fee_share,
                },
            ).after(
                ManagerEffect::Publish(
                    ManagerEvent::FeeCollected { call_id, amount: paid.fee_share, collector },
                ),
            )
        } else {
            noted
        };
        charged.after(
            ManagerEffect::ReleaseEscrow { registry, call_id, to: staker, amount: paid.amount },
        ).after(
            ManagerEffect::Publish(
                ManagerEvent::PayoutClaimed { call_id, staker, amount: paid.amount },
            ),
        )
    }

    /// What a claim pays.
    pub open spec fn payout_for(
        self,
        staker_winning_stake: i128,
        total_winning_stake: i128,
        total_losing_stake: i128,
    ) -> Payout {
        Payout {
            fee_share: fee_share(
                staker_winning_stake as int,
                total_winning_stake as int,
                total_losing_stake as int,
                self.fee() as int,
            ) as i128,
            amount: payout(
                staker_winning_stake as int,
                total_winning_stake as int,
                total_losing_stake as int,
                self.fee() as int,
            ) as i128,
        }
    }

    /// Why a call cannot be closed, if it cannot.
    pub open spec fn mark_settled_error(self, call_id: u64) -> Option<ManagerError> {
        if self.admin_error() is Some {
            self.admin_error()
        } else if !self.final_outcomes.contains_key(call_id) {
            Some(ManagerError::CallNotFinalized)
        } else {
            None
        }
    }
}

/// Has the registry resolve a call.
fn registry_resolve_call(
    env: &mut ManagerEnv,
    registry: &Address,
    call_id: u64,
    outcome: u32,
    end_price: i128,
)
    ensures
        final(env)@ == old(env)@.after(
            ManagerEffect::ResolveCall { registry: *registry, call_id, outcome, end_price },
        ),
{
    env.record(ManagerEffect::ResolveCall { registry: *registry, call_id, outcome, end_price });
}

/// Has the registry pay out tokens that are staked on a call.
fn registry_release_escrow(
    env: &mut ManagerEnv,
    registry: &Address,
    call_id: u64,
    to: &Address,
    amount: i128,
)
    ensures
        final(env)@ == old(env)@.after(
            ManagerEffect::ReleaseEscrow { registry: *registry, call_id, to: *to, amount },
        ),
{
    env.record(ManagerEffect::ReleaseEscrow { registry: *registry, call_id, to: *to, amount });
}

/// Has the registry mark a call as settled.
fn registry_mark_settled(env: &mut ManagerEnv, registry: &Address, call_id: u64)
    ensures
        final(env)@ == old(env)@.after(
            ManagerEffect::MarkSettled { registry: *registry, call_id },
        ),
{
    env.record(ManagerEffect::MarkSettled { registry: *registry, call_id });
}

/// The digest that stands for what an oracle reports, under which the votes for it are counted.
pub fn hash_report(host: &soroban_sdk::Env, signed: &SignedOutcome) -> (r: Bytes32)
    ensures
        r == report_hash(signed.report()),
{
    let message = build_message(signed.call_id, signed.outcome, signed.price, signed.timestamp);
    Bytes32::from_array(&sha256(host, &message))
}

/// Checks that the administrator authorized the invocation.
fn require_admin(env: &ManagerEnv) -> (r: Result<(), ManagerError>)
    ensures
        r is Ok <==> env@.admin_error() is None,
        r matches Err(e) ==> env@.admin_error() == Some(e),
{
    match env.admin {
        None => Err(ManagerError::NotInitialized),
        Some(admin) => if env.has_auth(&admin) {
            Ok(())
        } else {
            Err(ManagerError::Unauthorized)
        },
    }
}

/// A set of public keys has at most as many members as keys were given.
proof fn lemma_oracle_set_len(oracles: Seq<Bytes32>)
    ensures
        oracle_set(oracles).dom().finite(),
        oracle_set(oracles).len() <= oracles.len(),
    decreases oracles.len(),
{
    if oracles.len() > 0 {
        lemma_oracle_set_len(oracles.drop_last());
    }
}

/// The outcome manager.
pub struct OutcomeManager;

impl OutcomeManager {
    /// Sets the outcome manager up, once.
    ///
    /// `oracles` are the public keys of the trusted oracles, `quorum` is how many matching votes
    /// decide a call, and `fee_bps` is the fee in basis points that `fee_collector` receives.
    pub fn initialize(
        env: &mut ManagerEnv,
        admin: Address,
        oracles: Vec<Bytes32>,
        quorum: u32,
        fee_collector: Address,
        fee_bps: u32,
    ) -> (r: Result<(), ManagerError>)
        requires
            oracles@.len() <= u32::MAX,
        ensures
            r is Ok <==> old(env)@.initialize_error(admin, oracles@, quorum, fee_bps) is None,
            r is Ok ==> final(env)@ == old(env)@.after_initialize(
                admin,
                oracles@,
                quorum,
                fee_collector,
                fee_bps,
            ),
            r matches Err(e) ==> old(env)@.initialize_error(admin, oracles@, quorum, fee_bps)
                == Some(e) && final(env)@ == old(env)@,
    {
        if env.admin.is_some() {
            return Err(ManagerError::AlreadyInitialized);
        }
        if !env.has_auth(&admin) {
            return Err(ManagerError::Unauthorized);
        }
        if quorum == 0 || quorum as usize > oracles.len() {
            return Err(ManagerError::InvalidQuorum);
        }
        if fee_bps > MAX_FEE_BPS {
            return Err(ManagerError::InvalidFeeBps);
        }
        let mut oracle_map = OracleSet::new(&env.host);
        let mut i: usize = 0;
        while i < oracles.len()
            invariant
                i <= oracles.len(),
                oracles@.len() <= u32::MAX,
                oracle_map@ == oracle_set(oracles@.take(i as int)),
            decreases oracles.len() - i,
        {
            proof {
                lemma_oracle_set_len(oracles@.take(i as int));
                assert(oracles@.take(i + 1).drop_last() =~= oracles@.take(i as int));
            }
            oracle_map.add_member(&oracles[i]);
            i += 1;
        }
        assert(oracles@.take(i as int) =~= oracles@);
        env.admin = Some(admin);
        env.record(ManagerEffect::Save(InstanceKey::Admin));
        env.oracles = Some(oracle_map);
        env.record(ManagerEffect::Save(InstanceKey::Oracles));
        env.quorum = Some(quorum);
        env.record(ManagerEffect::Save(InstanceKey::Quorum));
        env.fee_collector = Some(fee_collector);
        env.record(ManagerEffect::Save(InstanceKey::FeeCollector));
        env.fee_bps = Some(fee_bps);
        env.record(ManagerEffect::Save(InstanceKey::FeeBps));
        Ok(())
    }

    /// Trusts an oracle. Only the administrator may ask for this.
    pub fn add_oracle(env: &mut ManagerEnv, oracle: Bytes32) -> (r: Result<(), ManagerError>)
        ensures
            r is Ok <==> old(env)@.add_oracle_error(oracle) is None,
            r is Ok ==> final(env)@ == old(env)@.after_set_oracles(
                old(env)@.oracles->0.insert(oracle.key(), true),
            ),
            r matches Err(e) ==> old(env)@.add_oracle_error(oracle) == Some(e) && final(env)@
                == old(env)@,
    {
        match require_admin(env) {
            Ok(_) => {},
            Err(e) => return Err(e),
        }
        match &mut env.oracles {
            None => return Err(ManagerError::NotInitialized),
            Some(oracles) => {
                if !oracles.contains(&oracle) && oracles.len() == u32::MAX {
                    return Err(ManagerError::TooManyEntries);
                }
                oracles.add_member(&oracle);
            },
        }
        env.record(ManagerEffect::Save(InstanceKey::Oracles));
        Ok(())
    }

    /// Stops trusting an oracle. Only the administrator may ask for this.
    pub fn remove_oracle(env: &mut ManagerEnv, oracle: Bytes32) -> (r: Result<(), ManagerError>)
        ensures
            r is Ok <==> old(env)@.oracles_error() is None,
            r is Ok ==> final(env)@ == old(env)@.after_set_oracles(
                old(env)@.oracles->0.remove(oracle.key()),
            ),
            r matches Err(e) ==> old(env)@.oracles_error() == Some(e) && final(env)@ == old(env)@,
    {
        match require_admin(env) {
            Ok(_) => {},
            Err(e) => return Err(e),
        }
        match &mut env.oracles {
            None => return Err(ManagerError::NotInitialized),
            Some(oracles) => oracles.remove_member(&oracle),
        }
        env.record(ManagerEffect::Save(InstanceKey::Oracles));
        Ok(())
    }

    /// Sets how many matching votes decide a call. Only the administrator may ask for this.
    pub fn set_quorum(env: &mut ManagerEnv, quorum: u32) -> (r: Result<(), ManagerError>)
        ensures
            r is Ok <==> old(env)@.set_quorum_error(quorum) is None,
            r is Ok ==> final(env)@ == old(env)@.after_set_quorum(quorum),
            r matches Err(e) ==> old(env)@.set_quorum_error(quorum) == Some(e) && final(env)@
                == old(env)@,
    {
        match require_admin(env) {
            Ok(_) => {},
            Err(e) => return Err(e),
        }
        let count: u32 = match &env.oracles {
            None => return Err(ManagerError::NotInitialized),
            Some(oracles) => oracles.len(),
        };
        if quorum == 0 || quorum > count {
            return Err(ManagerError::InvalidQuorum);
        }
        env.quorum = Some(quorum);
        env.record(ManagerEffect::Save(InstanceKey::Quorum));
        Ok(())
    }

    /// Hands the administration over to another address. Only the administrator may ask for
    /// this.
    pub fn set_admin(env: &mut ManagerEnv, new_admin: Address) -> (r: Result<(), ManagerError>)
        ensures
            r is Ok <==> old(env)@.admin_error() is None,
            r is Ok ==> final(env)@ == old(env)@.after_set_admin(new_admin),
            r matches Err(e) ==> old(env)@.admin_error() == Some(e) && final(env)@ == old(env)@,
    {
        match require_admin(env) {
            Ok(_) => {},
            Err(e) => return Err(e),
        }
        env.admin = Some(new_admin);
        env.record(ManagerEffect::Save(InstanceKey::Admin));
        Ok(())
    }

    /// Checks all of a report but its signature, and gives the message that has to be signed.
    pub fn check_submission(env: &ManagerEnv, signed: &SignedOutcome) -> (r: Result<
        Vec<u8>,
        ManagerError,
    >)
        ensures
            r is Ok <==> env@.check_error(*signed) is None,
            r matches Ok(message) ==> message@ == canonical_message(signed.report())
                && message@.len() == 36,
            r matches Err(e) ==> env@.check_error(*signed) == Some(e),
    {
        match &env.oracles {
            None => return Err(ManagerError::NotInitialized),
            Some(oracles) => {
                if !oracles.contains(&signed.oracle_pubkey) {
                    return Err(ManagerError::UnauthorizedOracle);
                }
            },
        }
        if env.final_outcomes.contains_key(&signed.call_id) {
            return Err(ManagerError::AlreadySettled);
        }
        if env.submissions.contains_key(&(signed.oracle_pubkey, signed.call_id)) {
            return Err(ManagerError::DuplicateSubmission);
        }
        if signed.outcome != 1 && signed.outcome != 2 {
            return Err(ManagerError::InvalidOutcome);
        }
        Ok(build_message(signed.call_id, signed.outcome, signed.price, signed.timestamp))
    }

    /// Takes the report of a trusted oracle as its vote.
    ///
    /// Once a quorum of oracles has voted for one report, which its digest stands for, the call
    /// has its outcome and the registry is told. `signature_valid` is the host's word on whether
    /// the signature in the report is the oracle's signature of the message that
    /// [`OutcomeManager::check_submission`] gives.
    pub fn submit_outcome(
        env: &mut ManagerEnv,
        registry: Address,
        signed: SignedOutcome,
        signature_valid: bool,
    ) -> (r: Result<(), ManagerError>)
        ensures
            r is Ok <==> old(env)@.submit_error(signed, signature_valid) is None,
            r is Ok ==> final(env)@ == old(env)@.after_submit(
                registry,
                signed,
                report_hash(signed.report()),
            ),
            r matches Err(e) ==> old(env)@.submit_error(signed, signature_valid) == Some(e)
                && final(env)@ == old(env)@,
    {
        match OutcomeManager::check_submission(env, &signed) {
            Ok(_) => {},
            Err(e) => return Err(e),
        }
        if !signature_valid {
            return Err(ManagerError::InvalidSignature);
        }
        let outcome_hash: Bytes32 = hash_report(&env.host, &signed);
        OutcomeManager::record_vote(env, registry, signed, outcome_hash)
    }

    /// Counts an oracle's vote for the report that `outcome_hash` stands for.
    pub fn record_vote(
        env: &mut ManagerEnv,
        registry: Address,
        signed: SignedOutcome,
        outcome_hash: Bytes32,
    ) -> (r: Result<(), ManagerError>)
        ensures
            r is Ok <==> old(env)@.vote_error(outcome_hash, signed.call_id) is None,
            r is Ok ==> final(env)@ == old(env)@.after_submit(registry, signed, outcome_hash),
            r matches Err(e) ==> old(env)@.vote_error(outcome_hash, signed.call_id) == Some(e)
                && final(env)@ == old(env)@,
    {
        let counted: u32 = match env.votes.get(&(outcome_hash, signed.call_id)) {
            Some(count) => *count,
            None => 0,
        };
        let votes: u32 = match counted.checked_add(1) {
            Some(sum) => sum,
            None => return Err(ManagerError::Overflow),
        };
        let quorum: u32 = match env.quorum {
            Some(quorum) => quorum,
            None => return Err(ManagerError::NotInitialized),
        };
        env.submissions.insert((signed.oracle_pubkey, signed.call_id), outcome_hash);
        env.record(
            ManagerEffect::SaveTemporary(TempKey::Submission(signed.oracle_pubkey, signed.call_id)),
        );
        env.votes.insert((outcome_hash, signed.call_id), votes);
        env.record(
            ManagerEffect::SaveTemporary(TempKey::VoteCount(outcome_hash, signed.call_id)),
        );
        env.record(
            ManagerEffect::Publish(
                ManagerEvent::OutcomeSubmitted {
                    call_id: signed.call_id,
                    oracle: signed.oracle_pubkey,
                    outcome: signed.outcome,
                },
            ),
        );
        if votes >= quorum {
            OutcomeManager::finalize(
                env,
                &registry,
                Outcome {
                    call_id: signed.call_id,
                    outcome: signed.outcome,
                    price: signed.price,
                    timestamp: signed.timestamp,
                },
            );
        }
        Ok(())
    }

    /// Stores the outcome of a call and tells the registry.
    fn finalize(env: &mut ManagerEnv, registry: &Address, outcome: Outcome)
        ensures
            final(env)@ == old(env)@.after_finalize(*registry, outcome),
    {
        env.final_outcomes.insert(outcome.call_id, outcome);
        env.record(ManagerEffect::Save(InstanceKey::FinalOutcome(outcome.call_id)));
        registry_resolve_call(env, registry, outcome.call_id, outcome.outcome, outcome.price);
        env.record(
            ManagerEffect::Publish(
                ManagerEvent::OutcomeFinalized {
                    call_id: outcome.call_id,
                    outcome: outcome.outcome,
                    price: outcome.price,
                },
            ),
        );
    }

    /// Pays a winner, once: the stake, and a part of the losing stakes in proportion to it.
    ///
    /// The fee is taken from the losing stakes first; the winner's part of it goes to the fee
    /// collector. That the winner was paid is stored before anything is paid.
    pub fn claim_payout(
        env: &mut ManagerEnv,
        registry: Address,
        call_id: u64,
        staker: Address,
        staker_winning_stake: i128,
        total_winning_stake: i128,
        total_losing_stake: i128,
    ) -> (r: Result<(), ManagerError>)
        ensures
            r is Ok <==> old(env)@.claim_error(
                call_id,
                staker,
                staker_winning_stake,
                total_winning_stake,
                total_losing_stake,
            ) is None,
            r is Ok ==> final(env)@ == old(env)@.after_claim(
                registry,
                call_id,
                staker,
                old(env)@.payout_for(
                    staker_winning_stake,
                    total_winning_stake,
                    total_losing_stake,
                ),
            ),
            r matches Err(e) ==> old(env)@.claim_error(
                call_id,
                staker,
                staker_winning_stake,
                total_winning_stake,
                total_losing_stake,
            ) == Some(e) && final(env)@ == old(env)@,
    {
        if !env.has_auth(&staker) {
            return Err(ManagerError::Unauthorized);
        }
        if !env.final_outcomes.contains_key(&call_id) {
            return Err(ManagerError::CallNotSettled);
        }
        if env.claimed.contains_key(&(call_id, staker)) {
            return Err(ManagerError::AlreadyClaimed);
        }
        if staker_winning_stake <= 0 {
            return Err(ManagerError::NothingToClaim);
        }
        if total_winning_stake <= 0 {
            return Err(ManagerError::InvalidTotalWinningStake);
        }
        let fee_bps: u32 = env.fee_bps.unwrap_or(0);
        let fee_collector: Address = match env.fee_collector {
            Some(collector) => collector,
            None => return Err(ManagerError::FeeCollectorNotSet),
        };
        let paid: Payout = match compute_payout(
            staker_winning_stake,
            total_winning_stake,
            total_losing_stake,
            fee_bps,
        ) {
            Ok(paid) => paid,
            Err(e) => return Err(e),
        };
        assert(paid == env@.payout_for(
            staker_winning_stake,
            total_winning_stake,
            total_losing_stake,
        ));
        env.claimed.insert((call_id, staker), true);
        env.record(ManagerEffect::Save(InstanceKey::Claimed(call_id, staker)));
        if paid.fee_share > 0 {
            registry_release_escrow(env, &registry, call_id, &fee_collector, paid.fee_share);
            env.record(
                ManagerEffect::Publish(
                    ManagerEvent::FeeCollected {
                        call_id,
                        amount: paid.fee_share,
                        collector: fee_collector,
                    },
                ),
            );
        }
        registry_release_escrow(env, &registry, call_id, &staker, paid.amount);
        env.record(
            ManagerEffect::Publish(
                ManagerEvent::PayoutClaimed { call_id, staker, amount: paid.amount },
            ),
        );
        Ok(())
    }

    /// Closes a call that has its outcome. Only the administrator may ask for this.
    pub fn mark_settled(env: &mut ManagerEnv, registry: Address, call_id: u64) -> (r: Result<
        (),
        ManagerError,
    >)
        ensures
            r is Ok <==> old(env)@.mark_settled_error(call_id) is None,
            r is Ok ==> final(env)@ == old(env)@.after(
                ManagerEffect::MarkSettled { registry, call_id },
            ),
            r matches Err(e) ==> old(env)@.mark_settled_error(call_id) == Some(e) && final(env)@
                == old(env)@,
    {
        match require_admin(env) {
            Ok(_) => {},
            Err(e) => return Err(e),
        }
        if !env.final_outcomes.contains_key(&call_id) {
            return Err(ManagerError::CallNotFinalized);
        }
        registry_mark_settled(env, &registry, call_id);
        Ok(())
    }

    /// The outcome of a call, if it has one.
    pub fn get_outcome(env: &ManagerEnv, call_id: u64) -> (r: Result<Outcome, ManagerError>)
        ensures
            r is Ok <==> env@.final_outcomes.contains_key(call_id),
            r matches Ok(outcome) ==> outcome == env@.final_outcomes[call_id],
            r matches Err(e) ==> e == ManagerError::CallNotSettled,
    {
        match env.final_outcomes.get(&call_id) {
            Some(outcome) => Ok(*outcome),
            None => Err(ManagerError::CallNotSettled),
        }
    }

    /// Whether a staker was paid for a call.
    pub fn has_claimed(env: &ManagerEnv, call_id: u64, staker: Address) -> (r: bool)
        ensures
            r == env@.claimed.contains_key((call_id, staker)),
    {
        env.claimed.contains_key(&(call_id, staker))
    }

    /// How many matching votes decide a call.
    pub fn get_quorum(env: &ManagerEnv) -> (r: Result<u32, ManagerError>)
        ensures
            r is Ok <==> env@.quorum is Some,
            r matches Ok(quorum) ==> env@.quorum == Some(quorum),
            r matches Err(e) ==> e == ManagerError::NotInitialized,
    {
        match env.quorum {
            Some(quorum) => Ok(quorum),
            None => Err(ManagerError::NotInitialized),
        }
    }

    /// Whether an oracle is trusted.
    pub fn is_oracle(env: &ManagerEnv, oracle: Bytes32) -> (r: Result<bool, ManagerError>)
        ensures
            r is Ok <==> env@.oracles is Some,
            r matches Ok(trusted) ==> trusted == env@.oracles->0.contains_key(oracle.key()),
            r matches Err(e) ==> e == ManagerError::NotInitialized,
    {
        match &env.oracles {
            Some(oracles) => Ok(oracles.contains(&oracle)),
            None => Err(ManagerError::NotInitialized),
        }
    }
}

} // verus!
