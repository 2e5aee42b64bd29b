//! What holds of the registry and the outcome manager together.

use vstd::prelude::*;
use crate::address::Address;
use crate::call_registry::laws as registry_laws;
use crate::call_registry::storage::RegistryState;
use crate::call_registry::types::{RegistryError, StakePosition};
use crate::outcome_manager::contract::{report_hash, MAX_FEE_BPS};
use crate::outcome_manager::payout::{claims_of, law_stakes_cover_claims};
use crate::outcome_manager::storage::{ManagerEffect, ManagerState};
use crate::outcome_manager::types::SignedOutcome;
use crate::sums::{lemma_sum_nonnegative, lemma_sum_submap, sum_of};

verus! {

/// The registry carries out what the outcome manager asks of it.
pub open spec fn carried_out(r: RegistryState, effect: ManagerEffect) -> RegistryState {
    match effect {
        ManagerEffect::ResolveCall { call_id, outcome, end_price, .. } => r.next(
            registry_laws::Request::ResolveCall { call_id, outcome, end_price },
        ),
        ManagerEffect::ReleaseEscrow { call_id, to, amount, .. } => r.next(
            registry_laws::Request::ReleaseEscrow { call_id, to, amount },
        ),
        ManagerEffect::MarkSettled { call_id, .. } => r.next(
            registry_laws::Request::MarkSettled { call_id },
        ),
        _ => r,
    }
}

/// The registry carries out a list of what the outcome manager asks of it.
pub open spec fn all_carried_out(r: RegistryState, effects: Seq<ManagerEffect>) -> RegistryState
    decreases effects.len(),
{
    if effects.len() == 0 {
        r
    } else {
        carried_out(all_carried_out(r, effects.drop_last()), effects.last())
    }
}

/// Carrying out one more thing comes last.
proof fn lemma_carry_push(r: RegistryState, effects: Seq<ManagerEffect>, effect: ManagerEffect)
    ensures
        all_carried_out(r, effects.push(effect)) == carried_out(all_carried_out(r, effects), effect),
{
    assert(effects.push(effect).drop_last() =~= effects);
}

/// A vote that decides a call hands the registry an outcome that the registry never refuses as
/// one; if it refuses nothing else, its call has that outcome and that price. A vote that
/// decides nothing hands it nothing.
pub proof fn law_decision_reaches_registry(
    s: ManagerState,
    registry: Address,
    signed: SignedOutcome,
    r: RegistryState,
)
    requires
        s.submit_error(signed, true) is None,
        r.consistent(),
    ensures
        ({
            let t = s.after_submit(registry, signed, report_hash(signed.report()));
            let handed = t.effects.skip(s.effects.len() as int);
            let done = all_carried_out(r, handed);
            &&& r.resolve_error(signed.call_id, signed.outcome) != Some(
                RegistryError::InvalidOutcome,
            )
            &&& !t.final_outcomes.contains_key(signed.call_id) ==> done == r
            &&& t.final_outcomes.contains_key(signed.call_id) && r.resolve_error(
                signed.call_id,
                signed.outcome,
            ) is None ==> {
                &&& done.calls[signed.call_id].outcome == t.final_outcomes[signed.call_id].outcome
                &&& done.calls[signed.call_id].end_price == t.final_outcomes[signed.call_id].price
            }
        }),
{
    let outcome_hash = report_hash(signed.report());
    let t = s.after_submit(registry, signed, outcome_hash);
    let voted = s.after_vote(signed, outcome_hash);
    let n = s.effects.len() as int;
    let handed = t.effects.skip(n);
    let vote = voted.effects.skip(n);
    reveal_with_fuel(all_carried_out, 4);
    assert(vote.len() == 3);
    assert(all_carried_out(r, vote) == r) by {
        assert(vote.drop_last().drop_last().drop_last() =~= Seq::empty());
    }
    if t.final_outcomes.contains_key(signed.call_id) {
        assert(handed =~= vote.push(voted.after_finalize(registry, signed.report()).effects[n + 3])
            .push(t.effects[n + 4]).push(t.effects[n + 5]));
        lemma_carry_push(r, vote, t.effects[n + 3]);
        lemma_carry_push(r, vote.push(t.effects[n + 3]), t.effects[n + 4]);
        lemma_carry_push(
            r,
            vote.push(t.effects[n + 3]).push(t.effects[n + 4]),
            t.effects[n + 5],
        );
        if r.resolve_error(signed.call_id, signed.outcome) is None {
            assert(r.calls[signed.call_id].sound(signed.call_id));
        }
    } else {
        assert(handed =~= vote);
    }
}

/// A claim that is granted has the registry pay the winner's payout and the winner's part of the
/// fee, in the call's own token, and nothing more.
pub proof fn law_claim_is_paid(
    s: ManagerState,
    registry: Address,
    call_id: u64,
    staker: Address,
    stakes: (i128, i128, i128),
    r: RegistryState,
    token: Address,
)
    requires
        s.claim_error(call_id, staker, stakes.0, stakes.1, stakes.2) is None,
        r.manager_error(call_id) is None,
    ensures
        ({
            let paid = s.payout_for(stakes.0, stakes.1, stakes.2);
            let t = s.after_claim(registry, call_id, staker, paid);
            let done = all_carried_out(r, t.effects.skip(s.effects.len() as int));
            &&& done.received(token) == r.received(token)
            &&& done.paid_out(token) == r.paid_out(token) + (if token
                == r.calls[call_id].stake_token {
                paid.amount + (if paid.fee_share > 0 {
                    paid.fee_share as int
                } else {
                    0
                })
            } else {
                0
            })
        }),
{
    let paid = s.payout_for(stakes.0, stakes.1, stakes.2);
    let t = s.after_claim(registry, call_id, staker, paid);
    let n = s.effects.len() as int;
    let handed = t.effects.skip(n);
    let collector = s.fee_collector->0;
    reveal_with_fuel(all_carried_out, 2);
    let noted = Seq::<ManagerEffect>::empty().push(t.effects[n]);
    lemma_carry_push(r, Seq::empty(), t.effects[n]);
    assert(all_carried_out(r, noted) == r);
    if paid.fee_share > 0 {
        let charged = r.after_release(call_id, collector, paid.fee_share);
        registry_laws::law_release_is_paid_out(r, call_id, collector, paid.fee_share, token);
        registry_laws::law_release_is_paid_out(charged, call_id, staker, paid.amount, token);
        lemma_carry_push(r, noted, t.effects[n + 1]);
        lemma_carry_push(r, noted.push(t.effects[n + 1]), t.effects[n + 2]);
        lemma_carry_push(
            r,
            noted.push(t.effects[n + 1]).push(t.effects[n + 2]),
            t.effects[n + 3],
        );
        lemma_carry_push(
            r,
            noted.push(t.effects[n + 1]).push(t.effects[n + 2]).push(t.effects[n + 3]),
            t.effects[n + 4],
        );
        assert(handed =~= noted.push(t.effects[n + 1]).push(t.effects[n + 2]).push(
            t.effects[n + 3],
        ).push(t.effects[n + 4]));
    } else {
        registry_laws::law_release_is_paid_out(r, call_id, staker, paid.amount, token);
        lemma_carry_push(r, noted, t.effects[n + 1]);
        lemma_carry_push(r, noted.push(t.effects[n + 1]), t.effects[n + 2]);
        assert(handed =~= noted.push(t.effects[n + 1]).push(t.effects[n + 2]));
    }
}

/// The stakes on a call of a consistent registry cover the claims on it: whichever stakers of the
/// winning side claim what is on record, the payouts and fees are no more than what they and the
/// losing side staked on the call, and so no more than what was staked on it.
pub proof fn law_call_covers_its_claims(
    r: RegistryState,
    s: ManagerState,
    call_id: u64,
    winning: StakePosition,
    losing: StakePosition,
    claimed: Map<(bool, u128, u128), i128>,
)
    requires
        r.consistent(),
        s.fee() <= MAX_FEE_BPS,
        r.calls.contains_key(call_id),
        winning != losing,
        r.calls[call_id].total(winning) > 0,
        claimed.submap_of(r.calls[call_id].stakes(winning)),
    ensures
        claims_of(
            claimed,
            r.calls[call_id].total(winning) as int,
            r.calls[call_id].total(losing) as int,
            s.fee() as int,
        ) <= sum_of(claimed) + r.calls[call_id].total(losing),
        claims_of(
            claimed,
            r.calls[call_id].total(winning) as int,
            r.calls[call_id].total(losing) as int,
            s.fee() as int,
        ) <= r.calls[call_id].total_up_stake + r.calls[call_id].total_down_stake,
{
    let call = r.calls[call_id];
    assert(call.sound(call_id));
    lemma_sum_nonnegative(call.stakes(losing));
    lemma_sum_submap(claimed, call.stakes(winning));
    assert forall|key: (bool, u128, u128)| #[trigger] claimed.contains_key(key) implies claimed[key]
        > 0 by {
        assert(call.stakes(winning).contains_key(key));
    }
    law_stakes_cover_claims(
        claimed,
        call.total(winning) as int,
        call.total(losing) as int,
        s.fee() as int,
    );
}

} // verus!
