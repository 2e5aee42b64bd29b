//! How much a winner is paid.

use vstd::prelude::*;
use crate::arith::{divide, fits, lemma_trunc_div_bound, trunc_div};
use crate::outcome_manager::types::ManagerError;
use crate::sums::{lemma_sum_add, lemma_sum_of_parts, sum_of, sum_over};

verus! {

/// Basis points in the whole.
pub const BPS_DENOMINATOR: i128 = 10_000;

/// The fee on the losing stakes.
pub open spec fn total_fee(total_losing: int, fee_bps: int) -> int {
    trunc_div(total_losing * fee_bps, BPS_DENOMINATOR as int)
}

/// The losing stakes less the fee: what the winners share.
pub open spec fn net_losing(total_losing: int, fee_bps: int) -> int {
    total_losing - total_fee(total_losing, fee_bps)
}

/// The part of the fee that falls on a winner's stake.
pub open spec fn fee_share(stake: int, total_winning: int, total_losing: int, fee_bps: int) -> int {
    trunc_div(stake * total_fee(total_losing, fee_bps), total_winning)
}

/// The part of the prize that falls on a winner's stake.
pub open spec fn prize_share(
    stake: int,
    total_winning: int,
    total_losing: int,
    fee_bps: int,
) -> int {
    trunc_div(stake * net_losing(total_losing, fee_bps), total_winning)
}

/// What a winner is paid: the stake itself, and a part of the prize.
pub open spec fn payout(stake: int, total_winning: int, total_losing: int, fee_bps: int) -> int {
    stake + prize_share(stake, total_winning, total_losing, fee_bps)
}

/// Why a payout cannot be worked out within an `i128`, if it cannot.
pub open spec fn payout_error(
    stake: int,
    total_winning: int,
    total_losing: int,
    fee_bps: int,
) -> Option<ManagerError> {
    if !fits(total_losing * fee_bps) {
        Some(ManagerError::FeeOverflow)
    } else if !fits(stake * total_fee(total_losing, fee_bps)) {
        Some(ManagerError::FeeShareOverflow)
    } else if !fits(stake * net_losing(total_losing, fee_bps)) {
        Some(ManagerError::PrizeOverflow)
    } else if !fits(payout(stake, total_winning, total_losing, fee_bps)) {
        Some(ManagerError::PayoutOverflow)
    } else {
        None
    }
}

/// What a claim pays.
#[derive(Clone, Copy, Debug, PartialEq, Eq, Structural)]
pub struct Payout {
    /// To the fee collector.
    pub fee_share: i128,
    /// To the winner.
    pub amount: i128,
}

/// The losing stakes less the fee fit the type that the losing stakes fit.
proof fn lemma_net_losing_fits(total_losing: int, fee_bps: int)
    requires
        fits(total_losing),
        fee_bps >= 0,
        fits(total_losing * fee_bps),
    ensures
        fits(total_fee(total_losing, fee_bps)),
        fits(net_losing(total_losing, fee_bps)),
{
    let product = total_losing * fee_bps;
    lemma_trunc_div_bound(product, BPS_DENOMINATOR as int);
    assert(total_losing >= 0 ==> product >= 0) by (nonlinear_arith)
        requires
            fee_bps >= 0,
            product == total_losing * fee_bps,
    ;
    assert(total_losing < 0 ==> product <= 0) by (nonlinear_arith)
        requires
            fee_bps >= 0,
            product == total_losing * fee_bps,
    ;
}

/// Works out what a claim on `stake` pays.
pub fn compute_payout(stake: i128, total_winning: i128, total_losing: i128, fee_bps: u32) -> (r:
    Result<Payout, ManagerError>)
    requires
        total_winning > 0,
    ensures
        r is Ok <==> payout_error(
            stake as int,
            total_winning as int,
            total_losing as int,
            fee_bps as int,
        ) is None,
        r matches Ok(paid) ==> paid.fee_share == fee_share(
            stake as int,
            total_winning as int,
            total_losing as int,
            fee_bps as int,
        ) && paid.amount == payout(
            stake as int,
            total_winning as int,
            total_losing as int,
            fee_bps as int,
        ),
        r matches Err(e) ==> payout_error(
            stake as int,
            total_winning as int,
            total_losing as int,
            fee_bps as int,
        ) == Some(e),
{
    let fee: i128 = match total_losing.checked_mul(fee_bps as i128) {
        Some(product) => divide(product, BPS_DENOMINATOR),
        None => return Err(ManagerError::FeeOverflow),
    };
    let fee_share: i128 = match stake.checked_mul(fee) {
        Some(product) => divide(product, total_winning),
        None => return Err(ManagerError::FeeShareOverflow),
    };
    proof {
        lemma_net_losing_fits(total_losing as int, fee_bps as int);
    }
    let net: i128 = total_losing - fee;
    let prize_share: i128 = match stake.checked_mul(net) {
        Some(product) => divide(product, total_winning),
        None => return Err(ManagerError::PrizeOverflow),
    };
    match stake.checked_add(prize_share) {
        Some(amount) => Ok(Payout { fee_share, amount }),
        None => Err(ManagerError::PayoutOverflow),
    }
}

/// The documented formula. With losing stakes that are not negative, every quotient is rounded
/// down: the fee is `total_losing * fee_bps / 10000`, and the winner is paid the stake and
/// `stake * (total_losing - fee) / total_winning`.
pub proof fn law_payout_formula(stake: int, total_winning: int, total_losing: int, fee_bps: int)
    requires
        stake > 0,
        total_winning > 0,
        total_losing >= 0,
        0 <= fee_bps <= 10_000,
    ensures
        total_fee(total_losing, fee_bps) == total_losing * fee_bps / 10_000,
        0 <= total_fee(total_losing, fee_bps) <= total_losing,
        payout(stake, total_winning, total_losing, fee_bps) == stake + stake * (total_losing
            - total_losing * fee_bps / 10_000) / total_winning,
        fee_share(stake, total_winning, total_losing, fee_bps) == stake * (total_losing * fee_bps
            / 10_000) / total_winning,
{
    let fee = total_losing * fee_bps / 10_000;
    assert(total_losing * fee_bps >= 0 && 0 <= fee <= total_losing) by (nonlinear_arith)
        requires
            total_losing >= 0,
            0 <= fee_bps <= 10_000,
            fee == total_losing * fee_bps / 10_000,
    ;
    assert(stake * (total_losing - fee) >= 0) by (nonlinear_arith)
        requires
            stake > 0,
            fee <= total_losing,
    ;
    assert(stake * fee >= 0) by (nonlinear_arith)
        requires
            stake > 0,
            fee >= 0,
    ;
}

/// A winner gets at least the stake back, and a larger stake is paid no less than a smaller one.
pub proof fn law_payout_grows_with_stake(
    small: int,
    large: int,
    total_winning: int,
    total_losing: int,
    fee_bps: int,
)
    requires
        0 < small <= large,
        total_winning > 0,
        total_losing >= 0,
        0 <= fee_bps <= 10_000,
    ensures
        payout(small, total_winning, total_losing, fee_bps) >= small,
        payout(small, total_winning, total_losing, fee_bps) <= payout(
            large,
            total_winning,
            total_losing,
            fee_bps,
        ),
{
    law_payout_formula(small, total_winning, total_losing, fee_bps);
    law_payout_formula(large, total_winning, total_losing, fee_bps);
    let net = net_losing(total_losing, fee_bps);
    assert(0 <= small * net / total_winning <= large * net / total_winning) by (nonlinear_arith)
        requires
            0 < small <= large,
            net >= 0,
            total_winning > 0,
    ;
}

/// A winner who is alone on the winning side is paid all stakes less the fee, and the whole fee
/// is collected.
pub proof fn law_sole_winner_takes_all(total_winning: int, total_losing: int, fee_bps: int)
    requires
        total_winning > 0,
        total_losing >= 0,
        0 <= fee_bps <= 10_000,
    ensures
        payout(total_winning, total_winning, total_losing, fee_bps) == total_winning + total_losing
            - total_fee(total_losing, fee_bps),
        fee_share(total_winning, total_winning, total_losing, fee_bps) == total_fee(
            total_losing,
            fee_bps,
        ),
{
    law_payout_formula(total_winning, total_winning, total_losing, fee_bps);
    let net = net_losing(total_losing, fee_bps);
    let fee = total_fee(total_losing, fee_bps);
    lemma_whole_of(total_winning, net);
    lemma_whole_of(total_winning, fee);
}

/// All parts of a pool are the pool.
proof fn lemma_whole_of(total: int, pool: int)
    requires
        total > 0,
    ensures
        total * pool / total == pool,
{
    vstd::arithmetic::div_mod::lemma_div_multiples_vanish(pool, total);
}

/// A part of a pool is no more than the pool.
proof fn lemma_part_of(part: int, total: int, pool: int)
    requires
        part <= total,
        total > 0,
        pool >= 0,
    ensures
        part * pool / total <= pool,
{
    lemma_whole_of(total, pool);
    assert(part * pool / total <= total * pool / total) by (nonlinear_arith)
        requires
            part <= total,
            total > 0,
            pool >= 0,
    ;
}

/// What stakers of the winning side are paid, and the fees on their claims, all in all.
pub open spec fn claims_of<K>(
    stakes: Map<K, i128>,
    total_winning: int,
    total_losing: int,
    fee_bps: int,
) -> int {
    sum_over(
        stakes,
        |stake: i128|
            payout(stake as int, total_winning, total_losing, fee_bps) + fee_share(
                stake as int,
                total_winning,
                total_losing,
                fee_bps,
            ),
    )
}

/// The stakes cover the claims: whichever of the winners claim, what they and the fee collector
/// are paid is no more than what those winners and the losers staked.
pub proof fn law_stakes_cover_claims<K>(
    stakes: Map<K, i128>,
    total_winning: int,
    total_losing: int,
    fee_bps: int,
)
    requires
        stakes.dom().finite(),
        forall|key: K| #[trigger] stakes.contains_key(key) ==> stakes[key] > 0,
        sum_of(stakes) <= total_winning,
        total_winning > 0,
        total_losing >= 0,
        0 <= fee_bps <= 10_000,
    ensures
        claims_of(stakes, total_winning, total_losing, fee_bps) <= sum_of(stakes) + total_losing,
        claims_of(stakes, total_winning, total_losing, fee_bps) <= total_winning + total_losing,
{
    let fee = total_fee(total_losing, fee_bps);
    let net = net_losing(total_losing, fee_bps);
    law_payout_formula(1, total_winning, total_losing, fee_bps);
    let fees = |stake: i128| (stake * fee) / total_winning;
    let prizes = |stake: i128| (stake * net) / total_winning;
    let shares = |stake: i128| (stake * fee) / total_winning + (stake * net) / total_winning;
    let own = |stake: i128| stake as int;
    let all = |stake: i128| stake + ((stake * fee) / total_winning + (stake * net) / total_winning);
    lemma_sum_of_parts(stakes, fee, total_winning);
    lemma_sum_of_parts(stakes, net, total_winning);
    lemma_part_of(sum_of(stakes), total_winning, fee);
    lemma_part_of(sum_of(stakes), total_winning, net);
    lemma_sum_add(stakes, fees, prizes, shares);
    lemma_sum_add(stakes, own, shares, all);
    lemma_claims_by_parts(stakes, total_winning, total_losing, fee_bps, fee, net);
}

/// The claims on positive stakes, with every quotient rounded down.
proof fn lemma_claims_by_parts<K>(
    stakes: Map<K, i128>,
    total_winning: int,
    total_losing: int,
    fee_bps: int,
    fee: int,
    net: int,
)
    requires
        forall|key: K| #[trigger] stakes.contains_key(key) ==> stakes[key] > 0,
        total_winning > 0,
        total_losing >= 0,
        0 <= fee_bps <= 10_000,
        fee == total_fee(total_losing, fee_bps),
        net == net_losing(total_losing, fee_bps),
    ensures
        claims_of(stakes, total_winning, total_losing, fee_bps) == sum_over(
            stakes,
            |stake: i128| stake + ((stake * fee) / total_winning + (stake * net) / total_winning),
        ),
    decreases stakes.len(),
{
    if stakes.dom().finite() && stakes.len() > 0 {
        let key = stakes.dom().choose();
        assert(stakes.contains_key(key));
        lemma_claims_by_parts(
            stakes.remove(key),
            total_winning,
            total_losing,
            fee_bps,
            fee,
            net,
        );
        law_payout_formula(stakes[key] as int, total_winning, total_losing, fee_bps);
    }
}

} // verus!
