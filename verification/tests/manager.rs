use call_market::address::Address;
use call_market::bytes32::{push_be, Bytes32};
use call_market::outcome_manager::contract::{hash_report, OutcomeManager};
use call_market::outcome_manager::payout::{compute_payout, Payout};
use call_market::outcome_manager::storage::{InstanceKey, ManagerEffect, ManagerEnv, TempKey};
use call_market::outcome_manager::types::{ManagerError, ManagerEvent, Outcome, SignedOutcome};
use call_market::outcome_manager::verification::build_message;
use call_market::table::Table;

fn account(n: u128) -> Address {
    Address { is_contract: false, id: Bytes32 { hi: 0, lo: n } }
}

fn oracle(n: u128) -> Bytes32 {
    Bytes32 { hi: n, lo: 1000 + n }
}

const ADMIN: u128 = 1;
const COLLECTOR: u128 = 2;
const ALICE: u128 = 3;
const REGISTRY: u128 = 4;

/// Three oracles with a quorum of two, and a fee of ten percent.
fn fresh() -> ManagerEnv {
    let mut env = ManagerEnv::new(soroban_sdk::Env::default());
    env.authorized = vec![account(ADMIN), account(ALICE)];
    let oracles = vec![oracle(1), oracle(2), oracle(3)];
    OutcomeManager::initialize(&mut env, account(ADMIN), oracles, 2, account(COLLECTOR), 1000)
        .unwrap();
    env.effects.clear();
    env
}

fn report(n: u128, call_id: u64, outcome: u32, price: i128) -> SignedOutcome {
    SignedOutcome {
        call_id,
        outcome,
        price,
        timestamp: 1000,
        oracle_pubkey: oracle(n),
        signature: [0; 64],
    }
}

fn submit(env: &mut ManagerEnv, signed: SignedOutcome) -> Result<(), ManagerError> {
    OutcomeManager::submit_outcome(env, account(REGISTRY), signed, true)
}

fn claim(env: &mut ManagerEnv, call_id: u64, stake: i128, won: i128, lost: i128) -> Result<(), ManagerError> {
    OutcomeManager::claim_payout(
        env,
        account(REGISTRY),
        call_id,
        account(ALICE),
        stake,
        won,
        lost,
    )
}

/// The digest of the report that oracles make of call 7 at a price of 12345.
fn known_hash() -> Bytes32 {
    Bytes32::from_array(&[
        0xb4, 0x2e, 0x62, 0xed, 0x11, 0x70, 0x0a, 0xfb, 0xce, 0x02, 0x19, 0x70,
        0x42, 0x77, 0xd9, 0x1f, 0xdb, 0x97, 0x69, 0x2f, 0xbd, 0x9c, 0x25, 0x71,
        0x76, 0x64, 0x57, 0x1e, 0x4b, 0xf7, 0x71, 0x6e,
    ])
}

#[test]
fn initialize_stores_everything() {
    let mut env = ManagerEnv::new(soroban_sdk::Env::default());
    assert_eq!(OutcomeManager::get_quorum(&env), Err(ManagerError::NotInitialized));
    assert_eq!(OutcomeManager::is_oracle(&env, oracle(1)), Err(ManagerError::NotInitialized));
    env.authorized.push(account(ADMIN));
    let oracles = vec![oracle(1), oracle(2), oracle(1)];
    OutcomeManager::initialize(&mut env, account(ADMIN), oracles, 3, account(COLLECTOR), 10_000)
        .unwrap();
    assert_eq!(OutcomeManager::get_quorum(&env), Ok(3));
    assert_eq!(OutcomeManager::is_oracle(&env, oracle(1)), Ok(true));
    assert_eq!(OutcomeManager::is_oracle(&env, oracle(2)), Ok(true));
    assert_eq!(OutcomeManager::is_oracle(&env, oracle(3)), Ok(false));
    assert_eq!(env.oracles.as_ref().unwrap().len(), 2);
    assert_eq!(env.oracles.as_ref().unwrap().host_map().len(), 2);
    assert_eq!(
        env.effects,
        vec![
            ManagerEffect::Save(InstanceKey::Admin),
            ManagerEffect::Save(InstanceKey::Oracles),
            ManagerEffect::Save(InstanceKey::Quorum),
            ManagerEffect::Save(InstanceKey::FeeCollector),
            ManagerEffect::Save(InstanceKey::FeeBps),
        ]
    );
    assert_eq!(
        OutcomeManager::initialize(
            &mut env,
            account(ADMIN),
            vec![oracle(1)],
            1,
            account(COLLECTOR),
            0
        ),
        Err(ManagerError::AlreadyInitialized)
    );
}

#[test]
fn initialize_refusals() {
    let mut env = ManagerEnv::new(soroban_sdk::Env::default());
    let mut initialize = |admin: u128, quorum: u32, fee_bps: u32| {
        env.authorized = vec![account(ADMIN)];
        OutcomeManager::initialize(
            &mut env,
            account(admin),
            vec![oracle(1), oracle(2)],
            quorum,
            account(COLLECTOR),
            fee_bps,
        )
    };
    assert_eq!(initialize(9, 1, 0), Err(ManagerError::Unauthorized));
    assert_eq!(initialize(ADMIN, 0, 0), Err(ManagerError::InvalidQuorum));
    assert_eq!(initialize(ADMIN, 3, 0), Err(ManagerError::InvalidQuorum));
    assert_eq!(initialize(ADMIN, 2, 10_001), Err(ManagerError::InvalidFeeBps));
    assert_eq!(initialize(ADMIN, 2, 10_000), Ok(()));
}

#[test]
fn admin_changes_oracles_and_quorum() {
    let mut env = fresh();
    OutcomeManager::add_oracle(&mut env, oracle(4)).unwrap();
    OutcomeManager::remove_oracle(&mut env, oracle(1)).unwrap();
    OutcomeManager::remove_oracle(&mut env, oracle(9)).unwrap();
    assert_eq!(OutcomeManager::is_oracle(&env, oracle(4)), Ok(true));
    assert_eq!(OutcomeManager::is_oracle(&env, oracle(1)), Ok(false));
    assert_eq!(OutcomeManager::is_oracle(&env, oracle(2)), Ok(true));
    assert_eq!(env.effects, vec![ManagerEffect::Save(InstanceKey::Oracles); 3]);
    env.effects.clear();
    assert_eq!(OutcomeManager::set_quorum(&mut env, 0), Err(ManagerError::InvalidQuorum));
    assert_eq!(OutcomeManager::set_quorum(&mut env, 4), Err(ManagerError::InvalidQuorum));
    OutcomeManager::set_quorum(&mut env, 3).unwrap();
    assert_eq!(OutcomeManager::get_quorum(&env), Ok(3));
    OutcomeManager::set_admin(&mut env, account(9)).unwrap();
    assert_eq!(
        env.effects,
        vec![
            ManagerEffect::Save(InstanceKey::Quorum),
            ManagerEffect::Save(InstanceKey::Admin)
        ]
    );
    assert_eq!(
        OutcomeManager::set_admin(&mut env, account(ADMIN)),
        Err(ManagerError::Unauthorized)
    );
    assert_eq!(
        OutcomeManager::add_oracle(&mut env, oracle(5)),
        Err(ManagerError::Unauthorized)
    );
    assert_eq!(
        OutcomeManager::remove_oracle(&mut env, oracle(5)),
        Err(ManagerError::Unauthorized)
    );
    assert_eq!(OutcomeManager::set_quorum(&mut env, 1), Err(ManagerError::Unauthorized));
}

#[test]
fn nothing_works_before_initialization() {
    let mut env = ManagerEnv::new(soroban_sdk::Env::default());
    assert_eq!(
        OutcomeManager::add_oracle(&mut env, oracle(5)),
        Err(ManagerError::NotInitialized)
    );
    assert_eq!(submit(&mut env, report(1, 7, 1, 5)), Err(ManagerError::NotInitialized));
    assert_eq!(
        OutcomeManager::mark_settled(&mut env, account(REGISTRY), 7),
        Err(ManagerError::NotInitialized)
    );
}

#[test]
fn the_message_is_canonical() {
    let message = build_message(7, 1, 12345, 1000);
    let mut expected = vec![0u8; 36];
    expected[7] = 7;
    expected[11] = 1;
    expected[26] = 0x30;
    expected[27] = 0x39;
    expected[34] = 0x03;
    expected[35] = 0xe8;
    assert_eq!(message, expected);
    let negative = build_message(u64::MAX, 2, -5, 0);
    assert_eq!(negative[..8], [0xff; 8]);
    assert_eq!(negative[8..12], [0, 0, 0, 2]);
    assert_eq!(negative[12..27], [0xff; 15]);
    assert_eq!(negative[27], 0xfb);
    assert_eq!(build_message(0, 0, i128::MIN, 0)[12], 0x80);
}

#[test]
fn different_reports_have_different_messages() {
    let base = build_message(7, 1, 5, 9);
    assert_ne!(base, build_message(8, 1, 5, 9));
    assert_ne!(base, build_message(7, 2, 5, 9));
    assert_ne!(base, build_message(7, 1, -5, 9));
    assert_ne!(base, build_message(7, 1, 5, 10));
}

#[test]
fn big_endian_numbers() {
    let mut out = vec![9];
    push_be(&mut out, 0x0102_0304, 4);
    push_be(&mut out, 0x0506, 1);
    assert_eq!(out, vec![9, 1, 2, 3, 4, 6]);
    let mut bytes = [0u8; 32];
    bytes[0] = 1;
    bytes[15] = 2;
    bytes[31] = 3;
    assert_eq!(Bytes32::from_array(&bytes), Bytes32 { hi: (1 << 120) + 2, lo: 3 });
}

#[test]
fn a_quorum_decides() {
    let mut env = fresh();
    submit(&mut env, report(1, 7, 1, 12345)).unwrap();
    assert_eq!(OutcomeManager::get_outcome(&env, 7), Err(ManagerError::CallNotSettled));
    assert_eq!(env.votes.get(&(known_hash(), 7)), Some(&1));
    assert_eq!(env.submissions.get(&(oracle(1), 7)), Some(&known_hash()));
    assert_eq!(
        env.effects,
        vec![
            ManagerEffect::SaveTemporary(TempKey::Submission(oracle(1), 7)),
            ManagerEffect::SaveTemporary(TempKey::VoteCount(known_hash(), 7)),
            ManagerEffect::Publish(ManagerEvent::OutcomeSubmitted {
                call_id: 7,
                oracle: oracle(1),
                outcome: 1
            }),
        ]
    );
    submit(&mut env, report(2, 7, 2, 12345)).unwrap();
    assert_eq!(OutcomeManager::get_outcome(&env, 7), Err(ManagerError::CallNotSettled));
    env.effects.clear();
    submit(&mut env, report(3, 7, 1, 12345)).unwrap();
    let outcome = Outcome { call_id: 7, outcome: 1, price: 12345, timestamp: 1000 };
    assert_eq!(OutcomeManager::get_outcome(&env, 7), Ok(outcome));
    assert_eq!(env.votes.get(&(known_hash(), 7)), Some(&2));
    assert_eq!(
        env.effects[3..],
        [
            ManagerEffect::Save(InstanceKey::FinalOutcome(7)),
            ManagerEffect::ResolveCall {
                registry: account(REGISTRY),
                call_id: 7,
                outcome: 1,
                end_price: 12345
            },
            ManagerEffect::Publish(ManagerEvent::OutcomeFinalized {
                call_id: 7,
                outcome: 1,
                price: 12345
            }),
        ]
    );
}

#[test]
fn submission_refusals() {
    let mut env = fresh();
    assert_eq!(
        submit(&mut env, report(9, 7, 1, 5)),
        Err(ManagerError::UnauthorizedOracle)
    );
    assert_eq!(submit(&mut env, report(1, 7, 0, 5)), Err(ManagerError::InvalidOutcome));
    assert_eq!(submit(&mut env, report(1, 7, 3, 5)), Err(ManagerError::InvalidOutcome));
    assert_eq!(
        OutcomeManager::submit_outcome(&mut env, account(REGISTRY), report(1, 7, 1, 5), false),
        Err(ManagerError::InvalidSignature)
    );
    assert_eq!(env.effects.len(), 0);
    submit(&mut env, report(1, 7, 1, 5)).unwrap();
    assert_eq!(
        submit(&mut env, report(1, 7, 2, 6)),
        Err(ManagerError::DuplicateSubmission)
    );
    submit(&mut env, report(1, 8, 1, 5)).unwrap();
    submit(&mut env, report(2, 7, 1, 5)).unwrap();
    assert_eq!(submit(&mut env, report(3, 7, 1, 5)), Err(ManagerError::AlreadySettled));
    assert_eq!(submit(&mut env, report(1, 7, 1, 5)), Err(ManagerError::AlreadySettled));
}

#[test]
fn check_submission_gives_the_message() {
    let env = fresh();
    assert_eq!(
        OutcomeManager::check_submission(&env, &report(1, 7, 1, 12345)),
        Ok(build_message(7, 1, 12345, 1000))
    );
    assert_eq!(
        OutcomeManager::check_submission(&env, &report(9, 7, 1, 12345)),
        Err(ManagerError::UnauthorizedOracle)
    );
}

#[test]
fn votes_do_not_overflow() {
    let mut env = fresh();
    let hash = Bytes32 { hi: 5, lo: 6 };
    env.votes.insert((hash, 7), u32::MAX);
    assert_eq!(
        OutcomeManager::record_vote(&mut env, account(REGISTRY), report(1, 7, 1, 5), hash),
        Err(ManagerError::Overflow)
    );
    env.votes.insert((hash, 7), 0);
    env.quorum = None;
    assert_eq!(
        OutcomeManager::record_vote(&mut env, account(REGISTRY), report(1, 7, 1, 5), hash),
        Err(ManagerError::NotInitialized)
    );
    assert_eq!(env.effects.len(), 0);
    env.quorum = Some(1);
    OutcomeManager::record_vote(&mut env, account(REGISTRY), report(1, 7, 1, 5), hash).unwrap();
    assert_eq!(env.votes.get(&(hash, 7)), Some(&1));
    assert!(OutcomeManager::get_outcome(&env, 7).is_ok());
}

/// The fresh outcome manager with call 7 decided.
fn decided() -> ManagerEnv {
    let mut env = fresh();
    submit(&mut env, report(1, 7, 1, 5)).unwrap();
    submit(&mut env, report(2, 7, 1, 5)).unwrap();
    env.effects.clear();
    env
}

#[test]
fn a_claim_is_stored_and_then_paid() {
    let mut env = decided();
    assert!(!OutcomeManager::has_claimed(&env, 7, account(ALICE)));
    claim(&mut env, 7, 100, 400, 1000).unwrap();
    assert!(OutcomeManager::has_claimed(&env, 7, account(ALICE)));
    assert!(!OutcomeManager::has_claimed(&env, 8, account(ALICE)));
    let release = |to: u128, amount: i128| ManagerEffect::ReleaseEscrow {
        registry: account(REGISTRY),
        call_id: 7,
        to: account(to),
        amount,
    };
    assert_eq!(
        env.effects,
        vec![
            ManagerEffect::Save(InstanceKey::Claimed(7, account(ALICE))),
            release(COLLECTOR, 25),
            ManagerEffect::Publish(ManagerEvent::FeeCollected {
                call_id: 7,
                amount: 25,
                collector: account(COLLECTOR)
            }),
            release(ALICE, 325),
            ManagerEffect::Publish(ManagerEvent::PayoutClaimed {
                call_id: 7,
                staker: account(ALICE),
                amount: 325
            }),
        ]
    );
    assert_eq!(claim(&mut env, 7, 1, 400, 1000), Err(ManagerError::AlreadyClaimed));
}

#[test]
fn a_claim_without_a_fee_pays_the_winner_alone() {
    let mut env = decided();
    env.fee_bps = None;
    claim(&mut env, 7, 100, 400, 1000).unwrap();
    assert_eq!(env.effects.len(), 3);
    assert_eq!(
        env.effects[1],
        ManagerEffect::ReleaseEscrow {
            registry: account(REGISTRY),
            call_id: 7,
            to: account(ALICE),
            amount: 350
        }
    );
}

#[test]
fn claim_refusals() {
    let mut env = decided();
    assert_eq!(claim(&mut env, 8, 1, 1, 1), Err(ManagerError::CallNotSettled));
    assert_eq!(claim(&mut env, 7, 0, 1, 1), Err(ManagerError::NothingToClaim));
    assert_eq!(claim(&mut env, 7, 1, 0, 1), Err(ManagerError::InvalidTotalWinningStake));
    assert_eq!(claim(&mut env, 7, 1, 1, i128::MAX), Err(ManagerError::FeeOverflow));
    assert_eq!(env.effects.len(), 0);
    env.fee_collector = None;
    assert_eq!(claim(&mut env, 7, 1, 1, 1), Err(ManagerError::FeeCollectorNotSet));
    env.authorized.clear();
    assert_eq!(claim(&mut env, 7, 1, 1, 1), Err(ManagerError::Unauthorized));
}

#[test]
fn payouts() {
    let paid = |stake: i128, won: i128, lost: i128, fee_bps: u32| {
        compute_payout(stake, won, lost, fee_bps)
    };
    assert_eq!(paid(100, 400, 1000, 1000), Ok(Payout { fee_share: 25, amount: 325 }));
    assert_eq!(paid(1, 3, 10, 0), Ok(Payout { fee_share: 0, amount: 4 }));
    assert_eq!(paid(400, 400, 999, 250), Ok(Payout { fee_share: 24, amount: 1375 }));
    assert_eq!(paid(5, 5, 1000, 10_000), Ok(Payout { fee_share: 1000, amount: 5 }));
    assert_eq!(paid(7, 10, -15, 5000), Ok(Payout { fee_share: -4, amount: 2 }));
    assert_eq!(paid(1, 1, i128::MAX, 2), Err(ManagerError::FeeOverflow));
    assert_eq!(paid(1 << 100, 1, 1 << 60, 10_000), Err(ManagerError::FeeShareOverflow));
    assert_eq!(paid(1 << 100, 1, 1 << 60, 0), Err(ManagerError::PrizeOverflow));
    assert_eq!(paid(1 << 126, 1, 1, 0), Err(ManagerError::PayoutOverflow));
    assert_eq!(paid(1, 1, i128::MIN, 0), Ok(Payout { fee_share: 0, amount: i128::MIN + 1 }));
}

#[test]
fn stakes_cover_claims() {
    let stakes: [i128; 5] = [1, 7, 13, 100, 379];
    let won: i128 = stakes.iter().sum();
    for lost in [0, 1, 17, 999, 12_345] {
        for fee_bps in [0, 1, 333, 9_999, 10_000] {
            let mut all: i128 = 0;
            for stake in stakes {
                let paid = compute_payout(stake, won, lost, fee_bps).unwrap();
                assert!(paid.amount >= stake);
                all += paid.amount + paid.fee_share;
            }
            assert!(all <= won + lost);
        }
    }
}

#[test]
fn a_sole_winner_takes_all() {
    let paid = compute_payout(60, 60, 41, 2_000).unwrap();
    assert_eq!(paid, Payout { fee_share: 8, amount: 93 });
}

#[test]
fn mark_settled_tells_the_registry() {
    let mut env = decided();
    assert_eq!(
        OutcomeManager::mark_settled(&mut env, account(REGISTRY), 8),
        Err(ManagerError::CallNotFinalized)
    );
    OutcomeManager::mark_settled(&mut env, account(REGISTRY), 7).unwrap();
    assert_eq!(
        env.effects,
        vec![ManagerEffect::MarkSettled { registry: account(REGISTRY), call_id: 7 }]
    );
    env.authorized.clear();
    assert_eq!(
        OutcomeManager::mark_settled(&mut env, account(REGISTRY), 7),
        Err(ManagerError::Unauthorized)
    );
}

#[test]
fn manager_errors_have_texts() {
    assert_eq!(ManagerError::NotInitialized.message(), "not initialized");
    assert_eq!(ManagerError::FeeOverflow.message(), "overflow in fee calculation");
    assert_eq!(ManagerError::TooManyEntries.message(), "too many entries");
}

#[test]
fn a_larger_stake_is_paid_no_less() {
    let mut last: i128 = 0;
    for stake in 1..=50 {
        let paid = compute_payout(stake, 50, 123, 777).unwrap().amount;
        assert!(paid >= stake && paid >= last);
        last = paid;
    }
    assert_eq!(last, 50 + 123 - 9);
}

#[test]
fn the_fee_is_fixed() {
    let mut env = decided();
    claim(&mut env, 7, 100, 400, 1000).unwrap();
    OutcomeManager::set_quorum(&mut env, 1).unwrap();
    OutcomeManager::set_admin(&mut env, account(ALICE)).unwrap();
    assert_eq!((env.fee_bps, env.fee_collector), (Some(1000), Some(account(COLLECTOR))));
}

#[test]
fn a_report_has_its_digest() {
    let host = soroban_sdk::Env::default();
    assert_eq!(hash_report(&host, &report(1, 7, 1, 12345)), known_hash());
    assert_eq!(hash_report(&host, &report(2, 7, 1, 12345)), known_hash());
    assert_ne!(hash_report(&host, &report(1, 7, 2, 12345)), known_hash());
}

#[test]
fn some_claims_are_covered_by_those_who_claim() {
    let stakes: [i128; 3] = [13, 100, 379];
    for claimed in [&stakes[..1], &stakes[1..], &stakes[..]] {
        let mut all: i128 = 0;
        for stake in claimed {
            let paid = compute_payout(*stake, 500, 999, 333).unwrap();
            all += paid.amount + paid.fee_share;
        }
        assert!(all <= claimed.iter().sum::<i128>() + 999);
    }
}

#[test]
fn a_vote_that_expired_can_be_cast_again() {
    let mut env = fresh();
    submit(&mut env, report(1, 7, 1, 5)).unwrap();
    env.submissions = Table::new();
    assert_eq!(submit(&mut env, report(1, 7, 2, 5)), Ok(()));
    let mut env = decided();
    env.submissions = Table::new();
    env.votes = Table::new();
    assert_eq!(submit(&mut env, report(3, 7, 2, 5)), Err(ManagerError::AlreadySettled));
    claim(&mut env, 7, 100, 400, 1000).unwrap();
    assert_eq!(claim(&mut env, 7, 100, 400, 1000), Err(ManagerError::AlreadyClaimed));
}
