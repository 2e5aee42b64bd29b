use call_market::address::Address;
use call_market::bytes32::Bytes32;
use call_market::call_registry::condition::{evaluate_condition_impl, is_computable};
use call_market::call_registry::contract::CallRegistry;
use call_market::call_registry::events::{AdminChange, RegistryEvent};
use call_market::call_registry::listing::calls_to_load;
use call_market::call_registry::storage::{
    add_staker_call, call_exists, extend_storage_ttl, get_call, get_call_counter, get_config,
    get_staker_calls, next_call_id, set_call, set_config, DataKey, RegistryEffect, RegistryEnv,
};
use call_market::call_registry::types::{
    Call, ConditionType, ContractConfig, RegistryError, StakePosition,
};

fn account(n: u128) -> Address {
    Address { is_contract: false, id: Bytes32 { hi: 0, lo: n } }
}

fn contract(n: u128) -> Address {
    Address { is_contract: true, id: Bytes32 { hi: 0, lo: n } }
}

const ADMIN: u128 = 1;
const MANAGER: u128 = 2;
const CREATOR: u128 = 3;
const ALICE: u128 = 4;
const BOB: u128 = 5;
const TOKEN: u128 = 6;

/// A ledger at time 100 with a configuration, on which everybody authorizes everything.
fn fresh() -> RegistryEnv {
    let mut env = RegistryEnv::new(soroban_sdk::Env::default(), 100);
    for n in [ADMIN, MANAGER, CREATOR, ALICE, BOB] {
        env.authorized.push(account(n));
    }
    CallRegistry::initialize(&mut env, account(ADMIN), account(MANAGER)).unwrap();
    env.effects.clear();
    env
}

fn create(env: &mut RegistryEnv, creator: u128, end_ts: u64) -> Result<Call, RegistryError> {
    CallRegistry::create_call(
        env,
        account(creator),
        contract(TOKEN),
        50,
        end_ts,
        contract(77),
        vec![1, 2, 3],
        vec![4, 5],
        ConditionType::TargetAbove(10),
    )
}

fn err<T>(r: Result<T, RegistryError>) -> RegistryError {
    match r {
        Ok(_) => panic!("granted"),
        Err(e) => e,
    }
}

fn is_touch(effect: &RegistryEffect<Vec<u8>>, wanted: DataKey) -> bool {
    matches!(
        effect,
        RegistryEffect::ExtendTtl { key, threshold: 1_036_800, extend_to: 2_073_600 }
            if *key == wanted
    )
}

fn is_save(effect: &RegistryEffect<Vec<u8>>, wanted: DataKey) -> bool {
    matches!(effect, RegistryEffect::Save(key) if *key == wanted)
}

fn is_instance_touch(effect: &RegistryEffect<Vec<u8>>) -> bool {
    matches!(
        effect,
        RegistryEffect::ExtendInstanceTtl { threshold: 60_480, extend_to: 120_960 }
    )
}

#[test]
fn initialize_stores_and_announces() {
    let mut env = RegistryEnv::new(soroban_sdk::Env::default(), 100);
    assert_eq!(
        err(CallRegistry::initialize(&mut env, account(ADMIN), account(MANAGER))),
        RegistryError::Unauthorized
    );
    assert_eq!(env.effects.len(), 0);
    env.authorized.push(account(ADMIN));
    CallRegistry::initialize(&mut env, account(ADMIN), account(MANAGER)).unwrap();
    assert_eq!(
        CallRegistry::get_config(&env),
        Ok(ContractConfig {
            admin: account(ADMIN),
            outcome_manager: account(MANAGER),
            fee_bps: 0
        })
    );
    assert_eq!(env.effects.len(), 3);
    assert!(is_save(&env.effects[0], DataKey::Config));
    assert!(is_instance_touch(&env.effects[1]));
    assert!(matches!(
        env.effects[2],
        RegistryEffect::Publish(RegistryEvent::Initialized { .. })
    ));
    assert_eq!(
        err(CallRegistry::initialize(&mut env, account(ADMIN), account(BOB))),
        RegistryError::AlreadyInitialized
    );
}

#[test]
fn get_config_needs_initialization() {
    let env = RegistryEnv::new(soroban_sdk::Env::default(), 100);
    assert_eq!(
        CallRegistry::get_config(&env),
        Err(RegistryError::ContractNotInitialized)
    );
}

#[test]
fn create_call_numbers_from_one() {
    let mut env = fresh();
    let first = create(&mut env, CREATOR, 200).ok().unwrap();
    assert_eq!(first.id, 1);
    assert_eq!(first.creator, account(CREATOR));
    assert_eq!(first.stake_token, contract(TOKEN));
    assert_eq!(first.stake_amount, 50);
    assert_eq!(first.end_ts, 200);
    assert_eq!(first.token_address, contract(77));
    assert_eq!(first.pair_id, vec![1, 2, 3]);
    assert_eq!(first.ipfs_cid, vec![4, 5]);
    assert_eq!(first.total_up_stake, 0);
    assert_eq!(first.total_down_stake, 0);
    assert_eq!(first.up_stakes.len(), 0);
    assert_eq!(first.down_stakes.len(), 0);
    assert_eq!((first.outcome, first.start_price, first.end_price), (0, 0, 0));
    assert_eq!(first.condition, ConditionType::TargetAbove(10));
    assert!(!first.settled);
    assert_eq!(first.created_at, 100);
    assert_eq!(env.effects.len(), 5);
    assert!(is_save(&env.effects[0], DataKey::CallCounter));
    assert!(is_save(&env.effects[1], DataKey::Call(1)));
    assert!(is_touch(&env.effects[2], DataKey::Call(1)));
    assert!(is_instance_touch(&env.effects[3]));
    match &env.effects[4] {
        RegistryEffect::Publish(RegistryEvent::CallCreated {
            call_id,
            pair_id,
            ipfs_cid,
            ..
        }) => {
            assert_eq!(*call_id, 1);
            assert_eq!(*pair_id, vec![1, 2, 3]);
            assert_eq!(*ipfs_cid, vec![4, 5]);
        }
        _ => panic!("no announcement"),
    }
    assert_eq!(create(&mut env, CREATOR, 200).ok().unwrap().id, 2);
    assert_eq!(CallRegistry::get_call_count(&env), 2);
}

#[test]
fn create_call_refusals() {
    let mut env = fresh();
    assert_eq!(err(create(&mut env, 99, 200)), RegistryError::Unauthorized);
    assert_eq!(err(create(&mut env, CREATOR, 100)), RegistryError::EndNotInFuture);
    let zero = CallRegistry::create_call(
        &mut env,
        account(CREATOR),
        contract(TOKEN),
        0,
        200,
        contract(77),
        vec![],
        vec![],
        ConditionType::PercentUp(5),
    );
    assert_eq!(err(zero), RegistryError::StakeNotPositive);
    env.call_counter = Some(u64::MAX);
    assert_eq!(err(create(&mut env, CREATOR, 200)), RegistryError::Overflow);
    assert_eq!(env.effects.len(), 0);
}

#[test]
fn created_call_is_found() {
    let mut env = fresh();
    create(&mut env, CREATOR, 200).ok().unwrap();
    env.effects.clear();
    let call = CallRegistry::get_call(&mut env, 1).ok().unwrap();
    assert_eq!(call.pair_id, vec![1, 2, 3]);
    assert_eq!(env.effects.len(), 1);
    assert!(is_touch(&env.effects[0], DataKey::Call(1)));
    assert_eq!(err(CallRegistry::get_call(&mut env, 2)), RegistryError::CallDoesNotExist);
    assert_eq!(env.effects.len(), 1);
    assert_eq!(
        CallRegistry::get_condition(&mut env, 1),
        Ok(ConditionType::TargetAbove(10))
    );
    assert_eq!(
        CallRegistry::get_condition(&mut env, 3),
        Err(RegistryError::CallDoesNotExist)
    );
}

#[test]
fn extend_call_ttl_touches_the_call() {
    let mut env = fresh();
    assert_eq!(
        CallRegistry::extend_call_ttl(&mut env, 1),
        Err(RegistryError::CallDoesNotExist)
    );
    create(&mut env, CREATOR, 200).ok().unwrap();
    env.effects.clear();
    CallRegistry::extend_call_ttl(&mut env, 1).unwrap();
    assert_eq!(env.effects.len(), 1);
    assert!(is_touch(&env.effects[0], DataKey::Call(1)));
}

#[test]
fn stake_adds_exactly() {
    let mut env = fresh();
    create(&mut env, CREATOR, 200).ok().unwrap();
    env.effects.clear();
    let call = CallRegistry::stake_on_call(&mut env, account(ALICE), 1, 30, 1).ok().unwrap();
    assert_eq!(call.total_up_stake, 30);
    assert_eq!(call.total_down_stake, 0);
    assert_eq!(call.up_stakes.get(&account(ALICE)), Some(30));
    assert_eq!(call.up_stakes.get(&account(BOB)), None);
    assert_eq!(call.up_stakes.len(), 1);
    assert_eq!(env.effects.len(), 8);
    assert!(is_touch(&env.effects[0], DataKey::Call(1)));
    assert!(matches!(
        env.effects[1],
        RegistryEffect::TransferIn { token, from, amount: 30 }
            if token == contract(TOKEN) && from == account(ALICE)
    ));
    assert!(is_save(&env.effects[2], DataKey::Call(1)));
    assert!(is_touch(&env.effects[3], DataKey::Call(1)));
    assert!(is_save(&env.effects[4], DataKey::StakerCalls(account(ALICE))));
    assert!(is_touch(&env.effects[5], DataKey::StakerCalls(account(ALICE))));
    assert!(is_instance_touch(&env.effects[6]));
    assert!(matches!(
        env.effects[7],
        RegistryEffect::Publish(RegistryEvent::StakeAdded {
            call_id: 1,
            amount: 30,
            position: 1,
            ..
        })
    ));

    CallRegistry::stake_on_call(&mut env, account(ALICE), 1, 5, 1).ok().unwrap();
    CallRegistry::stake_on_call(&mut env, account(ALICE), 1, 7, 2).ok().unwrap();
    CallRegistry::stake_on_call(&mut env, account(BOB), 1, 11, 2).ok().unwrap();
    let mut stake =
        |who: u128, side: u32| CallRegistry::get_staker_stake(&mut env, 1, account(who), side);
    assert_eq!(stake(ALICE, 1), Ok(35));
    assert_eq!(stake(ALICE, 2), Ok(7));
    assert_eq!(stake(BOB, 1), Ok(0));
    assert_eq!(stake(BOB, 2), Ok(11));
    assert_eq!(stake(BOB, 3), Err(RegistryError::UnknownPosition));
    let stats = CallRegistry::get_call_stats(&mut env, 1).unwrap();
    assert_eq!(stats.total_up_stake, 35);
    assert_eq!(stats.total_down_stake, 18);
    assert_eq!(stats.up_stake_count, 1);
    assert_eq!(stats.down_stake_count, 2);
    assert_eq!(stats.total_stakes, 3);
    assert_eq!(
        CallRegistry::get_call_stats(&mut env, 9),
        Err(RegistryError::CallDoesNotExist)
    );
    assert_eq!(
        CallRegistry::get_staker_stake(&mut env, 9, account(BOB), 3),
        Err(RegistryError::CallDoesNotExist)
    );
}

#[test]
fn stakes_received_are_the_stakes_on_record() {
    let mut env = fresh();
    create(&mut env, CREATOR, 200).ok().unwrap();
    create(&mut env, CREATOR, 300).ok().unwrap();
    for (who, id, amount, side) in [(ALICE, 1, 3, 1), (BOB, 1, 4, 2), (ALICE, 2, 5, 2)] {
        CallRegistry::stake_on_call(&mut env, account(who), id, amount, side).ok().unwrap();
    }
    let received: i128 = env
        .effects
        .iter()
        .map(|e| match e {
            RegistryEffect::TransferIn { amount, .. } => *amount,
            _ => 0,
        })
        .sum();
    let mut recorded: i128 = 0;
    for id in 1..=2 {
        let call = CallRegistry::get_call(&mut env, id).ok().unwrap();
        recorded += call.total_up_stake + call.total_down_stake;
    }
    assert_eq!(received, 12);
    assert_eq!(recorded, 12);
}

#[test]
fn stake_refusals() {
    let mut env = fresh();
    create(&mut env, CREATOR, 200).ok().unwrap();
    env.effects.clear();
    let mut stake = |who: u128, id: u64, amount: i128, side: u32| {
        err(CallRegistry::stake_on_call(&mut env, account(who), id, amount, side))
    };
    assert_eq!(stake(99, 1, 5, 1), RegistryError::Unauthorized);
    assert_eq!(stake(ALICE, 1, 0, 1), RegistryError::StakeNotPositive);
    assert_eq!(stake(ALICE, 2, 5, 1), RegistryError::CallDoesNotExist);
    assert_eq!(stake(ALICE, 1, 5, 0), RegistryError::InvalidPosition);
    assert_eq!(stake(ALICE, 1, 5, 3), RegistryError::InvalidPosition);
    assert_eq!(env.effects.len(), 0);
    CallRegistry::stake_on_call(&mut env, account(ALICE), 1, i128::MAX, 1).ok().unwrap();
    assert_eq!(
        err(CallRegistry::stake_on_call(&mut env, account(ALICE), 1, 1, 1)),
        RegistryError::Overflow
    );
    assert_eq!(
        err(CallRegistry::stake_on_call(&mut env, account(BOB), 1, 1, 1)),
        RegistryError::Overflow
    );
    env.timestamp = 200;
    assert_eq!(
        err(CallRegistry::stake_on_call(&mut env, account(BOB), 1, 1, 2)),
        RegistryError::CallEnded
    );
}

#[test]
fn index_lists_a_call_once() {
    let mut env = fresh();
    for _ in 0..3 {
        create(&mut env, CREATOR, 200).ok().unwrap();
    }
    for id in [2, 1, 2, 2] {
        CallRegistry::stake_on_call(&mut env, account(ALICE), id, 1, 1).ok().unwrap();
    }
    let ids = get_staker_calls(&mut env, &account(ALICE));
    assert_eq!(ids.len(), 2);
    assert_eq!((ids.get(0), ids.get(1), ids.get(2)), (Some(2), Some(1), None));
    env.effects.clear();
    let calls = CallRegistry::get_staker_calls(&mut env, account(ALICE));
    assert_eq!(calls.iter().map(|c| c.id).collect::<Vec<u64>>(), vec![2, 1]);
    assert_eq!(env.effects.len(), 3);
    assert!(is_touch(&env.effects[0], DataKey::StakerCalls(account(ALICE))));
    assert!(is_touch(&env.effects[1], DataKey::Call(2)));
    assert!(is_touch(&env.effects[2], DataKey::Call(1)));
    env.effects.clear();
    assert_eq!(CallRegistry::get_staker_calls(&mut env, account(BOB)).len(), 0);
    assert_eq!(env.effects.len(), 0);
}

#[test]
fn staker_calls_skip_missing_calls() {
    let mut env = fresh();
    add_staker_call(&mut env, &account(ALICE), 5);
    create(&mut env, CREATOR, 200).ok().unwrap();
    add_staker_call(&mut env, &account(ALICE), 1);
    let calls = CallRegistry::get_staker_calls(&mut env, account(ALICE));
    assert_eq!(calls.iter().map(|c| c.id).collect::<Vec<u64>>(), vec![1]);
}

#[test]
fn resolve_needs_the_manager_and_the_end() {
    let mut env = fresh();
    create(&mut env, CREATOR, 200).ok().unwrap();
    env.effects.clear();
    assert_eq!(
        err(CallRegistry::resolve_call(&mut env, 1, 1, 42)),
        RegistryError::CallNotEnded
    );
    env.timestamp = 200;
    assert_eq!(
        err(CallRegistry::resolve_call(&mut env, 1, 3, 42)),
        RegistryError::InvalidOutcome
    );
    assert_eq!(
        err(CallRegistry::resolve_call(&mut env, 2, 1, 42)),
        RegistryError::CallDoesNotExist
    );
    let call = CallRegistry::resolve_call(&mut env, 1, 2, -42).ok().unwrap();
    assert_eq!((call.outcome, call.end_price), (2, -42));
    assert_eq!(env.effects.len(), 5);
    assert!(is_touch(&env.effects[0], DataKey::Call(1)));
    assert!(is_save(&env.effects[1], DataKey::Call(1)));
    assert!(is_touch(&env.effects[2], DataKey::Call(1)));
    assert!(is_instance_touch(&env.effects[3]));
    assert!(matches!(
        env.effects[4],
        RegistryEffect::Publish(RegistryEvent::CallResolved {
            call_id: 1,
            outcome: 2,
            end_price: -42
        })
    ));
    let stored = CallRegistry::get_call(&mut env, 1).ok().unwrap();
    assert_eq!((stored.outcome, stored.end_price), (2, -42));
    env.authorized = vec![account(ADMIN)];
    assert_eq!(
        err(CallRegistry::resolve_call(&mut env, 1, 1, 42)),
        RegistryError::Unauthorized
    );
    env.config = None;
    assert_eq!(
        err(CallRegistry::resolve_call(&mut env, 1, 1, 42)),
        RegistryError::ContractNotInitialized
    );
}

#[test]
fn stake_or_resolve_but_not_both() {
    for timestamp in [100, 199, 200, 201] {
        let mut env = fresh();
        create(&mut env, CREATOR, 200).ok().unwrap();
        env.timestamp = timestamp;
        let stakes = CallRegistry::stake_on_call(&mut env, account(ALICE), 1, 1, 1).is_ok();
        let resolves = CallRegistry::resolve_call(&mut env, 1, 1, 1).is_ok();
        assert_eq!(stakes, timestamp < 200);
        assert_eq!(resolves, timestamp >= 200);
    }
}

#[test]
fn settled_is_final() {
    let mut env = fresh();
    create(&mut env, CREATOR, 200).ok().unwrap();
    env.effects.clear();
    CallRegistry::mark_settled(&mut env, 1).unwrap();
    assert_eq!(env.effects.len(), 3);
    assert!(CallRegistry::get_call(&mut env, 1).ok().unwrap().settled);
    assert_eq!(CallRegistry::mark_settled(&mut env, 1), Err(RegistryError::AlreadySettled));
    assert_eq!(
        err(CallRegistry::stake_on_call(&mut env, account(ALICE), 1, 1, 1)),
        RegistryError::CallSettled
    );
    assert_eq!(CallRegistry::mark_settled(&mut env, 2), Err(RegistryError::CallNotFound));
    env.authorized.clear();
    assert_eq!(CallRegistry::mark_settled(&mut env, 1), Err(RegistryError::Unauthorized));
    env.config = None;
    assert_eq!(CallRegistry::mark_settled(&mut env, 1), Err(RegistryError::NotInitialized));
}

#[test]
fn release_pays_in_the_token_of_the_call() {
    let mut env = fresh();
    create(&mut env, CREATOR, 200).ok().unwrap();
    env.effects.clear();
    CallRegistry::release_escrow(&mut env, 1, account(BOB), 9).unwrap();
    assert_eq!(env.effects.len(), 2);
    assert!(is_touch(&env.effects[0], DataKey::Call(1)));
    assert!(matches!(
        env.effects[1],
        RegistryEffect::TransferOut { token, to, amount: 9 }
            if token == contract(TOKEN) && to == account(BOB)
    ));
    assert_eq!(
        CallRegistry::release_escrow(&mut env, 2, account(BOB), 9),
        Err(RegistryError::CallNotFound)
    );
    env.authorized.clear();
    assert_eq!(
        CallRegistry::release_escrow(&mut env, 1, account(BOB), 9),
        Err(RegistryError::Unauthorized)
    );
    env.config = None;
    assert_eq!(
        CallRegistry::release_escrow(&mut env, 1, account(BOB), 9),
        Err(RegistryError::NotInitialized)
    );
}

#[test]
fn admin_changes_the_configuration() {
    let mut env = fresh();
    CallRegistry::set_fee(&mut env, 10_000).unwrap();
    assert_eq!(CallRegistry::set_fee(&mut env, 10_001), Err(RegistryError::FeeTooHigh));
    CallRegistry::set_outcome_manager(&mut env, account(BOB)).unwrap();
    env.effects.clear();
    CallRegistry::set_admin(&mut env, account(ALICE)).unwrap();
    assert_eq!(env.effects.len(), 3);
    assert!(is_save(&env.effects[0], DataKey::Config));
    assert!(is_instance_touch(&env.effects[1]));
    assert!(matches!(
        env.effects[2],
        RegistryEffect::Publish(RegistryEvent::AdminParamsChanged(AdminChange::Admin {
            old_admin,
            new_admin
        })) if old_admin == account(ADMIN) && new_admin == account(ALICE)
    ));
    assert_eq!(
        CallRegistry::get_config(&env),
        Ok(ContractConfig {
            admin: account(ALICE),
            outcome_manager: account(BOB),
            fee_bps: 10_000
        })
    );
    env.authorized = vec![account(ADMIN)];
    assert_eq!(CallRegistry::set_fee(&mut env, 1), Err(RegistryError::Unauthorized));
    assert_eq!(
        CallRegistry::set_admin(&mut env, account(ADMIN)),
        Err(RegistryError::Unauthorized)
    );
    env.config = None;
    assert_eq!(
        CallRegistry::set_outcome_manager(&mut env, account(ADMIN)),
        Err(RegistryError::ContractNotInitialized)
    );
}

fn ids(calls: Vec<Call>) -> Vec<u64> {
    calls.iter().map(|call| call.id).collect()
}

/// Calls 1 to 30, the even ones by Alice and the odd ones by the creator.
fn thirty_calls() -> RegistryEnv {
    let mut env = fresh();
    for n in 1..=30 {
        let creator = if n % 2 == 0 { ALICE } else { CREATOR };
        create(&mut env, creator, 200).ok().unwrap();
    }
    env.effects.clear();
    env
}

#[test]
fn pages_are_limited() {
    let mut env = thirty_calls();
    assert_eq!(ids(CallRegistry::get_calls_paginated(&mut env, 0, 3)), vec![1, 2, 3]);
    assert_eq!(env.effects.len(), 3);
    assert_eq!(ids(CallRegistry::get_calls_paginated(&mut env, 29, 3)), vec![29, 30]);
    assert_eq!(ids(CallRegistry::get_calls_paginated(&mut env, 31, 3)), Vec::<u64>::new());
    assert_eq!(ids(CallRegistry::get_calls_paginated(&mut env, 1, 0)), Vec::<u64>::new());
    assert_eq!(CallRegistry::get_calls_paginated(&mut env, 1, 100).len(), 20);
}

#[test]
fn pages_cover_all_calls() {
    let mut env = thirty_calls();
    let mut all: Vec<u64> = Vec::new();
    let mut start = 0;
    loop {
        let page = ids(CallRegistry::get_calls_paginated(&mut env, start, 7));
        if page.is_empty() {
            break;
        }
        start = page[page.len() - 1] + 1;
        all.extend(page);
    }
    assert_eq!(all, (1..=30).collect::<Vec<u64>>());
}

#[test]
fn pages_of_one_creator() {
    let mut env = thirty_calls();
    let page = CallRegistry::get_calls_by_creator_paginated(&mut env, account(ALICE), 3, 2);
    assert_eq!(ids(page), vec![4, 6]);
    assert_eq!(env.effects.len(), 4);
    for (effect, id) in env.effects.iter().zip([3, 4, 5, 6]) {
        assert!(is_touch(effect, DataKey::Call(id)));
    }
    let all = ids(CallRegistry::get_calls_by_creator(&mut env, account(ALICE)));
    assert_eq!(all, (1..=15).map(|n| 2 * n).collect::<Vec<u64>>());
    assert_eq!(env.effects.len(), 34);
    assert_eq!(CallRegistry::get_calls_by_creator(&mut env, account(BOB)).len(), 0);
}

#[test]
fn the_last_number_ends_a_listing() {
    let mut env = fresh();
    env.call_counter = Some(u64::MAX);
    let page = CallRegistry::get_calls_paginated(&mut env, u64::MAX - 1, 5);
    assert_eq!(page.len(), 0);
}

#[test]
fn conditions() {
    let met = |condition: ConditionType, start: i128, end: i128| {
        assert!(is_computable(&condition, start, end));
        let r = evaluate_condition_impl(&condition, start, end);
        assert_eq!(CallRegistry::evaluate_condition(condition, start, end), r);
        r
    };
    assert!(met(ConditionType::TargetAbove(10), 0, 11));
    assert!(!met(ConditionType::TargetAbove(10), 0, 10));
    assert!(met(ConditionType::TargetBelow(10), 0, 9));
    assert!(!met(ConditionType::TargetBelow(10), 0, 10));
    assert!(met(ConditionType::PercentUp(10), 1000, 1100));
    assert!(!met(ConditionType::PercentUp(10), 1000, 1099));
    assert!(!met(ConditionType::PercentUp(10), 0, 1100));
    assert!(met(ConditionType::PercentDown(10), 1000, 900));
    assert!(!met(ConditionType::PercentDown(10), 1000, 901));
    assert!(!met(ConditionType::PercentDown(10), -1000, -2000));
    assert!(met(ConditionType::PercentDown(200), 1000, -1000));
    assert!(!met(ConditionType::PercentDown(200), 1000, -999));
    assert!(met(ConditionType::Range(5, 7), 0, 5));
    assert!(met(ConditionType::Range(5, 7), 0, 7));
    assert!(!met(ConditionType::Range(5, 7), 0, 8));
    assert!(!met(ConditionType::Range(7, 5), 0, 6));
    assert!(!is_computable(&ConditionType::PercentUp(1), 1, i128::MAX));
    assert!(!is_computable(&ConditionType::PercentDown(1), i128::MAX, 1));
    assert!(is_computable(&ConditionType::PercentUp(1), 0, i128::MAX));
}

#[test]
fn positions_have_numbers() {
    assert_eq!(StakePosition::from_u32(1), Some(StakePosition::Up));
    assert_eq!(StakePosition::from_u32(2), Some(StakePosition::Down));
    assert_eq!(StakePosition::from_u32(0), None);
    assert_eq!(StakePosition::from_u32(3), None);
}

#[test]
fn storage_functions() {
    let mut env = RegistryEnv::new(soroban_sdk::Env::default(), 1);
    assert!(get_config(&env).is_none());
    let config = ContractConfig {
        admin: account(ADMIN),
        outcome_manager: account(MANAGER),
        fee_bps: 3,
    };
    set_config(&mut env, &config);
    assert_eq!(get_config(&env), Some(config));
    assert_eq!(get_call_counter(&env), 0);
    assert_eq!(next_call_id(&mut env), 1);
    assert_eq!(next_call_id(&mut env), 2);
    assert_eq!(get_call_counter(&env), 2);
    assert!(!call_exists(&env, 1));
    assert!(get_call(&mut env, 1).is_none());
    let mut other = fresh();
    let call = create(&mut other, CREATOR, 200).ok().unwrap();
    set_call(&mut env, &call);
    assert!(call_exists(&env, 1));
    assert_eq!(get_call(&mut env, 1).unwrap().ipfs_cid, vec![4, 5]);
    env.effects.clear();
    extend_storage_ttl(&mut env);
    assert!(is_instance_touch(&env.effects[0]));
}

#[test]
fn a_returned_call_is_a_copy() {
    let mut env = fresh();
    create(&mut env, CREATOR, 200).ok().unwrap();
    let mut copy = CallRegistry::stake_on_call(&mut env, account(ALICE), 1, 8, 1).ok().unwrap();
    copy.up_stakes.set(&account(ALICE), 1);
    copy.up_stakes.set(&account(BOB), 2);
    assert_eq!(copy.up_stakes.len(), 2);
    let stored = CallRegistry::get_call(&mut env, 1).ok().unwrap();
    assert_eq!(stored.up_stakes.get(&account(ALICE)), Some(8));
    assert_eq!(stored.up_stakes.len(), 1);
    assert_eq!(stored.up_stakes.host_map().len(), 1);
}

#[test]
fn an_account_is_not_a_contract() {
    let mut env = fresh();
    env.authorized.push(contract(ALICE));
    create(&mut env, CREATOR, 200).ok().unwrap();
    CallRegistry::stake_on_call(&mut env, account(ALICE), 1, 8, 1).ok().unwrap();
    CallRegistry::stake_on_call(&mut env, contract(ALICE), 1, 9, 1).ok().unwrap();
    assert_eq!(CallRegistry::get_staker_stake(&mut env, 1, account(ALICE), 1), Ok(8));
    assert_eq!(CallRegistry::get_staker_stake(&mut env, 1, contract(ALICE), 1), Ok(9));
}

#[test]
fn errors_have_texts() {
    assert_eq!(RegistryError::CallDoesNotExist.message(), "Call does not exist");
    assert_eq!(RegistryError::StakeNotPositive.message(), "Stake amount must be positive");
    assert_eq!(
        RegistryError::InvalidOutcome.message(),
        "Invalid outcome: must be 1 (UP) or 2 (DOWN)"
    );
    assert_eq!(RegistryError::TooManyEntries.message(), "Too many entries");
}

#[test]
fn reading_changes_no_entry() {
    let mut env = fresh();
    create(&mut env, CREATOR, 200).ok().unwrap();
    CallRegistry::stake_on_call(&mut env, account(ALICE), 1, 8, 1).ok().unwrap();
    for _ in 0..2 {
        assert_eq!(CallRegistry::get_calls_by_creator(&mut env, account(CREATOR)).len(), 1);
        assert_eq!(CallRegistry::get_staker_calls(&mut env, account(ALICE)).len(), 1);
        assert_eq!(CallRegistry::get_staker_stake(&mut env, 1, account(ALICE), 1), Ok(8));
        assert_eq!(CallRegistry::get_call_count(&env), 1);
    }
}

#[test]
fn conditions_exclude_each_other() {
    for end in [0, 99, 100, 101, 1000] {
        let met = |condition| CallRegistry::evaluate_condition(condition, 100, end);
        let above = met(ConditionType::TargetAbove(100));
        let below = met(ConditionType::TargetBelow(100));
        let at = met(ConditionType::Range(100, 100));
        assert_eq!([above, below, at].iter().filter(|m| **m).count(), 1);
        assert!(!(met(ConditionType::PercentUp(1)) && met(ConditionType::PercentDown(1))));
        assert!(!(met(ConditionType::PercentUp(0)) && met(ConditionType::PercentDown(1))));
    }
    assert!(CallRegistry::evaluate_condition(ConditionType::PercentUp(0), 100, 100));
    assert!(CallRegistry::evaluate_condition(ConditionType::PercentDown(0), 100, 100));
}

#[test]
fn a_page_says_which_calls_it_needs() {
    let env = thirty_calls();
    assert_eq!(calls_to_load(&env, None, 0, 3, 0), Some((1, 3)));
    assert_eq!(calls_to_load(&env, None, 0, 3, 3), None);
    assert_eq!(calls_to_load(&env, None, 25, 100, 0), Some((25, 30)));
    assert_eq!(calls_to_load(&env, None, 25, 100, 30), None);
    assert_eq!(calls_to_load(&env, None, 1, 0, 0), None);
    assert_eq!(calls_to_load(&env, None, 31, 5, 0), None);
    assert_eq!(calls_to_load(&env, None, u64::MAX, 5, u64::MAX), None);
    let alice = Some(account(ALICE));
    assert_eq!(calls_to_load(&env, alice, 3, 4, 0), Some((3, 6)));
    assert_eq!(calls_to_load(&env, alice, 3, 4, 6), Some((7, 8)));
    assert_eq!(calls_to_load(&env, alice, 3, 4, 8), Some((9, 9)));
    assert_eq!(calls_to_load(&env, alice, 3, 4, 9), Some((10, 10)));
    assert_eq!(calls_to_load(&env, alice, 3, 4, 10), None);
}

#[test]
fn a_page_needs_only_the_calls_it_asks_for() {
    for creator in [ALICE, CREATOR, BOB] {
        for (start_id, limit) in [(0, 3), (5, 20), (28, 4), (40, 4), (2, 0)] {
            let mut ledger = thirty_calls();
            let mut env = fresh();
            env.call_counter = Some(30);
            let mut loaded: u64 = 0;
            while let Some((from, to)) =
                calls_to_load(&env, Some(account(creator)), start_id, limit, loaded)
            {
                for id in from..=to {
                    env.calls.insert(id, get_call(&mut ledger, id).unwrap());
                }
                loaded = to;
            }
            ledger.effects.clear();
            let mut page = |state: &mut RegistryEnv| {
                ids(CallRegistry::get_calls_by_creator_paginated(
                    state,
                    account(creator),
                    start_id,
                    limit,
                ))
            };
            assert_eq!(page(&mut env), page(&mut ledger));
            assert_eq!(env.effects.len(), ledger.effects.len());
        }
    }
}

#[test]
fn the_next_page_follows_the_last_call() {
    let mut env = thirty_calls();
    let mut all: Vec<u64> = Vec::new();
    let mut start = 0;
    loop {
        let page = ids(CallRegistry::get_calls_by_creator_paginated(
            &mut env,
            account(ALICE),
            start,
            4,
        ));
        match page.last() {
            Some(last) => start = last + 1,
            None => break,
        }
        all.extend(page);
    }
    assert_eq!(all, (1..=15).map(|n| 2 * n).collect::<Vec<u64>>());
}

#[test]
fn a_history_of_stakes_adds_up() {
    let mut env = fresh();
    for _ in 0..3 {
        create(&mut env, CREATOR, 200).ok().unwrap();
    }
    let history: [(u128, u64, i128, u32); 8] = [
        (ALICE, 3, 5, 1),
        (BOB, 1, 7, 2),
        (ALICE, 1, 2, 1),
        (ALICE, 9, 4, 1),
        (ALICE, 2, 0, 1),
        (ALICE, 3, 6, 1),
        (ALICE, 3, 1, 2),
        (BOB, 3, 3, 1),
    ];
    let mut order: Vec<u64> = Vec::new();
    let mut sum: i128 = 0;
    for (who, call_id, amount, side) in history {
        let granted =
            CallRegistry::stake_on_call(&mut env, account(who), call_id, amount, side).is_ok();
        if granted && who == ALICE {
            if !order.contains(&call_id) {
                order.push(call_id);
            }
            if call_id == 3 && side == 1 {
                sum += amount;
            }
        }
    }
    assert_eq!((order.clone(), sum), (vec![3, 1], 11));
    assert_eq!(ids(CallRegistry::get_staker_calls(&mut env, account(ALICE))), order);
    assert_eq!(CallRegistry::get_staker_stake(&mut env, 3, account(ALICE), 1), Ok(sum));
}
