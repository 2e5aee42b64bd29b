use call_market::address::Address;
use call_market::bytes32::Bytes32;
use call_market::call_registry::contract::CallRegistry;
use call_market::call_registry::storage::{RegistryEffect, RegistryEnv};
use call_market::call_registry::types::ConditionType;
use call_market::outcome_manager::contract::OutcomeManager;
use call_market::outcome_manager::storage::{ManagerEffect, ManagerEnv};
use call_market::outcome_manager::types::SignedOutcome;
use call_market::table::Table;

fn account(n: u128) -> Address {
    Address { is_contract: false, id: Bytes32 { hi: 0, lo: n } }
}

fn contract(n: u128) -> Address {
    Address { is_contract: true, id: Bytes32 { hi: 0, lo: n } }
}

/// Has the registry do what the outcome manager asks of it.
fn carry_out(manager: &mut ManagerEnv, registry: &mut RegistryEnv) {
    for effect in manager.effects.drain(..) {
        match effect {
            ManagerEffect::ResolveCall { call_id, outcome, end_price, .. } => {
                assert!(CallRegistry::resolve_call(registry, call_id, outcome, end_price).is_ok());
            }
            ManagerEffect::ReleaseEscrow { call_id, to, amount, .. } => {
                CallRegistry::release_escrow(registry, call_id, to, amount).unwrap();
            }
            ManagerEffect::MarkSettled { call_id, .. } => {
                CallRegistry::mark_settled(registry, call_id).unwrap();
            }
            _ => {}
        }
    }
}

#[test]
fn a_call_from_its_creation_to_its_settlement() {
    let host = soroban_sdk::Env::default();
    let everybody: Vec<Address> =
        [account(1), account(3), account(4), account(5), contract(9)].to_vec();
    let mut registry = RegistryEnv::new(host.clone(), 100);
    registry.authorized = everybody.clone();
    let mut manager = ManagerEnv::new(host);
    manager.authorized = everybody;
    let oracle = Bytes32 { hi: 8, lo: 8 };

    CallRegistry::initialize(&mut registry, account(1), contract(9)).unwrap();
    OutcomeManager::initialize(&mut manager, account(1), vec![oracle], 1, account(2), 500).unwrap();
    let call = CallRegistry::create_call(
        &mut registry,
        account(3),
        contract(6),
        10,
        200,
        contract(7),
        vec![],
        vec![],
        ConditionType::PercentUp(10),
    );
    assert_eq!(call.ok().unwrap().id, 1);
    for (who, amount, side) in [(3, 300, 1), (4, 100, 1), (5, 1000, 2)] {
        let staked = CallRegistry::stake_on_call(&mut registry, account(who), 1, amount, side);
        assert!(staked.is_ok());
    }

    registry.timestamp = 250;
    let signed = SignedOutcome {
        call_id: 1,
        outcome: 1,
        price: 777,
        timestamp: 240,
        oracle_pubkey: oracle,
        signature: [1; 64],
    };
    OutcomeManager::submit_outcome(&mut manager, contract(8), signed, true).unwrap();
    carry_out(&mut manager, &mut registry);
    let resolved = CallRegistry::get_call(&mut registry, 1).ok().unwrap();
    assert_eq!((resolved.outcome, resolved.end_price), (1, 777));

    registry.effects.clear();
    let (won, lost) = (resolved.total_up_stake, resolved.total_down_stake);
    assert_eq!((won, lost), (400, 1000));
    for (who, stake) in [(3, 300), (4, 100)] {
        OutcomeManager::claim_payout(&mut manager, contract(8), 1, account(who), stake, won, lost)
            .unwrap();
    }
    carry_out(&mut manager, &mut registry);
    let paid: Vec<(Address, i128)> = registry
        .effects
        .iter()
        .filter_map(|effect| match effect {
            RegistryEffect::TransferOut { to, amount, .. } => Some((*to, *amount)),
            _ => None,
        })
        .collect();
    assert_eq!(
        paid,
        vec![
            (account(2), 37),
            (account(3), 1012),
            (account(2), 12),
            (account(4), 337)
        ]
    );
    let all: i128 = paid.iter().map(|(_, amount)| *amount).sum();
    assert!(all <= won + lost);

    OutcomeManager::mark_settled(&mut manager, contract(8), 1).unwrap();
    carry_out(&mut manager, &mut registry);
    assert!(CallRegistry::get_call(&mut registry, 1).ok().unwrap().settled);
}

#[test]
fn a_table_keeps_one_entry_per_key() {
    let mut table: Table<u64, u32> = Table::new();
    assert!(table.get(&1).is_none());
    table.insert(1, 10);
    table.insert(2, 20);
    table.insert(1, 11);
    assert_eq!(table.get(&1), Some(&11));
    assert_eq!(table.get(&2), Some(&20));
    assert!(!table.contains_key(&3));
}
