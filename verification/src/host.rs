//! The host's data types: maps and lists that live in the contract host, and its hash function.
//!
//! The functions marked `external_body` call the SDK; what they promise of it is taken on trust.
//! A map or list of the host is a value: `set`, `remove` and `push_back` make a new host object
//! and point the handle at it, and leave every other handle as it was. The host meters what it
//! does, and aborts the whole invocation when the budget runs out; nothing here speaks of that.

use vstd::prelude::*;
use crate::address::Address;
use crate::bytes32::Bytes32;

verus! {

/// The SDK's handle to the contract host, `soroban_sdk::Env`.
#[verifier::external_type_specification]
#[verifier::external_body]
pub struct ExEnv(soroban_sdk::Env);

/// The SDK's map, `soroban_sdk::Map`.
#[verifier::external_type_specification]
#[verifier::external_body]
#[verifier::reject_recursive_types(K)]
#[verifier::reject_recursive_types(V)]
pub struct ExHostMap<K, V>(soroban_sdk::Map<K, V>);

/// The SDK's list, `soroban_sdk::Vec`.
#[verifier::external_type_specification]
#[verifier::external_body]
#[verifier::reject_recursive_types(T)]
pub struct ExHostVec<T>(soroban_sdk::Vec<T>);

/// The entries of a host map from addresses to amounts.
pub uninterp spec fn stake_entries(map: soroban_sdk::Map<(bool, u128, u128), i128>) -> Map<
    (bool, u128, u128),
    i128,
>;

/// `soroban_sdk::Map::new`: a map without entries.
#[verifier::external_body]
fn stakes_new(env: &soroban_sdk::Env) -> (r: soroban_sdk::Map<(bool, u128, u128), i128>)
    ensures
        stake_entries(r) == (Map::<(bool, u128, u128), i128>::empty()),
{
    soroban_sdk::Map::new(env)
}

/// `soroban_sdk::Map::get`: the value stored for a key, or nothing. The maps handed in were
/// filled by `stakes_set` alone, so every stored value converts back to an amount.
#[verifier::external_body]
fn stakes_get(map: &soroban_sdk::Map<(bool, u128, u128), i128>, key: (bool, u128, u128)) -> (r:
    Option<i128>)
    ensures
        r is Some <==> stake_entries(*map).contains_key(key),
        r matches Some(amount) ==> amount == stake_entries(*map)[key],
{
    map.get(key)
}

/// `soroban_sdk::Map::set`: stores a value for a key, in place of the one stored before. The
/// host refuses a map of more than `u32::MAX` entries.
#[verifier::external_body]
fn stakes_set(
    map: &mut soroban_sdk::Map<(bool, u128, u128), i128>,
    key: (bool, u128, u128),
    amount: i128,
)
    requires
        stake_entries(*old(map)).contains_key(key) || stake_entries(*old(map)).len() < u32::MAX,
    ensures
        stake_entries(*final(map)) == stake_entries(*old(map)).insert(key, amount),
{
    map.set(key, amount);
}

/// `soroban_sdk::Map::len`: the number of entries.
#[verifier::external_body]
fn stakes_len(map: &soroban_sdk::Map<(bool, u128, u128), i128>) -> (r: u32)
    ensures
        r == stake_entries(*map).len(),
{
    map.len()
}

/// `soroban_sdk::Map::clone`: a second handle to the same entries.
#[verifier::external_body]
fn stakes_clone(map: &soroban_sdk::Map<(bool, u128, u128), i128>) -> (r: soroban_sdk::Map<
    (bool, u128, u128),
    i128,
>)
    ensures
        stake_entries(r) == stake_entries(*map),
{
    map.clone()
}

/// The items of a host list of call identifiers.
pub uninterp spec fn call_id_items(list: soroban_sdk::Vec<u64>) -> Seq<u64>;

/// `soroban_sdk::Vec::new`: a list without items.
#[verifier::external_body]
fn ids_new(env: &soroban_sdk::Env) -> (r: soroban_sdk::Vec<u64>)
    ensures
        call_id_items(r) == Seq::<u64>::empty(),
{
    soroban_sdk::Vec::new(env)
}

/// `soroban_sdk::Vec::len`: the number of items.
#[verifier::external_body]
fn ids_len(list: &soroban_sdk::Vec<u64>) -> (r: u32)
    ensures
        r == call_id_items(*list).len(),
{
    list.len()
}

/// `soroban_sdk::Vec::get`: the item at a position, or nothing behind the end. The lists handed
/// in were filled by `ids_push_back` alone, so every item converts back to a number.
#[verifier::external_body]
fn ids_get(list: &soroban_sdk::Vec<u64>, at: u32) -> (r: Option<u64>)
    ensures
        r is Some <==> at < call_id_items(*list).len(),
        r matches Some(id) ==> id == call_id_items(*list)[at as int],
{
    list.get(at)
}

/// `soroban_sdk::Vec::push_back`: adds an item behind the last one. The host refuses a list of
/// more than `u32::MAX` items.
#[verifier::external_body]
fn ids_push_back(list: &mut soroban_sdk::Vec<u64>, id: u64)
    requires
        call_id_items(*old(list)).len() < u32::MAX,
    ensures
        call_id_items(*final(list)) == call_id_items(*old(list)).push(id),
{
    list.push_back(id);
}

/// `soroban_sdk::Vec::clone`: a second handle to the same items.
#[verifier::external_body]
fn ids_clone(list: &soroban_sdk::Vec<u64>) -> (r: soroban_sdk::Vec<u64>)
    ensures
        call_id_items(r) == call_id_items(*list),
{
    list.clone()
}

/// The entries of a host map of public keys.
pub uninterp spec fn oracle_entries(map: soroban_sdk::Map<(u128, u128), bool>) -> Map<
    (u128, u128),
    bool,
>;

/// `soroban_sdk::Map::new`: a map without entries.
#[verifier::external_body]
fn oracles_new(env: &soroban_sdk::Env) -> (r: soroban_sdk::Map<(u128, u128), bool>)
    ensures
        oracle_entries(r) == (Map::<(u128, u128), bool>::empty()),
{
    soroban_sdk::Map::new(env)
}

/// `soroban_sdk::Map::set`: stores a value for a key, in place of the one stored before. The
/// host refuses a map of more than `u32::MAX` entries.
#[verifier::external_body]
fn oracles_set(map: &mut soroban_sdk::Map<(u128, u128), bool>, key: (u128, u128), value: bool)
    requires
        oracle_entries(*old(map)).contains_key(key) || oracle_entries(*old(map)).len() < u32::MAX,
    ensures
        oracle_entries(*final(map)) == oracle_entries(*old(map)).insert(key, value),
{
    map.set(key, value);
}

/// `soroban_sdk::Map::remove`: takes the entry of a key out, if there is one.
#[verifier::external_body]
fn oracles_remove(map: &mut soroban_sdk::Map<(u128, u128), bool>, key: (u128, u128)) -> (r: Option<
    (),
>)
    ensures
        r is Some <==> oracle_entries(*old(map)).contains_key(key),
        oracle_entries(*final(map)) == oracle_entries(*old(map)).remove(key),
{
    map.remove(key)
}

/// `soroban_sdk::Map::contains_key`: whether there is an entry for a key.
#[verifier::external_body]
fn oracles_contains_key(map: &soroban_sdk::Map<(u128, u128), bool>, key: (u128, u128)) -> (r: bool)
    ensures
        r == oracle_entries(*map).contains_key(key),
{
    map.contains_key(key)
}

/// `soroban_sdk::Map::len`: the number of entries.
#[verifier::external_body]
fn oracles_len(map: &soroban_sdk::Map<(u128, u128), bool>) -> (r: u32)
    ensures
        r == oracle_entries(*map).len(),
{
    map.len()
}

/// The SHA-256 digest of a message.
pub uninterp spec fn sha256_digest(message: Seq<u8>) -> Seq<u8>;

/// `soroban_sdk::crypto::Crypto::sha256`: the digest of a message, which the message alone
/// decides. The host holds no byte string of more than `u32::MAX` bytes.
#[verifier::external_body]
pub(crate) fn sha256(env: &soroban_sdk::Env, message: &Vec<u8>) -> (r: [u8; 32])
    requires
        message@.len() <= u32::MAX,
    ensures
        r@ == sha256_digest(message@),
{
    env.crypto().sha256(&soroban_sdk::Bytes::from_slice(env, message.as_slice())).to_array()
}

/// How much each address has staked, one entry per address.
pub struct StakeMap {
    map: soroban_sdk::Map<(bool, u128, u128), i128>,
}

impl View for StakeMap {
    type V = Map<(bool, u128, u128), i128>;

    closed spec fn view(&self) -> Map<(bool, u128, u128), i128> {
        stake_entries(self.map)
    }
}

impl Clone for StakeMap {
    fn clone(&self) -> (r: Self)
        ensures
            r@ == self@,
    {
        StakeMap { map: stakes_clone(&self.map) }
    }
}

impl StakeMap {
    /// A map without entries.
    pub fn new(env: &soroban_sdk::Env) -> (r: StakeMap)
        ensures
            r@ == Map::<(bool, u128, u128), i128>::empty(),
    {
        StakeMap { map: stakes_new(env) }
    }

    /// What `who` has staked, if there is an entry.
    pub fn get(&self, who: &Address) -> (r: Option<i128>)
        ensures
            r is Some <==> self@.contains_key(who.key()),
            r matches Some(amount) ==> amount == self@[who.key()],
    {
        stakes_get(&self.map, (who.is_contract, who.id.hi, who.id.lo))
    }

    /// Records `amount` as what `who` has staked.
    pub fn set(&mut self, who: &Address, amount: i128)
        requires
            old(self)@.contains_key(who.key()) || old(self)@.len() < u32::MAX,
        ensures
            final(self)@ == old(self)@.insert(who.key(), amount),
    {
        stakes_set(&mut self.map, (who.is_contract, who.id.hi, who.id.lo), amount);
    }

    /// The number of entries.
    pub fn len(&self) -> (r: u32)
        ensures
            r == self@.len(),
    {
        stakes_len(&self.map)
    }

    /// The host map itself.
    pub fn host_map(&self) -> (r: &soroban_sdk::Map<(bool, u128, u128), i128>)
        ensures
            stake_entries(*r) == self@,
    {
        &self.map
    }
}

/// A list of call identifiers.
pub struct CallIds {
    list: soroban_sdk::Vec<u64>,
}

impl View for CallIds {
    type V = Seq<u64>;

    closed spec fn view(&self) -> Seq<u64> {
        call_id_items(self.list)
    }
}

impl Clone for CallIds {
    fn clone(&self) -> (r: Self)
        ensures
            r@ == self@,
    {
        CallIds { list: ids_clone(&self.list) }
    }
}

impl CallIds {
    /// A list without items.
    pub fn new(env: &soroban_sdk::Env) -> (r: CallIds)
        ensures
            r@ == Seq::<u64>::empty(),
    {
        CallIds { list: ids_new(env) }
    }

    /// The number of items.
    pub fn len(&self) -> (r: u32)
        ensures
            r == self@.len(),
    {
        ids_len(&self.list)
    }

    /// The item at position `at`, if the list is that long.
    pub fn get(&self, at: u32) -> (r: Option<u64>)
        ensures
            r is Some <==> at < self@.len(),
            r matches Some(id) ==> id == self@[at as int],
    {
        ids_get(&self.list, at)
    }

    /// Adds `id` behind the last item.
    pub fn push_back(&mut self, id: u64)
        requires
            old(self)@.len() < u32::MAX,
        ensures
            final(self)@ == old(self)@.push(id),
    {
        ids_push_back(&mut self.list, id);
    }

    /// Whether `id` is in the list.
    pub fn contains(&self, id: u64) -> (r: bool)
        ensures
            r == self@.contains(id),
    {
        let count: u32 = self.len();
        let mut at: u32 = 0;
        while at < count
            invariant
                at <= count,
                count == self@.len(),
                forall|j: int| 0 <= j < at ==> self@[j] != id,
            decreases count - at,
        {
            if let Some(item) = self.get(at) {
                if item == id {
                    return true;
                }
            }
            at += 1;
        }
        false
    }
}

/// A set of public keys.
pub struct OracleSet {
    map: soroban_sdk::Map<(u128, u128), bool>,
}

impl View for OracleSet {
    type V = Map<(u128, u128), bool>;

    closed spec fn view(&self) -> Map<(u128, u128), bool> {
        oracle_entries(self.map)
    }
}

impl Bytes32 {
    /// The value as a tuple, the form in which it keys a host map.
    pub open spec fn key(self) -> (u128, u128) {
        (self.hi, self.lo)
    }
}

impl OracleSet {
    /// A set without members.
    pub fn new(env: &soroban_sdk::Env) -> (r: OracleSet)
        ensures
            r@ == Map::<(u128, u128), bool>::empty(),
    {
        OracleSet { map: oracles_new(env) }
    }

    /// Makes `oracle` a member.
    pub fn add_member(&mut self, oracle: &Bytes32)
        requires
            old(self)@.contains_key(oracle.key()) || old(self)@.len() < u32::MAX,
        ensures
            final(self)@ == old(self)@.insert(oracle.key(), true),
    {
        oracles_set(&mut self.map, (oracle.hi, oracle.lo), true);
    }

    /// Takes `oracle` out.
    pub fn remove_member(&mut self, oracle: &Bytes32)
        ensures
            final(self)@ == old(self)@.remove(oracle.key()),
    {
        let _ = oracles_remove(&mut self.map, (oracle.hi, oracle.lo));
    }

    /// Whether `oracle` is a member.
    pub fn contains(&self, oracle: &Bytes32) -> (r: bool)
        ensures
            r == self@.contains_key(oracle.key()),
    {
        oracles_contains_key(&self.map, (oracle.hi, oracle.lo))
    }

    /// The number of members.
    pub fn len(&self) -> (r: u32)
        ensures
            r == self@.len(),
    {
        oracles_len(&self.map)
    }

    /// The host map itself.
    pub fn host_map(&self) -> (r: &soroban_sdk::Map<(u128, u128), bool>)
        ensures
            oracle_entries(*r) == self@,
    {
        &self.map
    }
}

} // verus!
