//! Addresses of accounts and contracts.

use vstd::prelude::*;
use crate::bytes32::Bytes32;
use crate::table::Key;

verus! {

/// The address of an account or of a contract. Two addresses are equal when they have the same
/// kind and the same identifier.
#[derive(Clone, Copy, Debug, PartialEq, Eq, Structural)]
pub struct Address {
    /// Whether this is the address of a contract.
    pub is_contract: bool,
    /// The public key of the account, or the identifier of the contract.
    pub id: Bytes32,
}

impl Address {
    /// The address as a tuple, the form in which it keys a host map.
    pub open spec fn key(self) -> (bool, u128, u128) {
        (self.is_contract, self.id.hi, self.id.lo)
    }
}

impl Key for Address {
    fn same(&self, other: &Self) -> (r: bool) {
        *self == *other
    }
}

} // verus!
