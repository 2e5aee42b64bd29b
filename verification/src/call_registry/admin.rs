//! Changes of the configuration, which only the administrator may make.

use vstd::prelude::*;
use crate::address::Address;
use crate::call_registry::events::{AdminChange, RegistryEvent};
use crate::call_registry::storage::{
    extend_storage_ttl, get_config, set_config, RegistryEffect, RegistryEnv, RegistryState,
};
use crate::call_registry::types::{ContractConfig, RegistryError};

verus! {

/// The highest fee, in basis points: all of it.
pub const MAX_FEE_BPS: u32 = 10_000;

impl RegistryState {
    /// Why the administrator's requests are refused, if they are.
    pub open spec fn admin_error(self) -> Option<RegistryError> {
        match self.config {
            None => Some(RegistryError::ContractNotInitialized),
            Some(config) => if !self.authorized.contains(config.admin) {
                Some(RegistryError::Unauthorized)
            } else {
                None
            },
        }
    }

    /// Why a fee is refused, if it is.
    pub open spec fn set_fee_error(self, new_fee_bps: u32) -> Option<RegistryError> {
        if self.admin_error() is Some {
            self.admin_error()
        } else if new_fee_bps > MAX_FEE_BPS {
            Some(RegistryError::FeeTooHigh)
        } else {
            None
        }
    }

    /// The configuration is changed and the change announced.
    pub open spec fn after_admin_change(
        self,
        config: ContractConfig,
        change: AdminChange,
    ) -> RegistryState {
        self.after_set_config(config).after_extend_storage_ttl().after(
            RegistryEffect::Publish(RegistryEvent::AdminParamsChanged(change)),
        )
    }

    /// Another administrator takes over.
    pub open spec fn after_set_admin(self, new_admin: Address) -> RegistryState {
        let config = self.config->0;
        self.after_admin_change(
            ContractConfig { admin: new_admin, ..config },
            AdminChange::Admin { old_admin: config.admin, new_admin },
        )
    }

    /// Another outcome manager takes over.
    pub open spec fn after_set_outcome_manager(self, new_manager: Address) -> RegistryState {
        let config = self.config->0;
        self.after_admin_change(
            ContractConfig { outcome_manager: new_manager, ..config },
            AdminChange::OutcomeManager { old_manager: config.outcome_manager, new_manager },
        )
    }

    /// Another fee is charged.
    pub open spec fn after_set_fee(self, new_fee_bps: u32) -> RegistryState {
        let config = self.config->0;
        self.after_admin_change(
            ContractConfig { fee_bps: new_fee_bps, ..config },
            AdminChange::FeeBps { old_fee_bps: config.fee_bps, new_fee_bps },
        )
    }
}

/// The configuration, once the administrator is known to have authorized the invocation.
fn require_admin(env: &RegistryEnv) -> (r: Result<ContractConfig, RegistryError>)
    ensures
        r is Ok <==> env@.admin_error() is None,
        r matches Ok(config) ==> env@.config == Some(config),
        r matches Err(e) ==> env@.admin_error() == Some(e),
{
    match get_config(env) {
        None => Err(RegistryError::ContractNotInitialized),
        Some(config) => if env.has_auth(&config.admin) {
            Ok(config)
        } else {
            Err(RegistryError::Unauthorized)
        },
    }
}

/// Stores a changed configuration and announces the change.
fn apply_change(env: &mut RegistryEnv, config: &ContractConfig, change: AdminChange)
    ensures
        final(env)@ == old(env)@.after_admin_change(*config, change),
{
    set_config(env, config);
    extend_storage_ttl(env);
    env.record(RegistryEffect::Publish(RegistryEvent::AdminParamsChanged(change)));
}

/// Hands the administration over to another address.
pub fn set_admin(env: &mut RegistryEnv, new_admin: Address) -> (r: Result<(), RegistryError>)
    ensures
        r is Ok <==> old(env)@.admin_error() is None,
        r is Ok ==> final(env)@ == old(env)@.after_set_admin(new_admin),
        r matches Err(e) ==> old(env)@.admin_error() == Some(e) && final(env)@ == old(env)@,
{
    let config = match require_admin(env) {
        Ok(config) => config,
        Err(e) => return Err(e),
    };
    let changed = ContractConfig { admin: new_admin, ..config };
    apply_change(env, &changed, AdminChange::Admin { old_admin: config.admin, new_admin });
    Ok(())
}

/// Puts another outcome manager in charge.
pub fn set_outcome_manager(env: &mut RegistryEnv, new_manager: Address) -> (r: Result<
    (),
    RegistryError,
>)
    ensures
        r is Ok <==> old(env)@.admin_error() is None,
        r is Ok ==> final(env)@ == old(env)@.after_set_outcome_manager(new_manager),
        r matches Err(e) ==> old(env)@.admin_error() == Some(e) && final(env)@ == old(env)@,
{
    let config = match require_admin(env) {
        Ok(config) => config,
        Err(e) => return Err(e),
    };
    let changed = ContractConfig { outcome_manager: new_manager, ..config };
    apply_change(
        env,
        &changed,
        AdminChange::OutcomeManager { old_manager: config.outcome_manager, new_manager },
    );
    Ok(())
}

/// Sets the protocol fee in basis points.
pub fn set_fee(env: &mut RegistryEnv, new_fee_bps: u32) -> (r: Result<(), RegistryError>)
    ensures
        r is Ok <==> old(env)@.set_fee_error(new_fee_bps) is None,
        r is Ok ==> final(env)@ == old(env)@.after_set_fee(new_fee_bps),
        r matches Err(e) ==> old(env)@.set_fee_error(new_fee_bps) == Some(e) && final(env)@ == old(env)@,
{
    let config = match require_admin(env) {
        Ok(config) => config,
        Err(e) => return Err(e),
    };
    if new_fee_bps > MAX_FEE_BPS {
        return Err(RegistryError::FeeTooHigh);
    }
    let changed = ContractConfig { fee_bps: new_fee_bps, ..config };
    apply_change(
        env,
        &changed,
        AdminChange::FeeBps { old_fee_bps: config.fee_bps, new_fee_bps },
    );
    Ok(())
}

} // verus!
