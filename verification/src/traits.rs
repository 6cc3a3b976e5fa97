//! What the staking module asks of the runtime that holds it.

use crate::types::{AccountId, EraIndex, SessionIndex};
use vstd::prelude::*;

verus! {

/// What the staking module needs of the session module.
pub trait SessionInterface<AccountId> {
    /// Disable a given validator by stash ID.
    ///
    /// Returns `true` if new era should be forced at the end of this session.
    /// This allows preventing a situation where there is too many validators
    /// disabled and block production stalls.
    fn disable_validator(validator: &AccountId) -> Result<bool, ()>;

    /// Get the validators from session.
    fn validators() -> Vec<AccountId>;

    /// Prune historical session tries up to but not including the given index.
    fn prune_historical_up_to(up_to: SessionIndex);
}

/// What a runtime fixes for the staking module.
pub trait Trait {
    /// Interface for interacting with a session module.
    type SessionInterface: SessionInterface<AccountId>;

    /// Number of sessions per era.
    fn sessions_per_era() -> SessionIndex;

    /// Number of eras that staked funds must remain bonded for.
    fn bonding_duration() -> EraIndex;

    /// Number of eras per epoch.
    fn eras_per_epoch() -> EraIndex;
}

} // verus!
