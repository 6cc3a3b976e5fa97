//! A dual-token proof-of-stake staking module: the staking ledger with its
//! time-locked deposits, the power function, the proportional election, the
//! era and session controller, and the slashing engine.
//!
//! The module's state is the value [`Module`]. Every call takes the state, the
//! caller and plain values read from the runtime (the time, a free balance),
//! and hands back what the runtime has to do next as a list of [`Action`]s.
//! The contracts speak of the state's mathematical value, [`ModuleView`], and
//! every call keeps the invariant [`ModuleView::wf`].

pub mod assoc;
pub mod deposits;
pub mod elect;
pub mod election;
pub mod election_laws;
pub mod equalize;
pub mod era;
pub mod exposure;
pub mod genesis;
pub mod kton;
pub mod laws;
pub mod ledger;
pub mod ledger_slash;
pub mod linked_map;
pub mod module;
pub mod per_things;
pub mod phragmen;
pub mod power;
pub mod roles;
pub mod slashing;
pub mod staking;
pub mod sums;
pub mod traits;
pub mod types;

pub use elect::elect;
pub use exposure::{EraPoints, Exposure, IndividualExposure, SlashJournalEntry};
pub use genesis::{ExposureOf, StashOf};
pub use kton::kton_return;
pub use ledger::{StakingLedgers, TimeDepositItem, UnlockChunk};
pub use linked_map::LinkedMap;
pub use module::{GenesisConfig, Module, ModuleView};
pub use phragmen::{Assignment, Nomination, PhragmenResult, Share, Staked};
pub use power::half_power;
pub use slashing::{FilterHistoricalOffences, OffenceDetails, Settlement};
pub use traits::{SessionInterface, Trait};
pub use types::{
    AccountId, Action, Balance, EraIndex, Error, Event, ExtendedBalance, Forcing, Moment, Origin,
    RewardDestination, SessionIndex, StakerStatus, StakingBalance, ValidatorPrefs,
};
