//! The plain values of the staking module: accounts, balances, preferences,
//! the calls' origins and errors, and what a call asks the runtime to do.

use vstd::prelude::*;

verus! {

/// An account of the chain.
pub type AccountId = u64;

/// An amount of Ring or of Kton.
pub type Balance = u128;

/// A point in time, in seconds.
pub type Moment = u64;

/// Counter for the number of eras that have passed.
pub type EraIndex = u32;

/// Counter for the number of sessions that have passed.
pub type SessionIndex = u32;

/// A weight in the election: power, or a sum of powers.
pub type ExtendedBalance = u128;

/// The minimum number of validators where genesis names none.
pub const DEFAULT_MINIMUM_VALIDATOR_COUNT: u32 = 4;

/// The most targets that one nominator can name.
pub const MAX_NOMINATIONS: usize = 16;

/// The largest unstake threshold that a validator can ask for.
pub const MAX_UNSTAKE_THRESHOLD: u32 = 10;

/// The most unlocking chunks that one ledger can hold.
pub const MAX_UNLOCKING_CHUNKS: usize = 32;

/// The length of one month of promise, in seconds.
pub const MONTH_IN_SECONDS: u64 = 2_592_000;

/// The longest promise, in months.
pub const MAX_PROMISE_MONTHS: u32 = 36;

/// The shortest promise that makes a deposit, in months.
pub const MIN_DEPOSIT_MONTHS: u32 = 3;

/// What a staker does, as genesis names it.
#[derive(Clone, Debug, PartialEq, Eq)]
pub enum StakerStatus {
    /// Chilling.
    Idle,
    /// Declared desire in validating or already participating in it.
    Validator,
    /// Nominating for a group of other stakers.
    Nominator(Vec<AccountId>),
}

/// What a validator asks for.
#[derive(Clone, Copy, Debug, PartialEq, Eq)]
pub struct ValidatorPrefs {
    /// Validator should ensure this many more slashes than is necessary before
    /// being unstaked.
    pub unstake_threshold: u32,
    /// The part of a reward that the validator takes up-front, in parts per
    /// billion; only the rest is split between the validator and its nominators.
    pub validator_payment_ratio: u32,
}

impl ValidatorPrefs {
    /// The threshold is at most ten and the ratio at most one whole.
    pub open spec fn wf(self) -> bool {
        &&& self.unstake_threshold <= MAX_UNSTAKE_THRESHOLD
        &&& self.validator_payment_ratio <= 1_000_000_000
    }
}

impl View for ValidatorPrefs {
    type V = ValidatorPrefs;

    open spec fn view(&self) -> ValidatorPrefs {
        *self
    }
}

impl Default for ValidatorPrefs {
    fn default() -> (r: Self)
        ensures
            r == (ValidatorPrefs { unstake_threshold: 3, validator_payment_ratio: 0 }),
            r.wf(),
    {
        ValidatorPrefs { unstake_threshold: 3, validator_payment_ratio: 0 }
    }
}

/// An amount of one of the two currencies.
#[derive(Clone, Copy, Debug, PartialEq, Eq)]
pub enum StakingBalance {
    Ring(Balance),
    Kton(Balance),
}

impl Default for StakingBalance {
    fn default() -> (r: Self)
        ensures
            r == StakingBalance::Ring(0),
    {
        StakingBalance::Ring(0)
    }
}

/// A destination account for payment.
#[derive(Clone, Copy, Debug, PartialEq, Eq)]
pub enum RewardDestination {
    /// Pay into the stash account, not increasing the amount at stake.
    Stash,
    /// Pay into the controller account.
    Controller,
}

impl View for RewardDestination {
    type V = RewardDestination;

    open spec fn view(&self) -> RewardDestination {
        *self
    }
}

impl Default for RewardDestination {
    fn default() -> (r: Self)
        ensures
            r == RewardDestination::Stash,
    {
        RewardDestination::Stash
    }
}

/// Mode of era-forcing.
#[derive(Clone, Copy, Debug, PartialEq, Eq)]
pub enum Forcing {
    /// Not forcing anything - just let whatever happen.
    NotForcing,
    /// Force a new era, then reset to `NotForcing` as soon as it is done.
    ForceNew,
    /// Avoid a new era indefinitely.
    ForceNone,
    /// Force a new era at the end of all sessions indefinitely.
    ForceAlways,
}

impl Default for Forcing {
    fn default() -> (r: Self)
        ensures
            r == Forcing::NotForcing,
    {
        Forcing::NotForcing
    }
}

/// Who makes a call.
#[derive(Clone, Copy, Debug, PartialEq, Eq)]
pub enum Origin {
    /// An account signed the call.
    Signed(AccountId),
    /// The chain's own authority makes the call.
    Root,
}

/// Why a call was refused. A refused call changes nothing.
#[derive(Clone, Copy, Debug, PartialEq, Eq)]
pub enum Error {
    /// The call needs another origin.
    BadOrigin,
    /// The promise is longer than 36 months.
    MonthsTooLong,
    /// The stash is bonded already.
    AlreadyBonded,
    /// The controller is paired with a stash already.
    AlreadyPaired,
    /// The caller is no stash.
    NotStash,
    /// The caller is no controller.
    NotController,
    /// The ledger holds 32 unlocking chunks already.
    NoMoreChunks,
    /// The unstake threshold is above ten.
    UnstakeThresholdTooLarge,
    /// A nominator names no target.
    EmptyTargets,
    /// The deposit has expired: it needs no punished claim.
    DepositExpired,
}

/// What happened, for the chain's event log.
#[derive(Clone, Copy, Debug, PartialEq, Eq)]
pub enum Event {
    /// All validators have been rewarded by the given balance.
    Reward(Balance),
    /// One validator (and its nominators) has been given an offline-warning.
    OfflineWarning(AccountId, u32),
    /// One validator (and its nominators) has been slashed by the given ratio.
    OfflineSlash(AccountId, u32),
    /// A validator recorded its node name.
    NodeNameUpdated,
    /// An offence from before the current era was dropped.
    OldSlashingReportDiscarded(SessionIndex),
}

/// What the runtime has to do after a call: the work on the two currencies and
/// on the event log that the module decides and does not do itself.
#[derive(Clone, Copy, Debug, PartialEq, Eq)]
pub enum Action {
    /// Lock this much Ring of the stash, for ever and against every withdrawal.
    SetRingLock { who: AccountId, amount: Balance },
    /// Lock this much Kton of the stash, for ever and against every withdrawal.
    SetKtonLock { who: AccountId, amount: Balance },
    /// Take the staking lock off the stash's Ring.
    RemoveRingLock { who: AccountId },
    /// Take the staking lock off the stash's Kton.
    RemoveKtonLock { who: AccountId },
    /// Mint Kton into the account.
    MintKton { who: AccountId, amount: Balance },
    /// Take Ring from the account, for the slash handler.
    SlashRing { who: AccountId, amount: Balance },
    /// Take Kton from the account, for the slash handler.
    SlashKton { who: AccountId, amount: Balance },
    /// Pay Ring into the account if it exists; a payment that fails is dropped.
    PayRing { who: AccountId, amount: Balance },
    /// Hand what was slashed since the last settlement to the reporters of
    /// this offender, each its reward, and the rest to the treasury.
    SettleSlash { offender: AccountId },
    /// Put the event on the log.
    Deposit { event: Event },
}

/// The signer of a call.
pub open spec fn spec_ensure_signed(origin: Origin) -> Result<AccountId, Error> {
    match origin {
        Origin::Signed(who) => Ok(who),
        Origin::Root => Err(Error::BadOrigin),
    }
}

/// The account that signed a call.
pub open spec fn signer(origin: Origin) -> AccountId {
    match origin {
        Origin::Signed(who) => who,
        Origin::Root => 0,
    }
}

/// Why a call that must be signed is refused for its origin, if it is.
pub open spec fn origin_error(origin: Origin) -> Option<Error> {
    match origin {
        Origin::Signed(_) => None,
        Origin::Root => Some(Error::BadOrigin),
    }
}

/// The account that signed the call, or `BadOrigin`.
pub fn ensure_signed(origin: Origin) -> (r: Result<AccountId, Error>)
    ensures
        r == spec_ensure_signed(origin),
{
    match origin {
        Origin::Signed(who) => Ok(who),
        Origin::Root => Err(Error::BadOrigin),
    }
}

/// Whether the chain's own authority makes the call.
pub open spec fn spec_ensure_root(origin: Origin) -> Result<(), Error> {
    match origin {
        Origin::Root => Ok(()),
        Origin::Signed(_) => Err(Error::BadOrigin),
    }
}

/// `Ok` for the root origin, `BadOrigin` for any other.
pub fn ensure_root(origin: Origin) -> (r: Result<(), Error>)
    ensures
        r == spec_ensure_root(origin),
{
    match origin {
        Origin::Root => Ok(()),
        Origin::Signed(_) => Err(Error::BadOrigin),
    }
}

} // verus!
