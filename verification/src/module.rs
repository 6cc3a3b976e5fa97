//! The state of the staking module and its invariant.

use crate::assoc::{all_values, disjoint_keys, lemma_del_all_values, lemma_disjoint_keys, Assoc};
use crate::exposure::{
    copy_vec, EraPoints, EraPointsView, Exposure, ExposureView, SlashJournalEntry,
};
use crate::ledger::{LedgerView, StakingLedgers};
use crate::linked_map::LinkedMap;
use crate::sums::{lemma_sum_bounds_entry, lemma_sum_remove, lemma_sum_update, sum_of};
use crate::traits::Trait;
use crate::types::{
    AccountId, Balance, EraIndex, ExtendedBalance, Forcing, Moment, RewardDestination, SessionIndex,
    ValidatorPrefs, DEFAULT_MINIMUM_VALIDATOR_COUNT, MAX_NOMINATIONS,
};
use vstd::prelude::*;

verus! {

/// What the chain fixes at genesis.
#[derive(Clone, Debug, PartialEq, Eq)]
pub struct GenesisConfig {
    /// The ideal number of validators.
    pub validator_count: u32,
    /// The number of validators under which no election result is taken.
    pub minimum_validator_count: u32,
    /// The validators that are never slashed.
    pub invulnerables: Vec<AccountId>,
    /// The part of the era's total reward that is paid out, in parts per
    /// billion.
    pub session_reward: u32,
    /// The era to start in.
    pub current_era: EraIndex,
    /// The forcing mode to start in.
    pub force_era: Forcing,
    /// The part of a slash that goes to the reporters, in parts per billion.
    pub slash_reward_fraction: u32,
    /// The total reward of the first era.
    pub current_era_total_reward: Balance,
    /// Whether the supports of the winners are equalized after an election.
    pub equalize: bool,
}

impl GenesisConfig {
    /// The two fractions are at most one whole.
    pub open spec fn wf(&self) -> bool {
        &&& self.session_reward <= 1_000_000_000
        &&& self.slash_reward_fraction <= 1_000_000_000
    }
}

impl Default for GenesisConfig {
    fn default() -> (r: Self)
        ensures
            r.wf(),
            r.validator_count == 0,
            r.minimum_validator_count == DEFAULT_MINIMUM_VALIDATOR_COUNT,
            r.invulnerables@ == Seq::<AccountId>::empty(),
            r.session_reward == 600_000_000,
            r.current_era == 0,
            r.force_era == Forcing::NotForcing,
            r.slash_reward_fraction == 0,
            r.current_era_total_reward == 0,
            !r.equalize,
    {
        GenesisConfig {
            validator_count: 0,
            minimum_validator_count: DEFAULT_MINIMUM_VALIDATOR_COUNT,
            invulnerables: Vec::new(),
            session_reward: 600_000_000,
            current_era: 0,
            force_era: Forcing::NotForcing,
            slash_reward_fraction: 0,
            current_era_total_reward: 0,
            equalize: false,
        }
    }
}

/// The staking module: its constants and all that it stores.
#[derive(Clone, Debug, PartialEq, Eq)]
pub struct Module {
    /// Number of sessions per era.
    pub sessions_per_era: SessionIndex,
    /// Number of eras that staked funds must remain bonded for.
    pub bonding_duration: EraIndex,
    /// Number of eras per epoch.
    pub eras_per_epoch: EraIndex,
    /// Whether the supports of the winners are equalized after an election.
    pub equalize: bool,
    /// The ideal number of validators.
    pub validator_count: u32,
    /// The number of validators under which no election result is taken.
    pub minimum_validator_count: u32,
    /// Any validators that may never be slashed or forcibly kicked.
    pub invulnerables: Vec<AccountId>,
    /// The part of the era's total reward that is paid out, in parts per
    /// billion.
    pub session_reward: u32,
    /// Map from all locked stash accounts to the controller account.
    pub bonded: LinkedMap<AccountId>,
    /// Map from all controller accounts to the ledger of their stash.
    pub ledger: LinkedMap<StakingLedgers>,
    /// Where the reward payment of a stash should be made.
    pub payee: LinkedMap<RewardDestination>,
    /// The map from (wannabe) validator stash to the preferences of that
    /// validator.
    pub validators: LinkedMap<ValidatorPrefs>,
    /// The map from nominator stash to the set of stashes that it nominates.
    pub nominators: LinkedMap<Vec<AccountId>>,
    /// Nominators for a particular account that is in action right now.
    pub stakers: LinkedMap<Exposure>,
    /// The currently elected validator set, by stash.
    pub current_elected: Vec<AccountId>,
    /// The current era index.
    pub current_era: EraIndex,
    /// The start of the current era.
    pub current_era_start: Moment,
    /// The session index at which the current era started.
    pub current_era_start_session_index: SessionIndex,
    /// Reward points of the current era, by place in the elected set.
    pub current_era_points_earned: EraPoints,
    /// The least total power behind one of the elected validators.
    pub slot_stake: ExtendedBalance,
    /// Whether and how the next session change makes a new era.
    pub force_era: Forcing,
    /// The part of a slash that goes to the reporters, in parts per billion.
    pub slash_reward_fraction: u32,
    /// The number of epochs that have begun.
    pub epoch_index: u32,
    /// The total reward of the current era.
    pub current_era_total_reward: Balance,
    /// All slashes that have occurred in a given era.
    pub era_slash_journal: LinkedMap<Vec<SlashJournalEntry>>,
    /// The node name that a validator's controller recorded.
    pub node_name: LinkedMap<Vec<u8>>,
    /// The active Ring of all ledgers.
    pub ring_pool: Balance,
    /// The active Kton of all ledgers.
    pub kton_pool: Balance,
}

/// The mathematical value of the module's state.
pub struct ModuleView {
    pub sessions_per_era: SessionIndex,
    pub bonding_duration: EraIndex,
    pub eras_per_epoch: EraIndex,
    pub equalize: bool,
    pub validator_count: u32,
    pub minimum_validator_count: u32,
    pub invulnerables: Seq<AccountId>,
    pub session_reward: u32,
    pub bonded: Assoc<AccountId>,
    pub ledger: Assoc<LedgerView>,
    pub payee: Assoc<RewardDestination>,
    pub validators: Assoc<ValidatorPrefs>,
    pub nominators: Assoc<Seq<AccountId>>,
    pub stakers: Assoc<ExposureView>,
    pub current_elected: Seq<AccountId>,
    pub current_era: EraIndex,
    pub current_era_start: Moment,
    pub current_era_start_session_index: SessionIndex,
    pub current_era_points_earned: EraPointsView,
    pub slot_stake: ExtendedBalance,
    pub force_era: Forcing,
    pub slash_reward_fraction: u32,
    pub epoch_index: u32,
    pub current_era_total_reward: Balance,
    pub era_slash_journal: Assoc<Seq<SlashJournalEntry>>,
    pub node_name: Assoc<Seq<u8>>,
    pub ring_pool: Balance,
    pub kton_pool: Balance,
}

impl View for Module {
    type V = ModuleView;

    open spec fn view(&self) -> ModuleView {
        ModuleView {
            sessions_per_era: self.sessions_per_era,
            bonding_duration: self.bonding_duration,
            eras_per_epoch: self.eras_per_epoch,
            equalize: self.equalize,
            validator_count: self.validator_count,
            minimum_validator_count: self.minimum_validator_count,
            invulnerables: self.invulnerables@,
            session_reward: self.session_reward,
            bonded: self.bonded@,
            ledger: self.ledger@,
            payee: self.payee@,
            validators: self.validators@,
            nominators: self.nominators@,
            stakers: self.stakers@,
            current_elected: self.current_elected@,
            current_era: self.current_era,
            current_era_start: self.current_era_start,
            current_era_start_session_index: self.current_era_start_session_index,
            current_era_points_earned: self.current_era_points_earned@,
            slot_stake: self.slot_stake,
            force_era: self.force_era,
            slash_reward_fraction: self.slash_reward_fraction,
            epoch_index: self.epoch_index,
            current_era_total_reward: self.current_era_total_reward,
            era_slash_journal: self.era_slash_journal@,
            node_name: self.node_name@,
            ring_pool: self.ring_pool,
            kton_pool: self.kton_pool,
        }
    }
}

/// The runtime `T` may give these three numbers as its sessions per era, its
/// bonding duration and its eras per epoch.
pub open spec fn runtime_fixes<T: Trait>(
    sessions_per_era: SessionIndex,
    bonding_duration: EraIndex,
    eras_per_epoch: EraIndex,
) -> bool {
    &&& call_ensures(T::sessions_per_era, (), sessions_per_era)
    &&& call_ensures(T::bonding_duration, (), bonding_duration)
    &&& call_ensures(T::eras_per_epoch, (), eras_per_epoch)
}

/// The forcing mode after a new era is asked for: a mode that forces one
/// already stays, any other becomes `ForceNew`.
pub open spec fn spec_ensure_new_era(mode: Forcing) -> Forcing {
    match mode {
        Forcing::ForceAlways => Forcing::ForceAlways,
        _ => Forcing::ForceNew,
    }
}

/// Whether a ledger keeps the ledger's invariant.
pub open spec fn ledger_wf() -> spec_fn(LedgerView) -> bool {
    |l: LedgerView| l.wf()
}

/// Whether a validator's preferences are in range.
pub open spec fn prefs_wf() -> spec_fn(ValidatorPrefs) -> bool {
    |p: ValidatorPrefs| p.wf()
}

/// Whether a list of targets names one to 16 accounts.
pub open spec fn targets_wf() -> spec_fn(Seq<AccountId>) -> bool {
    |t: Seq<AccountId>| 1 <= t.len() <= MAX_NOMINATIONS
}

/// Whether an exposure's total is its own power plus that of its nominators.
pub open spec fn exposure_wf() -> spec_fn(ExposureView) -> bool {
    |e: ExposureView| e.wf()
}

/// The active Ring of a ledger.
pub open spec fn active_ring_of() -> spec_fn(LedgerView) -> int {
    |l: LedgerView| l.active_ring as int
}

/// The active Kton of a ledger.
pub open spec fn active_kton_of() -> spec_fn(LedgerView) -> int {
    |l: LedgerView| l.active_kton as int
}

impl ModuleView {
    /// The state that genesis makes from its configuration and the
    /// runtime's constants.
    pub open spec fn genesis(
        config: GenesisConfig,
        sessions_per_era: SessionIndex,
        bonding_duration: EraIndex,
        eras_per_epoch: EraIndex,
    ) -> ModuleView {
        ModuleView {
            sessions_per_era,
            bonding_duration,
            eras_per_epoch,
            equalize: config.equalize,
            validator_count: config.validator_count,
            minimum_validator_count: config.minimum_validator_count,
            invulnerables: config.invulnerables@,
            session_reward: config.session_reward,
            bonded: Assoc::empty(),
            ledger: Assoc::empty(),
            payee: Assoc::empty(),
            validators: Assoc::empty(),
            nominators: Assoc::empty(),
            stakers: Assoc::empty(),
            current_elected: Seq::empty(),
            current_era: config.current_era,
            current_era_start: 0,
            current_era_start_session_index: 0,
            current_era_points_earned: EraPointsView::empty(),
            slot_stake: 0,
            force_era: config.force_era,
            slash_reward_fraction: config.slash_reward_fraction,
            epoch_index: 0,
            current_era_total_reward: config.current_era_total_reward,
            era_slash_journal: Assoc::empty(),
            node_name: Assoc::empty(),
            ring_pool: 0,
            kton_pool: 0,
        }
    }

    /// The state in which the module starts with the given constants: that
    /// of genesis, and none where a fraction of the configuration is more
    /// than one whole, or where an era or an epoch has no length.
    pub open spec fn start(
        config: GenesisConfig,
        sessions_per_era: SessionIndex,
        bonding_duration: EraIndex,
        eras_per_epoch: EraIndex,
    ) -> Option<ModuleView> {
        if config.wf() && sessions_per_era > 0 && eras_per_epoch > 0 {
            Some(Self::genesis(config, sessions_per_era, bonding_duration, eras_per_epoch))
        } else {
            None
        }
    }

    /// Every storage map binds each of its keys once.
    pub open spec fn maps_wf(self) -> bool {
        &&& self.bonded.wf()
        &&& self.ledger.wf()
        &&& self.payee.wf()
        &&& self.validators.wf()
        &&& self.nominators.wf()
        &&& self.stakers.wf()
        &&& self.era_slash_journal.wf()
        &&& self.node_name.wf()
    }

    /// Every ledger keeps the ledger's invariant.
    pub open spec fn ledgers_wf(self) -> bool {
        all_values(self.ledger, ledger_wf())
    }

    /// Each pool is the sum of what is active in all ledgers.
    pub open spec fn pools_wf(self) -> bool {
        &&& self.ring_pool == sum_of(self.ledger.vals, active_ring_of())
        &&& self.kton_pool == sum_of(self.ledger.vals, active_kton_of())
    }

    /// Stashes and controllers come in pairs: the ledger of a stash's
    /// controller names the stash, and the stash of each ledger is bonded to
    /// the ledger's controller.
    pub open spec fn paired(self) -> bool {
        &&& forall|i: int|
            0 <= i < self.ledger.keys.len() ==> self.bonded.get(
                (#[trigger] self.ledger.vals[i]).stash,
            ) == Some(self.ledger.keys[i])
        &&& forall|j: int|
            0 <= j < self.bonded.keys.len() ==> self.ledger.contains(#[trigger] self.bonded.vals[j])
                && self.ledger.vals[self.ledger.index(self.bonded.vals[j])].stash
                == self.bonded.keys[j]
    }

    /// No stash validates and nominates at once; every validator's
    /// preferences are in range; every nominator names one to 16 targets.
    pub open spec fn roles_wf(self) -> bool {
        &&& disjoint_keys(self.validators, self.nominators)
        &&& all_values(self.validators, prefs_wf())
        &&& all_values(self.nominators, targets_wf())
    }

    /// The total of every exposure is the validator's own power plus that of
    /// its nominators.
    pub open spec fn stakers_wf(self) -> bool {
        all_values(self.stakers, exposure_wf())
    }

    /// The map of stakers holds the exposure of each elected validator, and
    /// the slot stake is the least total among these exposures.
    pub open spec fn elected_wf(self) -> bool {
        &&& forall|k: int|
            0 <= k < self.current_elected.len() ==> self.stakers.contains(
                #[trigger] self.current_elected[k],
            ) && self.slot_stake <= self.stakers.get(self.current_elected[k]).unwrap().total
        &&& self.current_elected.len() > 0 ==> exists|k: int|
            0 <= k < self.current_elected.len() && self.stakers.get(
                #[trigger] self.current_elected[k],
            ).unwrap().total == self.slot_stake
    }

    /// Eras and epochs have a length, the two fractions are at most one
    /// whole, no more epochs have begun than eras, and the elected set can be
    /// counted in 32 bits.
    pub open spec fn constants_wf(self) -> bool {
        &&& self.sessions_per_era > 0
        &&& self.eras_per_epoch > 0
        &&& self.session_reward <= 1_000_000_000
        &&& self.slash_reward_fraction <= 1_000_000_000
        &&& self.epoch_index <= self.current_era
        &&& self.current_elected.len() <= u32::MAX
    }

    /// The invariant of the module's state.
    pub open spec fn wf(self) -> bool {
        &&& self.constants_wf()
        &&& self.maps_wf()
        &&& self.ledgers_wf()
        &&& self.pools_wf()
        &&& self.paired()
        &&& self.roles_wf()
        &&& self.stakers_wf()
        &&& self.elected_wf()
    }

    /// The controller of a stash.
    pub open spec fn controller_of(self, stash: AccountId) -> Option<AccountId> {
        self.bonded.get(stash)
    }

    /// The ledger of a controller.
    pub open spec fn ledger_of(self, controller: AccountId) -> Option<LedgerView> {
        self.ledger.get(controller)
    }

    /// The ledger of a stash, found through its controller.
    pub open spec fn ledger_of_stash(self, stash: AccountId) -> Option<LedgerView> {
        match self.bonded.get(stash) {
            Some(controller) => self.ledger.get(controller),
            None => None,
        }
    }

    /// The state with `l` as the ledger of a controller that has one already:
    /// the pools move by what the ledger's active balances moved.
    pub open spec fn with_ledger(self, controller: AccountId, l: LedgerView) -> ModuleView {
        let before = self.ledger.get(controller).unwrap();
        ModuleView {
            ledger: self.ledger.put(controller, l),
            ring_pool: (self.ring_pool - before.active_ring + l.active_ring) as Balance,
            kton_pool: (self.kton_pool - before.active_kton + l.active_kton) as Balance,
            ..self
        }
    }

    /// The state without the stash: its pairing, its ledger, its payee and its
    /// roles go, and the pools lose what the ledger had active.
    pub open spec fn kill_stash(self, stash: AccountId) -> ModuleView {
        let cleared = ModuleView {
            bonded: self.bonded.del(stash),
            payee: self.payee.del(stash),
            validators: self.validators.del(stash),
            nominators: self.nominators.del(stash),
            ..self
        };
        match self.ledger_of_stash(stash) {
            Some(l) => ModuleView {
                ledger: self.ledger.del(self.bonded.get(stash).unwrap()),
                ring_pool: (self.ring_pool - l.active_ring) as Balance,
                kton_pool: (self.kton_pool - l.active_kton) as Balance,
                ..cleared
            },
            None => cleared,
        }
    }
}

/// No ledger has a negative active balance, and none has more than its pool.
pub proof fn lemma_pool_bounds(s: ModuleView, i: int)
    requires
        s.pools_wf(),
        0 <= i < s.ledger.vals.len(),
    ensures
        s.ledger.vals[i].active_ring <= s.ring_pool,
        s.ledger.vals[i].active_kton <= s.kton_pool,
{
    assert forall|j: int| 0 <= j < s.ledger.vals.len() implies active_ring_of()(
        #[trigger] s.ledger.vals[j],
    ) >= 0 by {}
    assert forall|j: int| 0 <= j < s.ledger.vals.len() implies active_kton_of()(
        #[trigger] s.ledger.vals[j],
    ) >= 0 by {}
    lemma_sum_bounds_entry(s.ledger.vals, i, active_ring_of());
    lemma_sum_bounds_entry(s.ledger.vals, i, active_kton_of());
}

/// Replacing the ledger of a controller by a well-formed ledger of the same
/// stash keeps the state's invariant.
pub proof fn lemma_with_ledger_wf(s: ModuleView, controller: AccountId, l: LedgerView)
    requires
        s.wf(),
        s.ledger.contains(controller),
        l.wf(),
        l.stash == s.ledger.get(controller).unwrap().stash,
        s.ring_pool - s.ledger.get(controller).unwrap().active_ring + l.active_ring <= u128::MAX,
        s.kton_pool - s.ledger.get(controller).unwrap().active_kton + l.active_kton <= u128::MAX,
    ensures
        s.with_ledger(controller, l).wf(),
        s.with_ledger(controller, l).ledger.get(controller) == Some(l),
        s.with_ledger(controller, l).ledger.keys == s.ledger.keys,
{
    let t = s.with_ledger(controller, l);
    let i = s.ledger.index(controller);
    s.ledger.lemma_put(controller, l);
    lemma_pool_bounds(s, i);
    lemma_sum_update(s.ledger.vals, i, l, active_ring_of());
    lemma_sum_update(s.ledger.vals, i, l, active_kton_of());
    assert forall|k: int| 0 <= k < t.ledger.vals.len() implies (#[trigger] t.ledger.vals[k]).wf() by {
        if k != i {
            assert(t.ledger.vals[k] == s.ledger.vals[k]);
        }
    }
    assert forall|k: int| 0 <= k < t.ledger.keys.len() implies t.bonded.get(
        (#[trigger] t.ledger.vals[k]).stash,
    ) == Some(t.ledger.keys[k]) by {
        assert(s.bonded.get(s.ledger.vals[k].stash) == Some(s.ledger.keys[k]));
    }
    assert forall|j: int| 0 <= j < t.bonded.keys.len() implies t.ledger.contains(
        #[trigger] t.bonded.vals[j],
    ) && t.ledger.vals[t.ledger.index(t.bonded.vals[j])].stash == t.bonded.keys[j] by {
        let c = s.bonded.vals[j];
        assert(s.ledger.contains(c));
        let k = s.ledger.index(c);
        assert(s.ledger.vals[k].stash == s.bonded.keys[j]);
    }
}

/// Removing a stash keeps the state's invariant.
pub proof fn lemma_kill_stash_wf(s: ModuleView, stash: AccountId)
    requires
        s.wf(),
    ensures
        s.kill_stash(stash).wf(),
        !s.kill_stash(stash).bonded.contains(stash),
        s.bonded.contains(stash) ==> s.ledger.contains(s.bonded.get(stash).unwrap())
            && s.ledger_of_stash(stash).is_some() && s.ledger_of_stash(stash).unwrap().active_ring
            <= s.ring_pool && s.ledger_of_stash(stash).unwrap().active_kton <= s.kton_pool,
        !s.bonded.contains(stash) ==> s.ledger_of_stash(stash).is_none(),
{
    let t = s.kill_stash(stash);
    s.bonded.lemma_del(stash);
    s.payee.lemma_del(stash);
    s.validators.lemma_del(stash);
    s.nominators.lemma_del(stash);
    lemma_del_all_values(s.validators, stash, prefs_wf());
    lemma_del_all_values(s.nominators, stash, targets_wf());
    lemma_disjoint_keys(
        s.validators,
        s.nominators,
        s.validators.del(stash),
        s.nominators.del(stash),
    );
    if s.bonded.contains(stash) {
        let j = s.bonded.index(stash);
        let controller = s.bonded.vals[j];
        assert(s.ledger.contains(controller));
        let i = s.ledger.index(controller);
        assert(s.ledger.vals[i].stash == stash);
        s.ledger.lemma_del(controller);
        lemma_pool_bounds(s, i);
        lemma_sum_remove(s.ledger.vals, i, active_ring_of());
        lemma_sum_remove(s.ledger.vals, i, active_kton_of());
        assert forall|k: int| 0 <= k < t.ledger.vals.len() implies (#[trigger] t.ledger.vals[k]).wf()
            && t.bonded.get(t.ledger.vals[k].stash) == Some(t.ledger.keys[k]) by {
            let k0 = if k < i {
                k
            } else {
                k + 1
            };
            assert(t.ledger.vals[k] == s.ledger.vals[k0]);
            assert(t.ledger.keys[k] == s.ledger.keys[k0]);
            assert(s.bonded.get(s.ledger.vals[k0].stash) == Some(s.ledger.keys[k0]));
            if s.ledger.vals[k0].stash == stash {
                assert(s.ledger.keys[k0] == controller);
                assert(s.ledger.keys[i] == controller);
            }
        }
        assert forall|m: int| 0 <= m < t.bonded.keys.len() implies t.ledger.contains(
            #[trigger] t.bonded.vals[m],
        ) && t.ledger.vals[t.ledger.index(t.bonded.vals[m])].stash == t.bonded.keys[m] by {
            let m0 = if m < j {
                m
            } else {
                m + 1
            };
            assert(t.bonded.vals[m] == s.bonded.vals[m0]);
            assert(t.bonded.keys[m] == s.bonded.keys[m0]);
            let c = s.bonded.vals[m0];
            assert(s.ledger.contains(c));
            assert(s.ledger.vals[s.ledger.index(c)].stash == s.bonded.keys[m0]);
            assert(s.bonded.keys[m0] != stash);
            assert(c != controller);
            assert(t.ledger.get(c) == s.ledger.get(c));
        }
    } else {
        assert(s.bonded.get(stash).is_none());
    }
}

impl Module {
    /// The invariant of the module's state.
    pub open spec fn wf(&self) -> bool {
        self@.wf()
    }

    /// Remove all associated data of a stash account from the staking system:
    /// its pairing, its ledger, its payee and its roles. The pools lose what
    /// the ledger had active.
    pub fn kill_stash(&mut self, stash: AccountId)
        requires
            old(self)@.wf(),
        ensures
            final(self)@ == old(self)@.kill_stash(stash),
            final(self)@.wf(),
    {
        proof {
            lemma_kill_stash_wf(self@, stash);
        }
        match self.bonded.remove(stash) {
            Some(controller) => {
                match self.ledger.remove(controller) {
                    Some(l) => {
                        self.ring_pool = self.ring_pool - l.active_ring;
                        self.kton_pool = self.kton_pool - l.active_kton;
                    },
                    None => {},
                }
            },
            None => {},
        }
        let _ = self.payee.remove(stash);
        let _ = self.validators.remove(stash);
        let _ = self.nominators.remove(stash);
    }

    /// Ensures that at the end of the current session there will be a new era.
    pub fn ensure_new_era(&mut self)
        ensures
            final(self)@ == (ModuleView {
                force_era: spec_ensure_new_era(old(self)@.force_era),
                ..old(self)@
            }),
            old(self)@.wf() ==> final(self)@.wf(),
    {
        match self.force_era {
            Forcing::ForceAlways => {},
            Forcing::ForceNew => {},
            _ => {
                self.force_era = Forcing::ForceNew;
            },
        }
    }

    /// The module at genesis, with the constants that the runtime `T` fixes:
    /// the configuration's values and empty storage. There is no module where
    /// a fraction of the configuration is more than one whole, or where the
    /// runtime gives an era or an epoch no length.
    pub fn new<T: Trait>(config: GenesisConfig) -> (r: Option<Self>)
        ensures
            exists|
                sessions_per_era: SessionIndex,
                bonding_duration: EraIndex,
                eras_per_epoch: EraIndex,
            |
                {
                    &&& #[trigger] runtime_fixes::<T>(
                        sessions_per_era,
                        bonding_duration,
                        eras_per_epoch,
                    )
                    &&& match r {
                        Some(m) => ModuleView::start(
                            config,
                            sessions_per_era,
                            bonding_duration,
                            eras_per_epoch,
                        ) == Some(m@),
                        None => ModuleView::start(
                            config,
                            sessions_per_era,
                            bonding_duration,
                            eras_per_epoch,
                        ).is_none(),
                    }
                },
            !config.wf() ==> r.is_none(),
            r.is_some() ==> r.unwrap()@.wf(),
    {
        let sessions_per_era: SessionIndex = T::sessions_per_era();
        let bonding_duration: EraIndex = T::bonding_duration();
        let eras_per_epoch: EraIndex = T::eras_per_epoch();
        proof {
            assert(runtime_fixes::<T>(sessions_per_era, bonding_duration, eras_per_epoch));
        }
        Self::with_constants(config, sessions_per_era, bonding_duration, eras_per_epoch)
    }

    /// The module at genesis with the given constants: the configuration's
    /// values and empty storage. There is no module where a fraction of the
    /// configuration is more than one whole, or where an era or an epoch has
    /// no length.
    pub fn with_constants(
        config: GenesisConfig,
        sessions_per_era: SessionIndex,
        bonding_duration: EraIndex,
        eras_per_epoch: EraIndex,
    ) -> (r: Option<Self>)
        ensures
            r.is_some() == (config.wf() && sessions_per_era > 0 && eras_per_epoch > 0),
            r.is_some() ==> r.unwrap()@ == ModuleView::genesis(
                config,
                sessions_per_era,
                bonding_duration,
                eras_per_epoch,
            ) && r.unwrap()@.wf(),
    {
        if sessions_per_era == 0 || eras_per_epoch == 0 || config.session_reward > 1_000_000_000
            || config.slash_reward_fraction > 1_000_000_000 {
            return None;
        }
        let r = Module {
            sessions_per_era,
            bonding_duration,
            eras_per_epoch,
            equalize: config.equalize,
            validator_count: config.validator_count,
            minimum_validator_count: config.minimum_validator_count,
            invulnerables: config.invulnerables,
            session_reward: config.session_reward,
            bonded: LinkedMap::new(),
            ledger: LinkedMap::new(),
            payee: LinkedMap::new(),
            validators: LinkedMap::new(),
            nominators: LinkedMap::new(),
            stakers: LinkedMap::new(),
            current_elected: Vec::new(),
            current_era: config.current_era,
            current_era_start: 0,
            current_era_start_session_index: 0,
            current_era_points_earned: EraPoints::new(),
            slot_stake: 0,
            force_era: config.force_era,
            slash_reward_fraction: config.slash_reward_fraction,
            epoch_index: 0,
            current_era_total_reward: config.current_era_total_reward,
            era_slash_journal: LinkedMap::new(),
            node_name: LinkedMap::new(),
            ring_pool: 0,
            kton_pool: 0,
        };
        proof {
            assert(r@.current_elected =~= Seq::<AccountId>::empty());
        }
        Some(r)
    }

    /// A copy of the ledger of `controller`.
    pub fn ledger(&self, controller: AccountId) -> (r: Option<StakingLedgers>)
        requires
            self@.wf(),
        ensures
            match r {
                Some(l) => self@.ledger_of(controller) == Some(l@) && l@.wf(),
                None => self@.ledger_of(controller).is_none(),
            },
    {
        match self.ledger.get(controller) {
            Some(l) => {
                proof {
                    let i = self@.ledger.index(controller);
                    assert(self@.ledger.vals[i].wf());
                }
                Some(l.copy())
            },
            None => None,
        }
    }

    /// The controller of `stash`.
    pub fn bonded(&self, stash: AccountId) -> (r: Option<AccountId>)
        requires
            self@.wf(),
        ensures
            r == self@.controller_of(stash),
    {
        match self.bonded.get(stash) {
            Some(c) => Some(*c),
            None => None,
        }
    }

    /// Puts `ledger` in the place of the ledger of `controller` and moves the
    /// pools by what the active balances moved.
    pub fn store_ledger(&mut self, controller: AccountId, ledger: StakingLedgers)
        requires
            old(self)@.wf(),
            old(self)@.ledger.contains(controller),
            ledger@.wf(),
            ledger@.stash == old(self)@.ledger_of(controller).unwrap().stash,
            old(self)@.ring_pool - old(self)@.ledger_of(controller).unwrap().active_ring
                + ledger@.active_ring <= u128::MAX,
            old(self)@.kton_pool - old(self)@.ledger_of(controller).unwrap().active_kton
                + ledger@.active_kton <= u128::MAX,
        ensures
            final(self)@ == old(self)@.with_ledger(controller, ledger@),
            final(self)@.wf(),
    {
        proof {
            lemma_with_ledger_wf(self@, controller, ledger@);
            lemma_pool_bounds(self@, self@.ledger.index(controller));
        }
        let (ring_before, kton_before) = match self.ledger.get(controller) {
            Some(l) => (l.active_ring, l.active_kton),
            None => (0, 0),
        };
        self.ring_pool = self.ring_pool - ring_before + ledger.active_ring;
        self.kton_pool = self.kton_pool - kton_before + ledger.active_kton;
        self.ledger.insert(controller, ledger);
    }
}

impl StakingLedgers {
    /// A copy of the ledger.
    pub fn copy(&self) -> (r: Self)
        ensures
            r@ == self@,
    {
        StakingLedgers {
            stash: self.stash,
            total_ring: self.total_ring,
            active_ring: self.active_ring,
            active_deposit_ring: self.active_deposit_ring,
            total_kton: self.total_kton,
            active_kton: self.active_kton,
            deposit_items: copy_vec(&self.deposit_items),
            unlocking: copy_vec(&self.unlocking),
        }
    }
}

} // verus!
