//! Stakers named at genesis, the module's storage getters, and the typed
//! conversions that the session module asks for.

use crate::exposure::{copy_vec, EraPoints, Exposure, SlashJournalEntry};
use crate::module::{Module, ModuleView};
use crate::slashing::append_actions;
use crate::types::{
    AccountId, Action, Balance, EraIndex, Moment, Origin, RewardDestination, StakerStatus,
    StakingBalance, ValidatorPrefs,
};
use crate::staking::promise_fits;
use vstd::prelude::*;

verus! {

/// The months of promise of a stake bonded at genesis.
pub const GENESIS_PROMISE_MONTHS: u32 = 12;

/// The unstake threshold of a validator named at genesis.
pub const GENESIS_UNSTAKE_THRESHOLD: u32 = 3;

/// The node name of a validator named at genesis: eight zero bytes.
pub open spec fn genesis_node_name() -> Seq<u8> {
    Seq::new(8, |i: int| 0u8)
}

impl ModuleView {
    /// The state after genesis bonds the Ring of a staker for twelve months.
    /// A stash or controller that is taken already changes nothing.
    pub open spec fn genesis_bond(
        self,
        stash: AccountId,
        controller: AccountId,
        balance: Balance,
        now: Moment,
        free: Balance,
    ) -> ModuleView {
        if self.bond_error(Origin::Signed(stash), controller, GENESIS_PROMISE_MONTHS).is_none() {
            self.bond(
                stash,
                controller,
                StakingBalance::Ring(balance),
                RewardDestination::Stash,
                GENESIS_PROMISE_MONTHS,
                now,
                free,
            )
        } else {
            self
        }
    }

    /// The state after genesis gives the staker of `controller` its role. A
    /// role that the call refuses changes nothing.
    pub open spec fn genesis_role(self, controller: AccountId, status: StakerStatus) -> ModuleView {
        match status {
            StakerStatus::Idle => self,
            StakerStatus::Validator => if self.validate_error(
                Origin::Signed(controller),
                GENESIS_UNSTAKE_THRESHOLD,
            ).is_none() {
                self.validate(controller, genesis_node_name(), 0, GENESIS_UNSTAKE_THRESHOLD)
            } else {
                self
            },
            StakerStatus::Nominator(targets) => if self.nominate_error(
                Origin::Signed(controller),
                targets@,
            ).is_none() {
                self.nominate(controller, targets@)
            } else {
                self
            },
        }
    }

    /// What taking in a staker at genesis asks of the runtime: what bonding
    /// asks, then what validating asks; nothing for a step that is refused.
    pub open spec fn genesis_actions(
        self,
        stash: AccountId,
        controller: AccountId,
        balance: Balance,
        status: StakerStatus,
        now: Moment,
        free: Balance,
    ) -> Seq<Action> {
        let bonded = self.genesis_bond(stash, controller, balance, now, free);
        let for_bond = if self.bond_error(
            Origin::Signed(stash),
            controller,
            GENESIS_PROMISE_MONTHS,
        ).is_none() {
            ModuleView::bond_actions(
                stash,
                StakingBalance::Ring(balance),
                GENESIS_PROMISE_MONTHS,
                now,
                free,
            )
        } else {
            Seq::empty()
        };
        let for_role = if status is Validator && bonded.validate_error(
            Origin::Signed(controller),
            GENESIS_UNSTAKE_THRESHOLD,
        ).is_none() {
            bonded.validate_actions(controller)
        } else {
            Seq::empty()
        };
        for_bond + for_role
    }

    /// The payee of a stash: the stash itself where none is named.
    pub open spec fn payee_of(self, stash: AccountId) -> RewardDestination {
        match self.payee.get(stash) {
            Some(p) => p,
            None => RewardDestination::Stash,
        }
    }

    /// The targets of a nominator: none for a stash that nominates not.
    pub open spec fn targets_of(self, stash: AccountId) -> Seq<AccountId> {
        match self.nominators.get(stash) {
            Some(t) => t,
            None => Seq::empty(),
        }
    }

    /// The node name of a controller: empty where none is recorded.
    pub open spec fn name_of(self, controller: AccountId) -> Seq<u8> {
        match self.node_name.get(controller) {
            Some(n) => n,
            None => Seq::empty(),
        }
    }
}

impl Module {
    /// Takes in a staker that genesis names: bonds `balance` of its Ring for
    /// twelve months with the stash as payee, then gives it its role. A step
    /// that the call refuses is left out. Returns what the runtime has to do.
    pub fn genesis_staker(
        &mut self,
        stash: AccountId,
        controller: AccountId,
        balance: Balance,
        status: StakerStatus,
        now: Moment,
        free_balance: Balance,
    ) -> (actions: Vec<Action>)
        requires
            old(self)@.wf(),
            free_balance >= balance,
            old(self)@.ring_pool + balance <= u128::MAX,
            promise_fits(GENESIS_PROMISE_MONTHS, now),
        ensures
            final(self)@ == old(self)@.genesis_bond(
                stash,
                controller,
                balance,
                now,
                free_balance,
            ).genesis_role(controller, status),
            final(self)@.wf(),
            actions@ == old(self)@.genesis_actions(
                stash,
                controller,
                balance,
                status,
                now,
                free_balance,
            ),
    {
        let mut actions: Vec<Action> = Vec::new();
        match self.bond(
            Origin::Signed(stash),
            controller,
            StakingBalance::Ring(balance),
            RewardDestination::Stash,
            GENESIS_PROMISE_MONTHS,
            now,
            free_balance,
        ) {
            Ok(more) => {
                actions = more;
            },
            Err(_) => {},
        }
        match status {
            StakerStatus::Idle => {},
            StakerStatus::Validator => {
                let mut name: Vec<u8> = Vec::new();
                let mut i: usize = 0;
                while i < 8
                    invariant
                        0 <= i <= 8,
                        name@ == Seq::new(i as nat, |k: int| 0u8),
                    decreases 8 - i,
                {
                    name.push(0);
                    proof {
                        assert(name@ =~= Seq::new((i + 1) as nat, |k: int| 0u8));
                    }
                    i += 1;
                }
                match self.validate(Origin::Signed(controller), name, 0, GENESIS_UNSTAKE_THRESHOLD) {
                    Ok(more) => {
                        append_actions(&mut actions, &more);
                    },
                    Err(_) => {},
                }
            },
            StakerStatus::Nominator(targets) => {
                let _ = self.nominate(Origin::Signed(controller), targets);
            },
        }
        proof {
            assert(actions@ =~= old(self)@.genesis_actions(
                stash,
                controller,
                balance,
                status,
                now,
                free_balance,
            ));
        }
        actions
    }

    /// Where the reward payment of `stash` should be made.
    pub fn payee(&self, stash: AccountId) -> (r: RewardDestination)
        requires
            self@.wf(),
        ensures
            r == self@.payee_of(stash),
    {
        match self.payee.get(stash) {
            Some(p) => *p,
            None => RewardDestination::Stash,
        }
    }

    /// The preferences of the validator `stash`.
    pub fn validators(&self, stash: AccountId) -> (r: ValidatorPrefs)
        requires
            self@.wf(),
        ensures
            r == self@.prefs_of(stash),
    {
        match self.validators.get(stash) {
            Some(p) => *p,
            None => ValidatorPrefs { unstake_threshold: 3, validator_payment_ratio: 0 },
        }
    }

    /// The stashes that `stash` nominates.
    pub fn nominators(&self, stash: AccountId) -> (r: Vec<AccountId>)
        requires
            self@.wf(),
        ensures
            r@ == self@.targets_of(stash),
    {
        match self.nominators.get(stash) {
            Some(t) => copy_vec(t),
            None => Vec::new(),
        }
    }

    /// The exposure of the validator `stash` in the current era.
    pub fn stakers(&self, stash: AccountId) -> (r: Exposure)
        requires
            self@.wf(),
        ensures
            r@ == self@.exposure_of_staker(stash),
    {
        match self.stakers.get(stash) {
            Some(e) => e.copy(),
            None => Exposure::default(),
        }
    }

    /// The slashes recorded for `era`.
    pub fn era_slash_journal(&self, era: EraIndex) -> (r: Vec<SlashJournalEntry>)
        requires
            self@.wf(),
        ensures
            r@ == self@.journal_of(era),
    {
        match self.era_slash_journal.get(era as u64) {
            Some(j) => copy_vec(j),
            None => Vec::new(),
        }
    }

    /// The node name that `controller` recorded.
    pub fn node_name(&self, controller: AccountId) -> (r: Vec<u8>)
        requires
            self@.wf(),
        ensures
            r@ == self@.name_of(controller),
    {
        match self.node_name.get(controller) {
            Some(n) => copy_vec(n),
            None => Vec::new(),
        }
    }

    /// The reward points of the current era.
    pub fn current_era_reward(&self) -> (r: EraPoints)
        ensures
            r@ == self@.current_era_points_earned,
    {
        EraPoints {
            total: self.current_era_points_earned.total,
            individual: copy_vec(&self.current_era_points_earned.individual),
        }
    }
}

/// A typed conversion from controller account to its stash.
#[derive(Clone, Copy, Debug, PartialEq, Eq)]
pub struct StashOf;

impl StashOf {
    /// The stash of `controller`, if it has a ledger.
    pub fn convert(module: &Module, controller: AccountId) -> (r: Option<AccountId>)
        requires
            module@.wf(),
        ensures
            r == match module@.ledger_of(controller) {
                Some(l) => Some(l.stash),
                None => None,
            },
    {
        match module.ledger.get(controller) {
            Some(l) => Some(l.stash),
            None => None,
        }
    }
}

/// A typed conversion from stash account to the current exposure of
/// nominators on that account.
#[derive(Clone, Copy, Debug, PartialEq, Eq)]
pub struct ExposureOf;

impl ExposureOf {
    /// The exposure of `validator`: empty where it has none.
    pub fn convert(module: &Module, validator: AccountId) -> (r: Option<Exposure>)
        requires
            module@.wf(),
        ensures
            r.is_some(),
            r.unwrap()@ == module@.exposure_of_staker(validator),
    {
        Some(module.stakers(validator))
    }
}

} // verus!
