//! The era and session controller: when an era ends, what it pays, and how
//! the next one begins.

use crate::exposure::{EraPointsView, Exposure, ExposureView, IndividualExposure};
use crate::module::{Module, ModuleView};
use crate::per_things::{
    lemma_ratio_bounded, perbill_from_rational, perbill_mul, spec_ratio, BILLION,
};
use crate::slashing::{append_actions, lemma_part, spec_part};
use crate::traits::SessionInterface;
use crate::types::{
    AccountId, Action, Balance, Event, ExtendedBalance, Forcing, RewardDestination, SessionIndex,
    ValidatorPrefs,
};
use vstd::prelude::*;

verus! {

/// The points for the author of a block.
pub const AUTHOR_POINTS: u32 = 20;

/// The points for the author of a block that refers to a new uncle.
pub const UNCLE_REFERENCE_POINTS: u32 = 2;

/// The points for the author of an uncle.
pub const UNCLE_AUTHOR_POINTS: u32 = 1;

/// The first place at which `who` stands among the accounts, or -1.
pub open spec fn position_of(accounts: Seq<AccountId>, who: AccountId) -> int
    decreases accounts.len(),
{
    if accounts.len() == 0 {
        -1
    } else {
        let before = position_of(accounts.drop_last(), who);
        if before >= 0 {
            before
        } else if accounts.last() == who {
            accounts.len() - 1
        } else {
            -1
        }
    }
}

/// The first place of `who` is where it stands with no earlier place holding
/// it.
pub proof fn lemma_position_of(accounts: Seq<AccountId>, who: AccountId, i: int)
    requires
        0 <= i <= accounts.len(),
        forall|k: int| 0 <= k < i ==> accounts[k] != who,
        i < accounts.len() ==> accounts[i] == who,
    ensures
        position_of(accounts, who) == if i < accounts.len() {
            i
        } else {
            -1
        },
    decreases accounts.len(),
{
    if accounts.len() > 0 {
        let front = accounts.drop_last();
        if i < front.len() {
            lemma_position_of(front, who, i);
        } else {
            lemma_position_of(front, who, front.len() as int);
        }
    }
}

/// The place of `who` among the accounts.
pub fn find_account(accounts: &Vec<AccountId>, who: AccountId) -> (r: Option<usize>)
    ensures
        match r {
            Some(i) => position_of(accounts@, who) == i && i < accounts@.len(),
            None => position_of(accounts@, who) == -1,
        },
{
    let n: usize = accounts.len();
    let mut i: usize = 0;
    while i < n
        invariant
            n == accounts@.len(),
            0 <= i <= n,
            forall|k: int| 0 <= k < i ==> accounts@[k] != who,
        decreases n - i,
    {
        if accounts[i] == who {
            proof {
                lemma_position_of(accounts@, who, i as int);
            }
            return Some(i);
        }
        i += 1;
    }
    proof {
        lemma_position_of(accounts@, who, n as int);
    }
    None
}

/// The part `value / total` of a reward, with the fraction in parts per
/// billion rounded down.
pub open spec fn spec_cut(
    value: ExtendedBalance,
    total: ExtendedBalance,
    reward: Balance,
) -> Balance {
    spec_part(spec_ratio(value as int, total as int, BILLION as int) as u32, reward)
}

/// A cut of a reward is at most the reward.
pub proof fn lemma_cut(value: ExtendedBalance, total: ExtendedBalance, reward: Balance)
    ensures
        spec_ratio(value as int, total as int, BILLION as int) <= BILLION,
        0 <= spec_ratio(value as int, total as int, BILLION as int),
        spec_cut(value, total, reward) <= reward,
{
    lemma_ratio_bounded(value as int, total as int, BILLION as int);
    lemma_part(spec_ratio(value as int, total as int, BILLION as int) as u32, reward);
}

/// The points after the first `upto` of the pairs of validator and points
/// are counted: points for a validator that is not elected are dropped.
pub open spec fn points_after(
    elected: Seq<AccountId>,
    points: EraPointsView,
    validators_points: Seq<(AccountId, u32)>,
    upto: int,
) -> EraPointsView
    decreases upto,
{
    if upto <= 0 {
        points
    } else {
        let before = points_after(elected, points, validators_points, upto - 1);
        let place = position_of(elected, validators_points[upto - 1].0);
        if place >= 0 {
            before.add_points_to_index(place as u32, validators_points[upto - 1].1)
        } else {
            before
        }
    }
}

impl ModuleView {
    /// Whether the session with index `session_index` begins a new era: a
    /// forced era always, an era that is not forced where the index is a
    /// multiple of the sessions per era, and none where eras are held back.
    pub open spec fn starts_new_era(self, session_index: SessionIndex) -> bool {
        match self.force_era {
            Forcing::ForceNew => true,
            Forcing::ForceAlways => true,
            Forcing::NotForcing => session_index % self.sessions_per_era == 0,
            Forcing::ForceNone => false,
        }
    }

    /// The account that is paid for `stash`: the stash or its controller. A
    /// stash that is to be paid at its controller and has none is not paid.
    pub open spec fn payee_account(self, stash: AccountId) -> Option<AccountId> {
        match self.payee.get(stash) {
            Some(RewardDestination::Controller) => self.bonded.get(stash),
            _ => Some(stash),
        }
    }

    /// The payment of `amount` for `stash`.
    pub open spec fn payout(self, stash: AccountId, amount: Balance) -> Seq<Action> {
        match self.payee_account(stash) {
            Some(who) => seq![Action::PayRing { who, amount }],
            None => Seq::empty(),
        }
    }

    /// The preferences of a validator; those of a stash that validates not
    /// are the default ones.
    pub open spec fn prefs_of(self, stash: AccountId) -> ValidatorPrefs {
        match self.validators.get(stash) {
            Some(p) => p,
            None => ValidatorPrefs { unstake_threshold: 3, validator_payment_ratio: 0 },
        }
    }

    /// The exposure of a validator; that of a stash without one is empty.
    pub open spec fn exposure_of_staker(self, stash: AccountId) -> ExposureView {
        match self.stakers.get(stash) {
            Some(e) => e,
            None => ExposureView::empty(),
        }
    }

    /// The payments to the first `upto` nominators of a validator with total
    /// exposure `total`, from `reward`.
    pub open spec fn nominator_payouts(
        self,
        others: Seq<IndividualExposure>,
        total: ExtendedBalance,
        reward: Balance,
        upto: int,
    ) -> Seq<Action>
        decreases upto,
    {
        if upto <= 0 {
            Seq::empty()
        } else {
            self.nominator_payouts(others, total, reward, upto - 1) + self.payout(
                others[upto - 1].who,
                spec_cut(others[upto - 1].value, total, reward),
            )
        }
    }

    /// What the validator takes of `reward` up-front.
    pub open spec fn off_the_table(self, stash: AccountId, reward: Balance) -> Balance {
        spec_part(self.prefs_of(stash).validator_payment_ratio, reward)
    }

    /// The payments of `reward` to a validator and its nominators: the
    /// validator takes its part up-front; the rest goes to each nominator and
    /// to the validator by their part of the validator's total exposure.
    pub open spec fn reward_validator(self, stash: AccountId, reward: Balance) -> Seq<Action> {
        let off = self.off_the_table(stash, reward);
        let rest = (reward - off) as Balance;
        if rest == 0 {
            self.payout(stash, off)
        } else {
            let e = self.exposure_of_staker(stash);
            let total = if e.total == 0 {
                1
            } else {
                e.total
            };
            self.nominator_payouts(e.others, total, rest, e.others.len() as int) + self.payout(
                stash,
                (spec_cut(e.own, total, rest) + off) as Balance,
            )
        }
    }

    /// The reward of the era that ends: the part `session_reward` of the
    /// era's total reward.
    pub open spec fn era_reward(self) -> Balance {
        spec_part(self.session_reward, self.current_era_total_reward)
    }

    /// The reward of each elected validator: an even part of the era's
    /// reward.
    pub open spec fn reward_per_validator(self) -> Balance {
        if self.current_elected.len() == 0 {
            self.era_reward()
        } else {
            (self.era_reward() as int / self.current_elected.len() as int) as Balance
        }
    }

    /// The payments to the first `upto` elected validators and their
    /// nominators.
    pub open spec fn era_payouts(self, upto: int) -> Seq<Action>
        decreases upto,
    {
        if upto <= 0 {
            Seq::empty()
        } else {
            self.era_payouts(upto - 1) + self.reward_validator(
                self.current_elected[upto - 1],
                self.reward_per_validator(),
            )
        }
    }

    /// What the end of an era asks of the runtime: the payments and the
    /// reward event; nothing where the era's reward is zero.
    pub open spec fn era_actions(self) -> Seq<Action> {
        if self.era_reward() == 0 {
            Seq::empty()
        } else {
            self.era_payouts(self.current_elected.len() as int).push(
                Action::Deposit { event: Event::Reward(self.reward_per_validator()) },
            )
        }
    }

    /// The state after a new epoch begins: the epoch is counted, and the era's
    /// total reward is `next_era_reward`, what the reward schedule gives.
    pub open spec fn new_epoch(self, next_era_reward: Balance) -> ModuleView {
        ModuleView {
            epoch_index: (self.epoch_index + 1) as u32,
            current_era_total_reward: next_era_reward,
            ..self
        }
    }

    /// The state in which the next era begins, before its validators are
    /// chosen: the era is counted, and where the new count is a multiple of
    /// the eras per epoch a new epoch begins.
    pub open spec fn next_era(self, next_era_reward: Balance) -> ModuleView {
        let counted = ModuleView { current_era: (self.current_era + 1) as u32, ..self };
        if counted.current_era % self.eras_per_epoch == 0 {
            counted.new_epoch(next_era_reward)
        } else {
            counted
        }
    }

    /// The state after a new era begins.
    pub open spec fn new_era(self, next_era_reward: Balance) -> ModuleView {
        self.next_era(next_era_reward).select_validators()
    }

    /// The validators of the new era, where its election has a result.
    pub open spec fn new_era_validators(self, next_era_reward: Balance) -> Option<Seq<AccountId>> {
        self.next_era(next_era_reward).elected()
    }

    /// The state after the session with index `session_index` is decided:
    /// a new era begins where the index or the forcing mode says so, and a
    /// forcing of one era is used up.
    pub open spec fn new_session(
        self,
        session_index: SessionIndex,
        next_era_reward: Balance,
    ) -> ModuleView {
        if self.starts_new_era(session_index) {
            self.use_forcing().new_era(next_era_reward)
        } else {
            self
        }
    }

    /// The state after a forcing of one era is used up.
    pub open spec fn use_forcing(self) -> ModuleView {
        ModuleView {
            force_era: match self.force_era {
                Forcing::ForceNew => Forcing::NotForcing,
                other => other,
            },
            ..self
        }
    }

    /// The validators that the session module is to take, if any.
    pub open spec fn new_session_validators(
        self,
        session_index: SessionIndex,
        next_era_reward: Balance,
    ) -> Option<Seq<AccountId>> {
        if self.starts_new_era(session_index) {
            self.use_forcing().new_era_validators(next_era_reward)
        } else {
            None
        }
    }

    /// What the session asks of the runtime.
    pub open spec fn new_session_actions(self, session_index: SessionIndex) -> Seq<Action> {
        if self.starts_new_era(session_index) {
            self.era_actions()
        } else {
            Seq::empty()
        }
    }

    /// The state after reward points are counted.
    pub open spec fn reward_by_ids(self, validators_points: Seq<(AccountId, u32)>) -> ModuleView {
        ModuleView {
            current_era_points_earned: points_after(
                self.current_elected,
                self.current_era_points_earned,
                validators_points,
                validators_points.len() as int,
            ),
            ..self
        }
    }
}

/// What is paid depends on the payees, the pairings, the validators, the
/// exposures, the elected set and the reward only.
pub proof fn lemma_era_actions_frame(a: ModuleView, b: ModuleView)
    requires
        a.payee == b.payee,
        a.bonded == b.bonded,
        a.validators == b.validators,
        a.stakers == b.stakers,
        a.current_elected == b.current_elected,
        a.session_reward == b.session_reward,
        a.current_era_total_reward == b.current_era_total_reward,
    ensures
        a.era_actions() == b.era_actions(),
{
    lemma_era_payouts_frame(a, b, a.current_elected.len() as int);
}

/// The payments to the elected validators depend on the same values only.
pub proof fn lemma_era_payouts_frame(a: ModuleView, b: ModuleView, upto: int)
    requires
        a.payee == b.payee,
        a.bonded == b.bonded,
        a.validators == b.validators,
        a.stakers == b.stakers,
        a.current_elected == b.current_elected,
        a.session_reward == b.session_reward,
        a.current_era_total_reward == b.current_era_total_reward,
    ensures
        a.era_payouts(upto) == b.era_payouts(upto),
    decreases upto,
{
    if upto > 0 {
        lemma_era_payouts_frame(a, b, upto - 1);
        let stash = a.current_elected[upto - 1];
        let reward = a.reward_per_validator();
        let e = a.exposure_of_staker(stash);
        let total = if e.total == 0 {
            1
        } else {
            e.total
        };
        let rest = (reward - a.off_the_table(stash, reward)) as Balance;
        lemma_nominator_payouts_frame(a, b, e.others, total, rest, e.others.len() as int);
    }
}

/// The payments to nominators depend on the payees and the pairings only.
pub proof fn lemma_nominator_payouts_frame(
    a: ModuleView,
    b: ModuleView,
    others: Seq<IndividualExposure>,
    total: ExtendedBalance,
    reward: Balance,
    upto: int,
)
    requires
        a.payee == b.payee,
        a.bonded == b.bonded,
    ensures
        a.nominator_payouts(others, total, reward, upto) == b.nominator_payouts(
            others,
            total,
            reward,
            upto,
        ),
    decreases upto,
{
    if upto > 0 {
        lemma_nominator_payouts_frame(a, b, others, total, reward, upto - 1);
    }
}

impl Module {
    /// The payment of `amount` for `stash`, to the stash or to its
    /// controller as the stash asked. A stash that is to be paid at its
    /// controller and has none is not paid.
    pub fn make_payout(&self, stash: AccountId, amount: Balance) -> (r: Vec<Action>)
        requires
            self@.wf(),
        ensures
            r@ == self@.payout(stash, amount),
    {
        let mut actions: Vec<Action> = Vec::new();
        let to_controller: bool = match self.payee.get(stash) {
            Some(dest) => match dest {
                RewardDestination::Controller => true,
                RewardDestination::Stash => false,
            },
            None => false,
        };
        if to_controller {
            match self.bonded(stash) {
                Some(controller) => {
                    actions.push(Action::PayRing { who: controller, amount });
                },
                None => {},
            }
        } else {
            actions.push(Action::PayRing { who: stash, amount });
        }
        proof {
            assert(actions@ =~= self@.payout(stash, amount));
        }
        actions
    }

    /// The payments of `reward` to a validator and its nominators.
    pub fn reward_validator(&self, stash: AccountId, reward: Balance) -> (r: Vec<Action>)
        requires
            self@.wf(),
        ensures
            r@ == self@.reward_validator(stash, reward),
    {
        let ratio: u32 = match self.validators.get(stash) {
            Some(p) => p.validator_payment_ratio,
            None => 0,
        };
        proof {
            lemma_part(ratio, reward);
        }
        let off_the_table: Balance = perbill_mul(ratio, reward);
        let reward: Balance = reward - off_the_table;
        if reward == 0 {
            return self.make_payout(stash, off_the_table);
        }
        let mut actions: Vec<Action> = Vec::new();
        let validator_cut: Balance = match self.stakers.get(stash) {
            Some(e) => {
                let total: ExtendedBalance = if e.total == 0 {
                    1
                } else {
                    e.total
                };
                let n: usize = e.others.len();
                let mut i: usize = 0;
                while i < n
                    invariant
                        self@.wf(),
                        n == e@.others.len(),
                        0 <= i <= n,
                        actions@ == self@.nominator_payouts(e@.others, total, reward, i as int),
                    decreases n - i,
                {
                    let other = e.others[i];
                    proof {
                        lemma_cut(other.value, total, reward);
                    }
                    let per: u32 = perbill_from_rational(other.value, total);
                    let more = self.make_payout(other.who, perbill_mul(per, reward));
                    append_actions(&mut actions, &more);
                    i += 1;
                }
                proof {
                    lemma_cut(e.own, total, reward);
                }
                let per: u32 = perbill_from_rational(e.own, total);
                perbill_mul(per, reward)
            },
            None => {
                proof {
                    lemma_cut(0, 1, reward);
                }
                let per: u32 = perbill_from_rational(0, 1);
                perbill_mul(per, reward)
            },
        };
        let more = self.make_payout(stash, validator_cut + off_the_table);
        append_actions(&mut actions, &more);
        actions
    }

    /// What the end of the era asks of the runtime: the payment of each
    /// elected validator and its nominators, and the reward event. Nothing
    /// where the era's reward is zero.
    pub fn era_payouts(&self) -> (r: Vec<Action>)
        requires
            self@.wf(),
        ensures
            r@ == self@.era_actions(),
    {
        let mut actions: Vec<Action> = Vec::new();
        let reward: Balance = perbill_mul(self.session_reward, self.current_era_total_reward);
        if reward != 0 {
            let n: usize = self.current_elected.len();
            let each: Balance = if n == 0 {
                reward
            } else {
                reward / (n as u128)
            };
            let mut i: usize = 0;
            while i < n
                invariant
                    self@.wf(),
                    n == self@.current_elected.len(),
                    each == self@.reward_per_validator(),
                    0 <= i <= n,
                    actions@ == self@.era_payouts(i as int),
                decreases n - i,
            {
                let more = self.reward_validator(self.current_elected[i], each);
                append_actions(&mut actions, &more);
                i += 1;
            }
            actions.push(Action::Deposit { event: Event::Reward(each) });
        }
        actions
    }

    /// Begins a new epoch: the epoch is counted, and the era's total reward is
    /// `next_era_reward`, what the reward schedule gives.
    pub fn new_epoch(&mut self, next_era_reward: Balance)
        requires
            old(self)@.epoch_index < u32::MAX,
        ensures
            final(self)@ == old(self)@.new_epoch(next_era_reward),
    {
        self.epoch_index = self.epoch_index + 1;
        self.current_era_total_reward = next_era_reward;
    }

    /// The era has changed - enact new staking set. Pays the era that ends,
    /// counts the new era, begins a new epoch where the count says so, and
    /// chooses the validators. `next_era_reward` is the total reward that the
    /// reward schedule gives an era of the next epoch. Returns the new
    /// validators, where the election has a result, and what the runtime has
    /// to do.
    pub fn new_era(
        &mut self,
        next_era_reward: Balance,
    ) -> (r: (Option<Vec<AccountId>>, Vec<Action>))
        requires
            old(self)@.wf(),
            old(self)@.current_era < u32::MAX,
        ensures
            final(self)@ == old(self)@.new_era(next_era_reward),
            final(self)@.wf(),
            match r.0 {
                Some(elected) => old(self)@.new_era_validators(next_era_reward) == Some(elected@),
                None => old(self)@.new_era_validators(next_era_reward).is_none(),
            },
            r.1@ == old(self)@.era_actions(),
    {
        let actions = self.era_payouts();
        self.current_era = self.current_era + 1;
        if self.current_era % self.eras_per_epoch == 0 {
            self.new_epoch(next_era_reward);
        }
        let (_, elected) = self.select_validators();
        (elected, actions)
    }

    /// Whether the session with index `session_index` begins a new era.
    pub fn starts_new_era(&self, session_index: SessionIndex) -> (r: bool)
        requires
            self@.wf(),
        ensures
            r == self@.starts_new_era(session_index),
    {
        match self.force_era {
            Forcing::ForceNew => true,
            Forcing::ForceAlways => true,
            Forcing::NotForcing => session_index % self.sessions_per_era == 0,
            Forcing::ForceNone => false,
        }
    }

    /// Decides the session with index `session_index`: a new era begins
    /// where the index is a multiple of the sessions per era, or where one is
    /// forced, and none where eras are held back. Returns the new validators,
    /// if any, and what the runtime has to do.
    pub fn new_session(&mut self, session_index: SessionIndex, next_era_reward: Balance) -> (r: (
        Option<Vec<AccountId>>,
        Vec<Action>,
    ))
        requires
            old(self)@.wf(),
            old(self)@.starts_new_era(session_index) ==> old(self)@.current_era < u32::MAX,
        ensures
            final(self)@ == old(self)@.new_session(session_index, next_era_reward),
            final(self)@.wf(),
            match r.0 {
                Some(elected) => old(self)@.new_session_validators(session_index, next_era_reward)
                    == Some(elected@),
                None => old(self)@.new_session_validators(session_index, next_era_reward).is_none(),
            },
            r.1@ == old(self)@.new_session_actions(session_index),
    {
        if self.starts_new_era(session_index) {
            match self.force_era {
                Forcing::ForceNew => {
                    self.force_era = Forcing::NotForcing;
                },
                _ => {},
            }
            proof {
                lemma_era_actions_frame(self@, old(self)@);
            }
            self.new_era(next_era_reward)
        } else {
            (None, Vec::new())
        }
    }

    /// The exposure of each of the validators, as it stands.
    pub fn prior_exposures(&self, validators: &Vec<AccountId>) -> (r: Vec<(AccountId, Exposure)>)
        requires
            self@.wf(),
        ensures
            r@.len() == validators@.len(),
            forall|i: int|
                0 <= i < r@.len() ==> (#[trigger] r@[i]).0 == validators@[i] && r@[i].1@
                    == self@.exposure_of_staker(validators@[i]),
    {
        let n: usize = validators.len();
        let mut out: Vec<(AccountId, Exposure)> = Vec::new();
        let mut i: usize = 0;
        while i < n
            invariant
                self@.wf(),
                n == validators@.len(),
                0 <= i <= n,
                out@.len() == i,
                forall|k: int|
                    0 <= k < i ==> (#[trigger] out@[k]).0 == validators@[k] && out@[k].1@
                        == self@.exposure_of_staker(validators@[k]),
            decreases n - i,
        {
            let who: AccountId = validators[i];
            let e = match self.stakers.get(who) {
                Some(e) => e.copy(),
                None => Exposure::default(),
            };
            out.push((who, e));
            i += 1;
        }
        out
    }

    /// The session `ending` ends and session `start_session` is planned: the
    /// session before `start_session` is decided. Returns the new validators,
    /// if any, and what the runtime has to do; and, where a new era begins,
    /// the exposures of the session's validators as they stood.
    pub fn on_session_ending<S: SessionInterface<AccountId>>(
        &mut self,
        ending: SessionIndex,
        start_session: SessionIndex,
        next_era_reward: Balance,
    ) -> (r: (Option<Vec<AccountId>>, Vec<(AccountId, Exposure)>, Vec<Action>))
        requires
            old(self)@.wf(),
            start_session >= 1,
            old(self)@.starts_new_era((start_session - 1) as u32) ==> old(self)@.current_era
                < u32::MAX,
        ensures
            final(self)@ == old(self)@.new_session((start_session - 1) as u32, next_era_reward),
            final(self)@.wf(),
            match r.0 {
                Some(elected) => old(self)@.new_session_validators(
                    (start_session - 1) as u32,
                    next_era_reward,
                ) == Some(elected@),
                None => old(self)@.new_session_validators(
                    (start_session - 1) as u32,
                    next_era_reward,
                ).is_none(),
            },
            forall|i: int|
                0 <= i < r.1@.len() ==> (#[trigger] r.1@[i]).1@ == old(self)@.exposure_of_staker(
                    r.1@[i].0,
                ),
            !old(self)@.starts_new_era((start_session - 1) as u32) ==> r.1@.len() == 0,
            r.2@ == old(self)@.new_session_actions((start_session - 1) as u32),
    {
        let prior = if self.starts_new_era(start_session - 1) {
            let validators = S::validators();
            self.prior_exposures(&validators)
        } else {
            Vec::new()
        };
        let (elected, actions) = self.new_session(start_session - 1, next_era_reward);
        (elected, prior, actions)
    }

    /// Counts reward points for validators: points for a validator that is
    /// not elected are dropped.
    pub fn reward_by_ids(&mut self, validators_points: &Vec<(AccountId, u32)>)
        requires
            old(self)@.wf(),
        ensures
            final(self)@ == old(self)@.reward_by_ids(validators_points@),
            final(self)@.wf(),
    {
        let n: usize = validators_points.len();
        let mut i: usize = 0;
        while i < n
            invariant
                n == validators_points@.len(),
                0 <= i <= n,
                self@.wf(),
                self@ == (ModuleView {
                    current_era_points_earned: points_after(
                        old(self)@.current_elected,
                        old(self)@.current_era_points_earned,
                        validators_points@,
                        i as int,
                    ),
                    ..old(self)@
                }),
            decreases n - i,
        {
            let (validator, points) = validators_points[i];
            match find_account(&self.current_elected, validator) {
                Some(index) => {
                    self.current_era_points_earned.add_points_to_index(index as u32, points);
                },
                None => {},
            }
            i += 1;
        }
    }

    /// Counts the points of the author of a block.
    pub fn note_author(&mut self, author: AccountId)
        requires
            old(self)@.wf(),
        ensures
            final(self)@ == old(self)@.reward_by_ids(seq![(author, AUTHOR_POINTS)]),
            final(self)@.wf(),
    {
        let mut points: Vec<(AccountId, u32)> = Vec::new();
        points.push((author, AUTHOR_POINTS));
        proof {
            assert(points@ =~= seq![(author, AUTHOR_POINTS)]);
        }
        self.reward_by_ids(&points);
    }

    /// Counts the points for an uncle: those of the author of the block that
    /// refers to it, and those of the uncle's author.
    pub fn note_uncle(&mut self, block_author: AccountId, uncle_author: AccountId)
        requires
            old(self)@.wf(),
        ensures
            final(self)@ == old(self)@.reward_by_ids(
                seq![(block_author, UNCLE_REFERENCE_POINTS), (uncle_author, UNCLE_AUTHOR_POINTS)],
            ),
            final(self)@.wf(),
    {
        let mut points: Vec<(AccountId, u32)> = Vec::new();
        points.push((block_author, UNCLE_REFERENCE_POINTS));
        points.push((uncle_author, UNCLE_AUTHOR_POINTS));
        proof {
            assert(points@ =~= seq![
                (block_author, UNCLE_REFERENCE_POINTS),
                (uncle_author, UNCLE_AUTHOR_POINTS),
            ]);
        }
        self.reward_by_ids(&points);
    }

    /// The stash's account has lost all its balance: the stash leaves the
    /// staking system.
    pub fn on_free_balance_zero(&mut self, stash: AccountId)
        requires
            old(self)@.wf(),
        ensures
            final(self)@ == old(self)@.kill_stash(stash),
            final(self)@.wf(),
    {
        self.kill_stash(stash);
    }
}

} // verus!
