//! The slashing engine: offence reports become reductions of ledgers and
//! pools, in a fixed order.
//!
//! An offence names a fraction and the offender's exposure. The offender
//! loses that fraction of its own exposure, and each nominator that it
//! exposed that fraction of the value that it exposed. A ledger pays such an
//! amount from its active Ring first, the normal Ring before the deposits and
//! the deposit that expires last before the others, and pays from its active
//! Kton what its active Ring does not cover. What is unlocking is never
//! touched. The journal records what the ledgers lost.

use crate::assoc::{lemma_del_all_values, lemma_disjoint_keys};
use crate::exposure::{copy_vec, Exposure, ExposureView, SlashJournalEntry};
use crate::ledger::{min_balance, LedgerView, StakingLedgers};
use crate::ledger_slash::lemma_slash_ring_wf;
use crate::module::{
    lemma_pool_bounds, lemma_with_ledger_wf, prefs_wf, spec_ensure_new_era, Module, ModuleView,
};
use crate::per_things::{
    lemma_mul_nearest_bounded, perbill_mul, spec_min, spec_perbill_mul, BILLION,
};
use crate::phragmen::clip;
use crate::traits::SessionInterface;
use crate::types::{AccountId, Action, Balance, EraIndex, Event, SessionIndex};
use vstd::prelude::*;

verus! {

/// An offence as it is reported: the offender with its exposure at the time,
/// and those who reported it.
#[derive(Clone, Debug, PartialEq, Eq)]
pub struct OffenceDetails {
    pub offender: AccountId,
    pub exposure: Exposure,
    pub reporters: Vec<AccountId>,
}

/// The mathematical value of an offence report.
pub struct OffenceView {
    pub offender: AccountId,
    pub exposure: ExposureView,
    pub reporters: Seq<AccountId>,
}

impl View for OffenceDetails {
    type V = OffenceView;

    open spec fn view(&self) -> OffenceView {
        OffenceView {
            offender: self.offender,
            exposure: self.exposure@,
            reporters: self.reporters@,
        }
    }
}

/// A settlement of what a slash took: the offender whose slash is settled,
/// and those who reported it and share the reward.
#[derive(Clone, Debug, PartialEq, Eq)]
pub struct Settlement {
    pub offender: AccountId,
    pub reporters: Vec<AccountId>,
}

/// The mathematical value of a settlement.
pub struct SettlementView {
    pub offender: AccountId,
    pub reporters: Seq<AccountId>,
}

impl View for Settlement {
    type V = SettlementView;

    open spec fn view(&self) -> SettlementView {
        SettlementView { offender: self.offender, reporters: self.reporters@ }
    }
}

/// The part `ratio` of a balance, with `ratio` in parts per billion.
pub open spec fn spec_part(ratio: u32, x: Balance) -> Balance {
    spec_perbill_mul(ratio, x) as Balance
}

/// A part of a balance is at most the balance; the part zero is nothing and
/// the part one billion is all.
pub proof fn lemma_part(ratio: u32, x: Balance)
    ensures
        0 <= spec_perbill_mul(ratio, x) <= x,
        ratio == 0 ==> spec_part(ratio, x) == 0,
        ratio >= BILLION ==> spec_part(ratio, x) == x,
{
    lemma_mul_nearest_bounded(spec_min(ratio as int, BILLION as int), x as int, BILLION as int);
}

impl LedgerView {
    /// The Kton that a slash of `amount` takes: what the active Ring does not
    /// cover, at most the active Kton.
    pub open spec fn kton_slashed(self, amount: Balance) -> Balance {
        min_balance((amount - self.ring_slashed(amount)) as Balance, self.active_kton)
    }

    /// All that a slash of `amount` takes from the ledger, Ring and Kton.
    pub open spec fn slashed(self, amount: Balance) -> Balance {
        (self.ring_slashed(amount) + self.kton_slashed(amount)) as Balance
    }

    /// The ledger after `amount` is slashed from what is active: from the
    /// active Ring first, the normal Ring before the deposits, and what the
    /// active Ring does not cover from the active Kton.
    pub open spec fn slash(self, amount: Balance) -> LedgerView {
        self.slash_ring(amount).slash_kton((amount - self.ring_slashed(amount)) as Balance)
    }

    /// What that slash asks of the runtime: for each currency of which
    /// anything is taken, the new lock and the amount to take.
    pub open spec fn slash_actions(self, amount: Balance) -> Seq<Action> {
        let ring = if self.ring_slashed(amount) != 0 {
            seq![
                Action::SetRingLock { who: self.stash, amount: self.slash(amount).total_ring },
                Action::SlashRing { who: self.stash, amount: self.ring_slashed(amount) },
            ]
        } else {
            Seq::empty()
        };
        let kton = if self.kton_slashed(amount) != 0 {
            seq![
                Action::SetKtonLock { who: self.stash, amount: self.slash(amount).total_kton },
                Action::SlashKton { who: self.stash, amount: self.kton_slashed(amount) },
            ]
        } else {
            Seq::empty()
        };
        ring + kton
    }
}

/// A slash keeps a ledger well formed, takes from what is active only, takes
/// no more than the amount, and leaves the unlocking chunks as they are.
pub proof fn lemma_slash_wf(l: LedgerView, amount: Balance)
    requires
        l.wf(),
    ensures
        l.slash(amount).wf(),
        l.slash(amount).stash == l.stash,
        l.slash(amount).unlocking == l.unlocking,
        l.slash(amount).active_ring == l.active_ring - l.ring_slashed(amount),
        l.slash(amount).active_kton == l.active_kton - l.kton_slashed(amount),
        l.slash(amount).total_ring == l.total_ring - l.ring_slashed(amount),
        l.slash(amount).total_kton == l.total_kton - l.kton_slashed(amount),
        l.ring_slashed(amount) + l.kton_slashed(amount) <= amount,
{
    lemma_slash_ring_wf(l, amount);
}

impl ModuleView {
    /// The state after `amount` is slashed from the ledger of `stash`. A
    /// stash without a ledger is left out.
    pub open spec fn slash_individual(self, stash: AccountId, amount: Balance) -> ModuleView {
        match self.ledger_of_stash(stash) {
            Some(l) => self.with_ledger(self.bonded.get(stash).unwrap(), l.slash(amount)),
            None => self,
        }
    }

    /// What that slash asks of the runtime.
    pub open spec fn slash_individual_actions(self, stash: AccountId, amount: Balance) -> Seq<
        Action,
    > {
        match self.ledger_of_stash(stash) {
            Some(l) => l.slash_actions(amount),
            None => Seq::empty(),
        }
    }

    /// What that slash takes from the ledger of `stash`; nothing from a stash
    /// without a ledger.
    pub open spec fn slash_applied(self, stash: AccountId, amount: Balance) -> Balance {
        match self.ledger_of_stash(stash) {
            Some(l) => l.slashed(amount),
            None => 0,
        }
    }

    /// The state after a validator and the first `upto` of the nominators
    /// that it exposed are slashed, one after the other: the validator by the
    /// part `ratio` of its own exposure, each nominator by the part `ratio`
    /// of the value that it exposed.
    pub open spec fn slash_validator(
        self,
        stash: AccountId,
        ratio: u32,
        exposure: ExposureView,
        upto: int,
    ) -> ModuleView
        decreases upto,
    {
        if upto <= 0 {
            self.slash_individual(stash, spec_part(ratio, exposure.own))
        } else {
            self.slash_validator(stash, ratio, exposure, upto - 1).slash_individual(
                exposure.others[upto - 1].who,
                spec_part(ratio, exposure.others[upto - 1].value),
            )
        }
    }

    /// What those slashes ask of the runtime, in order.
    pub open spec fn slash_validator_actions(
        self,
        stash: AccountId,
        ratio: u32,
        exposure: ExposureView,
        upto: int,
    ) -> Seq<Action>
        decreases upto,
    {
        if upto <= 0 {
            self.slash_individual_actions(stash, spec_part(ratio, exposure.own))
        } else {
            self.slash_validator_actions(stash, ratio, exposure, upto - 1) + self.slash_validator(
                stash,
                ratio,
                exposure,
                upto - 1,
            ).slash_individual_actions(
                exposure.others[upto - 1].who,
                spec_part(ratio, exposure.others[upto - 1].value),
            )
        }
    }

    /// What those slashes take from the validator's own ledger.
    pub open spec fn own_slashed(
        self,
        stash: AccountId,
        ratio: u32,
        exposure: ExposureView,
    ) -> Balance {
        self.slash_applied(stash, spec_part(ratio, exposure.own))
    }

    /// What those slashes take from all the ledgers together.
    pub open spec fn all_slashed(
        self,
        stash: AccountId,
        ratio: u32,
        exposure: ExposureView,
        upto: int,
    ) -> int
        decreases upto,
    {
        if upto <= 0 {
            self.own_slashed(stash, ratio, exposure) as int
        } else {
            self.all_slashed(stash, ratio, exposure, upto - 1) + self.slash_validator(
                stash,
                ratio,
                exposure,
                upto - 1,
            ).slash_applied(
                exposure.others[upto - 1].who,
                spec_part(ratio, exposure.others[upto - 1].value),
            )
        }
    }

    /// The entry that the journal gets for the slash of a validator: what was
    /// taken from all the ledgers (the largest balance where that does not
    /// fit), and what of it from the validator's own.
    pub open spec fn journal_entry(
        self,
        stash: AccountId,
        ratio: u32,
        exposure: ExposureView,
    ) -> SlashJournalEntry {
        SlashJournalEntry {
            who: stash,
            amount: clip(self.all_slashed(stash, ratio, exposure, exposure.others.len() as int)),
            own_slash: self.own_slashed(stash, ratio, exposure),
        }
    }

    /// The slashes recorded for an era.
    pub open spec fn journal_of(self, era: EraIndex) -> Seq<SlashJournalEntry> {
        match self.era_slash_journal.get(era as u64) {
            Some(j) => j,
            None => Seq::empty(),
        }
    }

    /// Whether an offence leads to a slash: its offender can be slashed, and
    /// the part `fraction` of its total exposure is not zero.
    pub open spec fn offence_applies(self, offence: OffenceView, fraction: u32) -> bool {
        !self.invulnerables.contains(offence.offender) && spec_part(
            fraction,
            offence.exposure.total,
        ) != 0
    }

    /// The state after one offence is handled, where `disabled` is what
    /// disabling the offender in the session gave.
    ///
    /// An offender that can never be slashed changes nothing. Any other
    /// offender stops being a validator, and where it was one a new era is
    /// asked for. Where the offence leads to a slash, a new era is asked for
    /// if `disabled` says so, the offender and the nominators that it exposed
    /// are slashed by the part `fraction` of what each exposed, and what was
    /// taken goes into the journal of the current era.
    pub open spec fn apply_offence(
        self,
        offence: OffenceView,
        fraction: u32,
        disabled: bool,
    ) -> ModuleView {
        if self.invulnerables.contains(offence.offender) {
            self
        } else {
            let out = deselected(self, offence.offender);
            if spec_part(fraction, offence.exposure.total) == 0 {
                out
            } else {
                let forced = if disabled {
                    ModuleView { force_era: spec_ensure_new_era(out.force_era), ..out }
                } else {
                    out
                };
                let slashed = forced.slash_validator(
                    offence.offender,
                    fraction,
                    offence.exposure,
                    offence.exposure.others.len() as int,
                );
                ModuleView {
                    era_slash_journal: slashed.era_slash_journal.put(
                        slashed.current_era as u64,
                        slashed.journal_of(slashed.current_era).push(
                            forced.journal_entry(offence.offender, fraction, offence.exposure),
                        ),
                    ),
                    ..slashed
                }
            }
        }
    }

    /// What handling one offence asks of the runtime: the slashes in order,
    /// then the settlement of what was taken.
    pub open spec fn apply_offence_actions(
        self,
        offence: OffenceView,
        fraction: u32,
    ) -> Seq<Action> {
        if self.offence_applies(offence, fraction) {
            self.slash_validator_actions(
                offence.offender,
                fraction,
                offence.exposure,
                offence.exposure.others.len() as int,
            ).push(Action::SettleSlash { offender: offence.offender })
        } else {
            Seq::empty()
        }
    }

    /// The reward of each reporter of an offence from `slashed` of one
    /// currency: the part `slash_reward_fraction`, split evenly. Nothing
    /// where there is no reporter.
    pub open spec fn reporter_reward(self, slashed: Balance, reporters: nat) -> Balance {
        if reporters == 0 {
            0
        } else {
            ((spec_part(self.slash_reward_fraction, slashed) as int) / (reporters as int))
                as Balance
        }
    }
}

/// Slashing one stash keeps the state's invariant and takes no more than the
/// amount.
pub proof fn lemma_slash_individual_wf(s: ModuleView, stash: AccountId, amount: Balance)
    requires
        s.wf(),
    ensures
        s.slash_individual(stash, amount).wf(),
        s.slash_individual(stash, amount).era_slash_journal == s.era_slash_journal,
        s.slash_individual(stash, amount).current_era == s.current_era,
        s.slash_individual(stash, amount).invulnerables == s.invulnerables,
        s.slash_applied(stash, amount) <= amount,
{
    match s.ledger_of_stash(stash) {
        Some(l) => {
            let c = s.bonded.get(stash).unwrap();
            let i = s.ledger.index(c);
            assert(s.ledger.vals[i].wf());
            lemma_slash_wf(l, amount);
            lemma_pool_bounds(s, i);
            lemma_with_ledger_wf(s, c, l.slash(amount));
        },
        None => {},
    }
}

/// Slashing a validator and its nominators keeps the state's invariant.
pub proof fn lemma_slash_validator_wf(
    s: ModuleView,
    stash: AccountId,
    ratio: u32,
    exposure: ExposureView,
    upto: int,
)
    requires
        s.wf(),
    ensures
        s.slash_validator(stash, ratio, exposure, upto).wf(),
        s.slash_validator(stash, ratio, exposure, upto).era_slash_journal == s.era_slash_journal,
        s.slash_validator(stash, ratio, exposure, upto).current_era == s.current_era,
        s.slash_validator(stash, ratio, exposure, upto).invulnerables == s.invulnerables,
        s.all_slashed(stash, ratio, exposure, upto) >= 0,
    decreases upto,
{
    if upto <= 0 {
        lemma_slash_individual_wf(s, stash, spec_part(ratio, exposure.own));
    } else {
        lemma_slash_validator_wf(s, stash, ratio, exposure, upto - 1);
        lemma_slash_individual_wf(
            s.slash_validator(stash, ratio, exposure, upto - 1),
            exposure.others[upto - 1].who,
            spec_part(ratio, exposure.others[upto - 1].value),
        );
    }
}

/// What slashing does to the ledgers, what it takes and what it asks of the
/// runtime depend on the pairings and the ledgers only.
pub proof fn lemma_slash_validator_frame(
    a: ModuleView,
    b: ModuleView,
    stash: AccountId,
    ratio: u32,
    exposure: ExposureView,
    upto: int,
)
    requires
        a.bonded == b.bonded,
        a.ledger == b.ledger,
    ensures
        a.slash_validator(stash, ratio, exposure, upto).bonded == b.slash_validator(
            stash,
            ratio,
            exposure,
            upto,
        ).bonded,
        a.slash_validator(stash, ratio, exposure, upto).ledger == b.slash_validator(
            stash,
            ratio,
            exposure,
            upto,
        ).ledger,
        a.slash_validator_actions(stash, ratio, exposure, upto) == b.slash_validator_actions(
            stash,
            ratio,
            exposure,
            upto,
        ),
        a.all_slashed(stash, ratio, exposure, upto) == b.all_slashed(stash, ratio, exposure, upto),
        a.own_slashed(stash, ratio, exposure) == b.own_slashed(stash, ratio, exposure),
    decreases upto,
{
    if upto > 0 {
        lemma_slash_validator_frame(a, b, stash, ratio, exposure, upto - 1);
    }
}

/// The state in which `stash` validates no more and a new era is asked for.
pub open spec fn deselected(s: ModuleView, stash: AccountId) -> ModuleView {
    if s.validators.contains(stash) {
        ModuleView {
            validators: s.validators.del(stash),
            force_era: spec_ensure_new_era(s.force_era),
            ..s
        }
    } else {
        s
    }
}

/// Taking a validator out keeps the state's invariant.
pub proof fn lemma_deselected_wf(s: ModuleView, stash: AccountId)
    requires
        s.wf(),
    ensures
        deselected(s, stash).wf(),
{
    s.validators.lemma_del(stash);
    lemma_del_all_values(s.validators, stash, prefs_wf());
    lemma_disjoint_keys(s.validators, s.nominators, s.validators.del(stash), s.nominators);
}

/// Handling an offence keeps the state's invariant.
#[verifier::rlimit(50)]
pub proof fn lemma_apply_offence_wf(
    s: ModuleView,
    offence: OffenceView,
    fraction: u32,
    disabled: bool,
)
    requires
        s.wf(),
    ensures
        s.apply_offence(offence, fraction, disabled).wf(),
{
    if !s.invulnerables.contains(offence.offender) {
        lemma_deselected_wf(s, offence.offender);
        let out = deselected(s, offence.offender);
        if spec_part(fraction, offence.exposure.total) != 0 {
            let forced = if disabled {
                ModuleView { force_era: spec_ensure_new_era(out.force_era), ..out }
            } else {
                out
            };
            lemma_slash_validator_wf(
                forced,
                offence.offender,
                fraction,
                offence.exposure,
                offence.exposure.others.len() as int,
            );
            let slashed = forced.slash_validator(
                offence.offender,
                fraction,
                offence.exposure,
                offence.exposure.others.len() as int,
            );
            slashed.era_slash_journal.lemma_put(
                slashed.current_era as u64,
                slashed.journal_of(slashed.current_era).push(
                    forced.journal_entry(offence.offender, fraction, offence.exposure),
                ),
            );
        }
    }
}

impl StakingLedgers {
    /// Slashes `amount` from what is active: from the active Ring first, the
    /// normal Ring before the deposits, and what the active Ring does not
    /// cover from the active Kton. Returns what the runtime has to do, and
    /// what was taken of both currencies together.
    pub fn slash(&mut self, amount: Balance) -> (r: (Vec<Action>, Balance))
        requires
            old(self)@.wf(),
        ensures
            final(self)@ == old(self)@.slash(amount),
            final(self)@.wf(),
            r.0@ == old(self)@.slash_actions(amount),
            r.1 == old(self)@.slashed(amount),
    {
        proof {
            lemma_slash_wf(self@, amount);
        }
        let mut actions: Vec<Action> = Vec::new();
        let ring: Balance = self.slash_ring(amount);
        let kton: Balance = self.slash_kton(amount - ring);
        if ring != 0 {
            actions.push(Action::SetRingLock { who: self.stash, amount: self.total_ring });
            actions.push(Action::SlashRing { who: self.stash, amount: ring });
        }
        if kton != 0 {
            actions.push(Action::SetKtonLock { who: self.stash, amount: self.total_kton });
            actions.push(Action::SlashKton { who: self.stash, amount: kton });
        }
        proof {
            assert(actions@ =~= old(self)@.slash_actions(amount));
        }
        (actions, ring + kton)
    }
}

/// Puts the entries of `more` behind those of `actions`.
pub fn append_actions(actions: &mut Vec<Action>, more: &Vec<Action>)
    ensures
        final(actions)@ == old(actions)@ + more@,
{
    let n: usize = more.len();
    let mut i: usize = 0;
    proof {
        assert(actions@ =~= old(actions)@ + more@.take(0));
    }
    while i < n
        invariant
            n == more@.len(),
            0 <= i <= n,
            actions@ == old(actions)@ + more@.take(i as int),
        decreases n - i,
    {
        actions.push(more[i]);
        proof {
            assert(old(actions)@ + more@.take(i + 1) =~= (old(actions)@ + more@.take(
                i as int,
            )).push(more@[i as int]));
        }
        i += 1;
    }
    proof {
        assert(more@.take(n as int) =~= more@);
    }
}

impl Module {
    /// Slashes `amount` from the ledger of `stash`; a stash without a ledger
    /// is left out. Returns what the runtime has to do, and what was taken.
    pub fn slash_individual(&mut self, stash: AccountId, amount: Balance) -> (r: (
        Vec<Action>,
        Balance,
    ))
        requires
            old(self)@.wf(),
        ensures
            final(self)@ == old(self)@.slash_individual(stash, amount),
            final(self)@.wf(),
            r.0@ == old(self)@.slash_individual_actions(stash, amount),
            r.1 == old(self)@.slash_applied(stash, amount),
    {
        proof {
            lemma_slash_individual_wf(self@, stash, amount);
        }
        match self.bonded(stash) {
            Some(controller) => match self.ledger(controller) {
                Some(l) => {
                    let mut l = l;
                    proof {
                        lemma_slash_wf(l@, amount);
                        lemma_pool_bounds(self@, self@.ledger.index(controller));
                    }
                    let r = l.slash(amount);
                    self.store_ledger(controller, l);
                    r
                },
                None => (Vec::new(), 0),
            },
            None => (Vec::new(), 0),
        }
    }

    /// Slashes a validator and the nominators that `exposure` names, one
    /// after the other: the validator by the part `ratio` of its own
    /// exposure, each nominator by the part `ratio` of the value that it
    /// exposed. Returns what the runtime has to do, and the entry for the
    /// journal: what was taken from all the ledgers, and what of it from the
    /// validator's own.
    pub fn slash_validator(
        &mut self,
        stash: AccountId,
        ratio: u32,
        exposure: &Exposure,
    ) -> (r: (Vec<Action>, SlashJournalEntry))
        requires
            old(self)@.wf(),
        ensures
            final(self)@ == old(self)@.slash_validator(
                stash,
                ratio,
                exposure@,
                exposure@.others.len() as int,
            ),
            final(self)@.wf(),
            r.0@ == old(self)@.slash_validator_actions(
                stash,
                ratio,
                exposure@,
                exposure@.others.len() as int,
            ),
            r.1 == old(self)@.journal_entry(stash, ratio, exposure@),
    {
        let own: Balance = perbill_mul(ratio, exposure.own);
        let (mut actions, own_slash) = self.slash_individual(stash, own);
        let mut amount: Balance = own_slash;
        let ghost mut exact: int = own_slash as int;
        let n: usize = exposure.others.len();
        let mut i: usize = 0;
        while i < n
            invariant
                n == exposure@.others.len(),
                0 <= i <= n,
                self@.wf(),
                self@ == old(self)@.slash_validator(stash, ratio, exposure@, i as int),
                actions@ == old(self)@.slash_validator_actions(stash, ratio, exposure@, i as int),
                exact == old(self)@.all_slashed(stash, ratio, exposure@, i as int),
                exact >= 0,
                amount == clip(exact),
                own_slash == old(self)@.own_slashed(stash, ratio, exposure@),
            decreases n - i,
        {
            let other = exposure.others[i];
            let (more, taken) = self.slash_individual(other.who, perbill_mul(ratio, other.value));
            append_actions(&mut actions, &more);
            amount = amount.saturating_add(taken);
            proof {
                exact = exact + taken;
            }
            i += 1;
        }
        (actions, SlashJournalEntry { who: stash, amount, own_slash })
    }

    /// Whether an offence leads to a slash.
    pub fn offence_applies(&self, offence: &OffenceDetails, fraction: u32) -> (r: bool)
        ensures
            r == self@.offence_applies(offence@, fraction),
    {
        !contains_account(&self.invulnerables, offence.offender) && perbill_mul(
            fraction,
            offence.exposure.total,
        ) != 0
    }

    /// Handles one offence, where `disabled` is what disabling the offender
    /// in the session gave. Returns what the runtime has to do.
    pub fn apply_offence(
        &mut self,
        offence: &OffenceDetails,
        fraction: u32,
        disabled: bool,
    ) -> (actions: Vec<Action>)
        requires
            old(self)@.wf(),
        ensures
            final(self)@ == old(self)@.apply_offence(offence@, fraction, disabled),
            final(self)@.wf(),
            actions@ == old(self)@.apply_offence_actions(offence@, fraction),
    {
        proof {
            lemma_apply_offence_wf(self@, offence@, fraction, disabled);
        }
        let stash: AccountId = offence.offender;
        if contains_account(&self.invulnerables, stash) {
            return Vec::new();
        }
        if self.validators.contains_key(stash) {
            let _ = self.validators.remove(stash);
            self.ensure_new_era();
        }
        let amount: Balance = perbill_mul(fraction, offence.exposure.total);
        if amount == 0 {
            return Vec::new();
        }
        if disabled {
            self.ensure_new_era();
        }
        let ghost forced = self@;
        proof {
            lemma_deselected_wf(old(self)@, stash);
            lemma_slash_validator_wf(
                forced,
                stash,
                fraction,
                offence@.exposure,
                offence@.exposure.others.len() as int,
            );
            lemma_slash_validator_frame(
                forced,
                old(self)@,
                stash,
                fraction,
                offence@.exposure,
                offence@.exposure.others.len() as int,
            );
        }
        let (mut actions, entry) = self.slash_validator(stash, fraction, &offence.exposure);
        let era: u64 = self.current_era as u64;
        let mut journal: Vec<SlashJournalEntry> = match self.era_slash_journal.get(era) {
            Some(j) => copy_vec(j),
            None => Vec::new(),
        };
        journal.push(entry);
        self.era_slash_journal.insert(era, journal);
        actions.push(Action::SettleSlash { offender: stash });
        actions
    }

    /// Handles the offences one after the other, each with its own slash
    /// fraction. An offender that is to be slashed is disabled in the session
    /// first, and what that gives decides whether a new era is asked for.
    /// Returns what the runtime has to do; the settlements that it asks for
    /// are those that `settlements` names, in the same order.
    #[verifier::rlimit(50)]
    pub fn on_offence<S: SessionInterface<AccountId>>(
        &mut self,
        offenders: &Vec<OffenceDetails>,
        slash_fraction: &Vec<u32>,
    ) -> (actions: Vec<Action>)
        requires
            old(self)@.wf(),
        ensures
            final(self)@.wf(),
            exists|disabled: Seq<bool>|
                disabled.len() == offences_handled(offenders@, slash_fraction@) && final(self)@
                    == on_offences(
                    old(self)@,
                    offenders@,
                    slash_fraction@,
                    disabled,
                    disabled.len() as int,
                ) && actions@ == on_offences_actions(
                    old(self)@,
                    offenders@,
                    slash_fraction@,
                    disabled,
                    disabled.len() as int,
                ),
            settled(actions@) == settlements(
                old(self)@,
                offenders@,
                slash_fraction@,
                offences_handled(offenders@, slash_fraction@) as int,
            ).map_values(settlement_offender()),
    {
        let n: usize = if offenders.len() <= slash_fraction.len() {
            offenders.len()
        } else {
            slash_fraction.len()
        };
        let mut actions: Vec<Action> = Vec::new();
        let ghost mut disabled: Seq<bool> = Seq::empty();
        let mut i: usize = 0;
        while i < n
            invariant
                n == offences_handled(offenders@, slash_fraction@),
                0 <= i <= n,
                self@.wf(),
                disabled.len() == i,
                self@ == on_offences(old(self)@, offenders@, slash_fraction@, disabled, i as int),
                actions@ == on_offences_actions(
                    old(self)@,
                    offenders@,
                    slash_fraction@,
                    disabled,
                    i as int,
                ),
            decreases n - i,
        {
            let offence = &offenders[i];
            let fraction: u32 = slash_fraction[i];
            let flag: bool = if self.offence_applies(offence, fraction) {
                match S::disable_validator(&offence.offender) {
                    Ok(b) => b,
                    Err(_) => false,
                }
            } else {
                false
            };
            proof {
                let next = disabled.push(flag);
                lemma_on_offences_prefix(
                    old(self)@,
                    offenders@,
                    slash_fraction@,
                    disabled,
                    next,
                    i as int,
                );
                disabled = next;
            }
            let more = self.apply_offence(offence, fraction, flag);
            append_actions(&mut actions, &more);
            i += 1;
        }
        proof {
            lemma_settlements(old(self)@, offenders@, slash_fraction@, disabled, n as int);
        }
        actions
    }

    /// The settlements that handling these offences asks for, in the order
    /// in which the actions ask for them: one for each offence that leads to
    /// a slash, with the reporters of that offence.
    pub fn settlements(
        &self,
        offenders: &Vec<OffenceDetails>,
        slash_fraction: &Vec<u32>,
    ) -> (r: Vec<Settlement>)
        ensures
            r@.map_values(|x: Settlement| x@) == settlements(
                self@,
                offenders@,
                slash_fraction@,
                offences_handled(offenders@, slash_fraction@) as int,
            ),
    {
        let n: usize = if offenders.len() <= slash_fraction.len() {
            offenders.len()
        } else {
            slash_fraction.len()
        };
        let mut out: Vec<Settlement> = Vec::new();
        let mut i: usize = 0;
        proof {
            assert(out@.map_values(|x: Settlement| x@) =~= Seq::<SettlementView>::empty());
        }
        while i < n
            invariant
                n == offences_handled(offenders@, slash_fraction@),
                0 <= i <= n,
                out@.map_values(|x: Settlement| x@) == settlements(
                    self@,
                    offenders@,
                    slash_fraction@,
                    i as int,
                ),
            decreases n - i,
        {
            let offence = &offenders[i];
            if self.offence_applies(offence, slash_fraction[i]) {
                let x = Settlement {
                    offender: offence.offender,
                    reporters: copy_vec(&offence.reporters),
                };
                proof {
                    assert(out@.push(x).map_values(|x: Settlement| x@) =~= out@.map_values(
                        |x: Settlement| x@,
                    ).push(x@));
                }
                out.push(x);
            }
            i += 1;
        }
        out
    }

    /// How the Ring or Kton that a slash took is split: the reward of each
    /// reporter, and what is left for the treasury.
    pub fn slash_reward_split(&self, slashed: Balance, reporters: usize) -> (r: (Balance, Balance))
        requires
            self@.wf(),
        ensures
            r.0 == self@.reporter_reward(slashed, reporters as nat),
            r.0 * reporters + r.1 == slashed,
    {
        proof {
            lemma_part(self.slash_reward_fraction, slashed);
        }
        let reward: Balance = perbill_mul(self.slash_reward_fraction, slashed);
        if reporters == 0 {
            (0, slashed)
        } else {
            let each: Balance = reward / (reporters as u128);
            assert(each * reporters <= reward) by (nonlinear_arith)
                requires
                    each == reward / (reporters as u128),
                    reporters > 0,
            ;
            (each, slashed - each * (reporters as u128))
        }
    }
}

/// The number of offences that are handled: each needs its slash fraction.
pub open spec fn offences_handled(offenders: Seq<OffenceDetails>, slash_fraction: Seq<u32>) -> nat {
    if offenders.len() <= slash_fraction.len() {
        offenders.len()
    } else {
        slash_fraction.len()
    }
}

/// The state after the first `upto` offences are handled, where `disabled`
/// holds what disabling each offender gave.
pub open spec fn on_offences(
    s: ModuleView,
    offenders: Seq<OffenceDetails>,
    slash_fraction: Seq<u32>,
    disabled: Seq<bool>,
    upto: int,
) -> ModuleView
    decreases upto,
{
    if upto <= 0 {
        s
    } else {
        on_offences(s, offenders, slash_fraction, disabled, upto - 1).apply_offence(
            offenders[upto - 1]@,
            slash_fraction[upto - 1],
            disabled[upto - 1],
        )
    }
}

/// What handling the first `upto` offences asks of the runtime, in order.
pub open spec fn on_offences_actions(
    s: ModuleView,
    offenders: Seq<OffenceDetails>,
    slash_fraction: Seq<u32>,
    disabled: Seq<bool>,
    upto: int,
) -> Seq<Action>
    decreases upto,
{
    if upto <= 0 {
        Seq::empty()
    } else {
        on_offences_actions(s, offenders, slash_fraction, disabled, upto - 1) + on_offences(
            s,
            offenders,
            slash_fraction,
            disabled,
            upto - 1,
        ).apply_offence_actions(offenders[upto - 1]@, slash_fraction[upto - 1])
    }
}

/// The settlements that handling the first `upto` offences asks for, in
/// order: one for each offence that leads to a slash, with the reporters of
/// that offence.
pub open spec fn settlements(
    s: ModuleView,
    offenders: Seq<OffenceDetails>,
    slash_fraction: Seq<u32>,
    upto: int,
) -> Seq<SettlementView>
    decreases upto,
{
    if upto <= 0 {
        Seq::empty()
    } else {
        let before = settlements(s, offenders, slash_fraction, upto - 1);
        let offence = offenders[upto - 1]@;
        if s.offence_applies(offence, slash_fraction[upto - 1]) {
            before.push(
                SettlementView { offender: offence.offender, reporters: offence.reporters },
            )
        } else {
            before
        }
    }
}

/// The offenders of the settlements.
pub open spec fn settlement_offender() -> spec_fn(SettlementView) -> AccountId {
    |x: SettlementView| x.offender
}

/// The offenders whose slash the actions settle, in the order of the
/// actions.
pub open spec fn settled(actions: Seq<Action>) -> Seq<AccountId>
    decreases actions.len(),
{
    if actions.len() == 0 {
        Seq::empty()
    } else {
        match actions.last() {
            Action::SettleSlash { offender } => settled(actions.drop_last()).push(offender),
            _ => settled(actions.drop_last()),
        }
    }
}

/// Actions put behind others settle what both settle, in that order.
pub proof fn lemma_settled_concat(a: Seq<Action>, b: Seq<Action>)
    ensures
        settled(a + b) == settled(a) + settled(b),
    decreases b.len(),
{
    if b.len() == 0 {
        assert(a + b =~= a);
        assert(settled(a) + settled(b) =~= settled(a));
    } else {
        assert((a + b).drop_last() =~= a + b.drop_last());
        assert((a + b).last() == b.last());
        lemma_settled_concat(a, b.drop_last());
        match b.last() {
            Action::SettleSlash { offender } => {
                assert(settled(a + b) =~= settled(a) + settled(b));
            },
            _ => {},
        }
    }
}

/// Actions of which none is a settlement settle nothing.
pub proof fn lemma_settled_none(actions: Seq<Action>)
    requires
        forall|i: int| 0 <= i < actions.len() ==> !((#[trigger] actions[i]) is SettleSlash),
    ensures
        settled(actions) == Seq::<AccountId>::empty(),
    decreases actions.len(),
{
    if actions.len() > 0 {
        assert(!(actions[actions.len() - 1] is SettleSlash));
        assert forall|i: int| 0 <= i < actions.drop_last().len() implies !((
        #[trigger] actions.drop_last()[i]) is SettleSlash) by {
            assert(actions.drop_last()[i] == actions[i]);
        }
        lemma_settled_none(actions.drop_last());
    }
}

/// The slashes of a validator and its nominators settle nothing.
pub proof fn lemma_slashes_settle_nothing(
    s: ModuleView,
    stash: AccountId,
    ratio: u32,
    exposure: ExposureView,
    upto: int,
)
    ensures
        settled(s.slash_validator_actions(stash, ratio, exposure, upto))
            == Seq::<AccountId>::empty(),
    decreases upto,
{
    if upto <= 0 {
        lemma_settled_none(s.slash_individual_actions(stash, spec_part(ratio, exposure.own)));
    } else {
        lemma_slashes_settle_nothing(s, stash, ratio, exposure, upto - 1);
        let more = s.slash_validator(stash, ratio, exposure, upto - 1).slash_individual_actions(
            exposure.others[upto - 1].who,
            spec_part(ratio, exposure.others[upto - 1].value),
        );
        lemma_settled_none(more);
        lemma_settled_concat(s.slash_validator_actions(stash, ratio, exposure, upto - 1), more);
    }
}

/// Handling offences keeps the state's invariant and the accounts that are
/// never slashed.
pub proof fn lemma_on_offences_keep(
    s: ModuleView,
    offenders: Seq<OffenceDetails>,
    slash_fraction: Seq<u32>,
    disabled: Seq<bool>,
    upto: int,
)
    requires
        s.wf(),
    ensures
        on_offences(s, offenders, slash_fraction, disabled, upto).wf(),
        on_offences(s, offenders, slash_fraction, disabled, upto).invulnerables == s.invulnerables,
    decreases upto,
{
    if upto > 0 {
        lemma_on_offences_keep(s, offenders, slash_fraction, disabled, upto - 1);
        let before = on_offences(s, offenders, slash_fraction, disabled, upto - 1);
        lemma_apply_offence_wf(
            before,
            offenders[upto - 1]@,
            slash_fraction[upto - 1],
            disabled[upto - 1],
        );
        lemma_apply_offence_keeps(
            before,
            offenders[upto - 1]@,
            slash_fraction[upto - 1],
            disabled[upto - 1],
        );
    }
}

/// What handling one offence settles: the offender's slash where the offence
/// leads to one, nothing else.
pub proof fn lemma_offence_settles(s: ModuleView, offence: OffenceView, fraction: u32)
    ensures
        settled(s.apply_offence_actions(offence, fraction)) == if s.offence_applies(
            offence,
            fraction,
        ) {
            seq![offence.offender]
        } else {
            Seq::empty()
        },
{
    let more = s.apply_offence_actions(offence, fraction);
    if s.offence_applies(offence, fraction) {
        let slashes = s.slash_validator_actions(
            offence.offender,
            fraction,
            offence.exposure,
            offence.exposure.others.len() as int,
        );
        lemma_slashes_settle_nothing(
            s,
            offence.offender,
            fraction,
            offence.exposure,
            offence.exposure.others.len() as int,
        );
        assert(more.drop_last() =~= slashes);
        assert(settled(more) =~= seq![offence.offender]);
    }
}

/// One more offence settles what `settlements` says of it, in a state that
/// has the same accounts that are never slashed.
pub proof fn lemma_settlement_step(
    s: ModuleView,
    before: ModuleView,
    done: Seq<Action>,
    earlier: Seq<SettlementView>,
    offence: OffenceView,
    fraction: u32,
)
    requires
        before.invulnerables == s.invulnerables,
        settled(done) == earlier.map_values(settlement_offender()),
    ensures
        settled(done + before.apply_offence_actions(offence, fraction)) == (if s.offence_applies(
            offence,
            fraction,
        ) {
            earlier.push(
                SettlementView { offender: offence.offender, reporters: offence.reporters },
            )
        } else {
            earlier
        }).map_values(settlement_offender()),
{
    let more = before.apply_offence_actions(offence, fraction);
    lemma_settled_concat(done, more);
    lemma_offence_settles(before, offence, fraction);
    if s.offence_applies(offence, fraction) {
        assert(earlier.push(
            SettlementView { offender: offence.offender, reporters: offence.reporters },
        ).map_values(settlement_offender()) =~= earlier.map_values(settlement_offender()).push(
            offence.offender,
        ));
        assert(settled(done) + seq![offence.offender] =~= settled(done).push(offence.offender));
    } else {
        assert(settled(done) + Seq::<AccountId>::empty() =~= settled(done));
    }
}

/// The settlements that handling offences asks for are those of
/// `settlements`, offender by offender and in the same order.
#[verifier::rlimit(30)]
pub proof fn lemma_settlements(
    s: ModuleView,
    offenders: Seq<OffenceDetails>,
    slash_fraction: Seq<u32>,
    disabled: Seq<bool>,
    upto: int,
)
    requires
        s.wf(),
    ensures
        settled(on_offences_actions(s, offenders, slash_fraction, disabled, upto)) == settlements(
            s,
            offenders,
            slash_fraction,
            upto,
        ).map_values(settlement_offender()),
    decreases upto,
{
    if upto <= 0 {
        assert(settlements(s, offenders, slash_fraction, upto).map_values(settlement_offender())
            =~= Seq::<AccountId>::empty());
    } else {
        lemma_settlements(s, offenders, slash_fraction, disabled, upto - 1);
        lemma_on_offences_keep(s, offenders, slash_fraction, disabled, upto - 1);
        lemma_settlement_step(
            s,
            on_offences(s, offenders, slash_fraction, disabled, upto - 1),
            on_offences_actions(s, offenders, slash_fraction, disabled, upto - 1),
            settlements(s, offenders, slash_fraction, upto - 1),
            offenders[upto - 1]@,
            slash_fraction[upto - 1],
        );
    }
}

/// Handling an offence leaves the accounts that are never slashed as they
/// are.
pub proof fn lemma_apply_offence_keeps(
    s: ModuleView,
    offence: OffenceView,
    fraction: u32,
    disabled: bool,
)
    requires
        s.wf(),
    ensures
        s.apply_offence(offence, fraction, disabled).invulnerables == s.invulnerables,
{
    if !s.invulnerables.contains(offence.offender) {
        lemma_deselected_wf(s, offence.offender);
        let out = deselected(s, offence.offender);
        let forced = if disabled {
            ModuleView { force_era: spec_ensure_new_era(out.force_era), ..out }
        } else {
            out
        };
        lemma_slash_validator_wf(
            forced,
            offence.offender,
            fraction,
            offence.exposure,
            offence.exposure.others.len() as int,
        );
    }
}

/// What the first `upto` offences do depends on the first `upto` answers
/// only.
pub proof fn lemma_on_offences_prefix(
    s: ModuleView,
    offenders: Seq<OffenceDetails>,
    slash_fraction: Seq<u32>,
    a: Seq<bool>,
    b: Seq<bool>,
    upto: int,
)
    requires
        upto <= a.len(),
        upto <= b.len(),
        forall|i: int| 0 <= i < upto ==> a[i] == b[i],
    ensures
        on_offences(s, offenders, slash_fraction, a, upto) == on_offences(
            s,
            offenders,
            slash_fraction,
            b,
            upto,
        ),
        on_offences_actions(s, offenders, slash_fraction, a, upto) == on_offences_actions(
            s,
            offenders,
            slash_fraction,
            b,
            upto,
        ),
    decreases upto,
{
    if upto > 0 {
        lemma_on_offences_prefix(s, offenders, slash_fraction, a, b, upto - 1);
    }
}

/// Whether `who` is one of the accounts.
pub fn contains_account(accounts: &Vec<AccountId>, who: AccountId) -> (r: bool)
    ensures
        r == accounts@.contains(who),
{
    let n: usize = accounts.len();
    let mut i: usize = 0;
    while i < n
        invariant
            n == accounts@.len(),
            0 <= i <= n,
            forall|k: int| 0 <= k < i ==> accounts@[k] != who,
        decreases n - i,
    {
        if accounts[i] == who {
            return true;
        }
        i += 1;
    }
    false
}

/// Filter historical offences out and only allow those from the current era.
#[derive(Clone, Copy, Debug, PartialEq, Eq)]
pub struct FilterHistoricalOffences;

impl FilterHistoricalOffences {
    /// What becomes of an offence of session `offence_session`: it goes on to
    /// be handled, or it is dropped with an event.
    pub open spec fn spec_report_offence(s: ModuleView, offence_session: SessionIndex) -> Result<
        (),
        Event,
    > {
        if offence_session >= s.current_era_start_session_index {
            Ok(())
        } else {
            Err(Event::OldSlashingReportDiscarded(offence_session))
        }
    }

    /// Decides what becomes of a reported offence of session
    /// `offence_session`: `Ok` where it goes on to be handled, the event to
    /// put on the log where it is older than the current era and dropped.
    pub fn report_offence(module: &Module, offence_session: SessionIndex) -> (r: Result<(), Event>)
        ensures
            r == Self::spec_report_offence(module@, offence_session),
    {
        if offence_session >= module.current_era_start_session_index {
            Ok(())
        } else {
            Err(Event::OldSlashingReportDiscarded(offence_session))
        }
    }
}

} // verus!
