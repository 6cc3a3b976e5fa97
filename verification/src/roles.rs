//! The calls by which a stash takes a role, names its payee or changes its
//! controller, and the calls of the chain's own authority.

use crate::assoc::{lemma_del_all_values, lemma_disjoint_keys, lemma_put_all_values};
use crate::module::{active_kton_of, active_ring_of, prefs_wf, targets_wf, Module, ModuleView};
use crate::per_things::{perbill_from_percent, spec_min};
use crate::sums::{lemma_sum_push, lemma_sum_remove};
use crate::types::{
    ensure_root, ensure_signed, signer, spec_ensure_root, spec_ensure_signed, AccountId, Action,
    Error, Event, Forcing, Origin, RewardDestination, ValidatorPrefs, MAX_NOMINATIONS,
    MAX_UNSTAKE_THRESHOLD,
};
use vstd::prelude::*;

verus! {

/// The preferences of a validator that asks for `unstake_threshold` and for
/// `ratio` hundredths of each reward up-front; at most all of it.
pub open spec fn spec_prefs(ratio: u32, unstake_threshold: u32) -> ValidatorPrefs {
    ValidatorPrefs {
        unstake_threshold,
        validator_payment_ratio: (spec_min(ratio as int, 100) * 10_000_000) as u32,
    }
}

/// The first 16 of the targets.
pub open spec fn spec_targets(targets: Seq<AccountId>) -> Seq<AccountId> {
    if targets.len() <= MAX_NOMINATIONS {
        targets
    } else {
        targets.take(MAX_NOMINATIONS as int)
    }
}

impl ModuleView {
    /// The stash of a controller.
    pub open spec fn stash_of(self, controller: AccountId) -> AccountId {
        self.ledger.get(controller).unwrap().stash
    }

    /// Why a call to validate is refused, if it is.
    pub open spec fn validate_error(self, origin: Origin, unstake_threshold: u32) -> Option<Error> {
        match spec_ensure_signed(origin) {
            Err(e) => Some(e),
            Ok(controller) => if !self.ledger.contains(controller) {
                Some(Error::NotController)
            } else if unstake_threshold > MAX_UNSTAKE_THRESHOLD {
                Some(Error::UnstakeThresholdTooLarge)
            } else {
                None
            },
        }
    }

    /// The state after the stash of `controller` declares that it validates:
    /// it stops nominating, its preferences are recorded, and the controller's
    /// node name is recorded where it had none.
    pub open spec fn validate(
        self,
        controller: AccountId,
        name: Seq<u8>,
        ratio: u32,
        unstake_threshold: u32,
    ) -> ModuleView {
        ModuleView {
            nominators: self.nominators.del(self.stash_of(controller)),
            validators: self.validators.put(
                self.stash_of(controller),
                spec_prefs(ratio, unstake_threshold),
            ),
            node_name: if self.node_name.contains(controller) {
                self.node_name
            } else {
                self.node_name.put(controller, name)
            },
            ..self
        }
    }

    /// What validating asks of the runtime: the event of a first node name.
    pub open spec fn validate_actions(self, controller: AccountId) -> Seq<Action> {
        if self.node_name.contains(controller) {
            Seq::empty()
        } else {
            seq![Action::Deposit { event: Event::NodeNameUpdated }]
        }
    }

    /// Why a call to nominate is refused, if it is.
    pub open spec fn nominate_error(
        self,
        origin: Origin,
        targets: Seq<AccountId>,
    ) -> Option<Error> {
        match spec_ensure_signed(origin) {
            Err(e) => Some(e),
            Ok(controller) => if !self.ledger.contains(controller) {
                Some(Error::NotController)
            } else if targets.len() == 0 {
                Some(Error::EmptyTargets)
            } else {
                None
            },
        }
    }

    /// The state after the stash of `controller` nominates the first 16 of
    /// `targets`: it stops validating.
    pub open spec fn nominate(self, controller: AccountId, targets: Seq<AccountId>) -> ModuleView {
        ModuleView {
            validators: self.validators.del(self.stash_of(controller)),
            nominators: self.nominators.put(self.stash_of(controller), spec_targets(targets)),
            ..self
        }
    }

    /// The state after the stash of `controller` gives up its role.
    pub open spec fn chill(self, controller: AccountId) -> ModuleView {
        ModuleView {
            validators: self.validators.del(self.stash_of(controller)),
            nominators: self.nominators.del(self.stash_of(controller)),
            ..self
        }
    }

    /// The state after the stash of `controller` names where it is paid.
    pub open spec fn set_payee(
        self,
        controller: AccountId,
        payee: RewardDestination,
    ) -> ModuleView {
        ModuleView { payee: self.payee.put(self.stash_of(controller), payee), ..self }
    }

    /// Why a call to change the controller is refused, if it is.
    pub open spec fn set_controller_error(self, origin: Origin, controller: AccountId) -> Option<
        Error,
    > {
        match spec_ensure_signed(origin) {
            Err(e) => Some(e),
            Ok(stash) => if !self.bonded.contains(stash) {
                Some(Error::NotStash)
            } else if self.ledger.contains(controller) {
                Some(Error::AlreadyPaired)
            } else {
                None
            },
        }
    }

    /// The state after `stash` takes `controller` as its controller: the
    /// ledger moves to the new controller.
    pub open spec fn set_controller(self, stash: AccountId, controller: AccountId) -> ModuleView {
        let before = self.bonded.get(stash).unwrap();
        ModuleView {
            bonded: self.bonded.put(stash, controller),
            ledger: match self.ledger.get(before) {
                Some(l) => self.ledger.del(before).put(controller, l),
                None => self.ledger,
            },
            ..self
        }
    }
}

/// A stash that validates and nominates no more keeps the roles in order.
pub proof fn lemma_validate_roles_wf(s: ModuleView, stash: AccountId, prefs: ValidatorPrefs)
    requires
        s.wf(),
        prefs.wf(),
    ensures
        (ModuleView {
            nominators: s.nominators.del(stash),
            validators: s.validators.put(stash, prefs),
            ..s
        }).roles_wf(),
        s.validators.put(stash, prefs).wf(),
        s.nominators.del(stash).wf(),
{
    s.validators.lemma_put(stash, prefs);
    s.nominators.lemma_del(stash);
    lemma_put_all_values(s.validators, stash, prefs, prefs_wf());
    lemma_del_all_values(s.nominators, stash, targets_wf());
    lemma_disjoint_keys(
        s.validators,
        s.nominators,
        s.validators.put(stash, prefs),
        s.nominators.del(stash),
    );
}

/// A stash that nominates and validates no more keeps the roles in order.
pub proof fn lemma_nominate_roles_wf(s: ModuleView, stash: AccountId, targets: Seq<AccountId>)
    requires
        s.wf(),
        1 <= targets.len() <= MAX_NOMINATIONS,
    ensures
        (ModuleView {
            validators: s.validators.del(stash),
            nominators: s.nominators.put(stash, targets),
            ..s
        }).roles_wf(),
        s.validators.del(stash).wf(),
        s.nominators.put(stash, targets).wf(),
{
    s.validators.lemma_del(stash);
    s.nominators.lemma_put(stash, targets);
    lemma_del_all_values(s.validators, stash, prefs_wf());
    lemma_put_all_values(s.nominators, stash, targets, targets_wf());
    lemma_disjoint_keys(
        s.validators,
        s.nominators,
        s.validators.del(stash),
        s.nominators.put(stash, targets),
    );
}

/// A stash that gives up its role keeps the roles in order.
pub proof fn lemma_chill_roles_wf(s: ModuleView, stash: AccountId)
    requires
        s.wf(),
    ensures
        (ModuleView {
            validators: s.validators.del(stash),
            nominators: s.nominators.del(stash),
            ..s
        }).roles_wf(),
        s.validators.del(stash).wf(),
        s.nominators.del(stash).wf(),
{
    s.validators.lemma_del(stash);
    s.nominators.lemma_del(stash);
    lemma_del_all_values(s.validators, stash, prefs_wf());
    lemma_del_all_values(s.nominators, stash, targets_wf());
    lemma_disjoint_keys(
        s.validators,
        s.nominators,
        s.validators.del(stash),
        s.nominators.del(stash),
    );
}

/// A change of controller keeps the state's invariant.
pub proof fn lemma_set_controller_wf(s: ModuleView, stash: AccountId, controller: AccountId)
    requires
        s.wf(),
        s.bonded.contains(stash),
        !s.ledger.contains(controller),
    ensures
        s.set_controller(stash, controller).wf(),
        s.ledger.contains(s.bonded.get(stash).unwrap()),
{
    let t = s.set_controller(stash, controller);
    let j = s.bonded.index(stash);
    let before = s.bonded.vals[j];
    assert(s.ledger.contains(before));
    let i = s.ledger.index(before);
    let l = s.ledger.vals[i];
    assert(l.stash == stash);
    let mid = s.ledger.del(before);
    s.bonded.lemma_put(stash, controller);
    s.ledger.lemma_del(before);
    mid.lemma_put(controller, l);
    lemma_sum_remove(s.ledger.vals, i, active_ring_of());
    lemma_sum_remove(s.ledger.vals, i, active_kton_of());
    lemma_sum_push(mid.vals, l, active_ring_of());
    lemma_sum_push(mid.vals, l, active_kton_of());
    let n = mid.keys.len() as int;
    assert forall|k: int| 0 <= k < t.ledger.vals.len() implies (#[trigger] t.ledger.vals[k]).wf()
        && t.bonded.get(t.ledger.vals[k].stash) == Some(t.ledger.keys[k]) by {
        if k < n {
            let k0 = if k < i {
                k
            } else {
                k + 1
            };
            assert(t.ledger.vals[k] == s.ledger.vals[k0]);
            assert(t.ledger.keys[k] == s.ledger.keys[k0]);
            assert(s.bonded.get(s.ledger.vals[k0].stash) == Some(s.ledger.keys[k0]));
            if s.ledger.vals[k0].stash == stash {
                assert(s.ledger.keys[k0] == before);
                assert(s.ledger.keys[i] == before);
            }
        } else {
            assert(s.ledger.vals[i].wf());
        }
    }
    assert forall|m: int| 0 <= m < t.bonded.keys.len() implies t.ledger.contains(
        #[trigger] t.bonded.vals[m],
    ) && t.ledger.vals[t.ledger.index(t.bonded.vals[m])].stash == t.bonded.keys[m] by {
        if m == j {
            assert(t.bonded.vals[m] == controller);
            assert(t.ledger.get(controller) == Some(l));
        } else {
            assert(t.bonded.vals[m] == s.bonded.vals[m]);
            let c = s.bonded.vals[m];
            assert(s.ledger.contains(c));
            assert(s.ledger.vals[s.ledger.index(c)].stash == s.bonded.keys[m]);
            assert(c != before);
            assert(c != controller);
            assert(mid.get(c) == s.ledger.get(c));
            assert(t.ledger.get(c) == mid.get(c));
        }
    }
}

impl Module {
    /// Declare the desire to validate for the origin controller. `ratio` is
    /// the part of each reward, in hundredths, that the validator takes
    /// up-front. The controller's node name is recorded where it had none.
    pub fn validate(
        &mut self,
        origin: Origin,
        name: Vec<u8>,
        ratio: u32,
        unstake_threshold: u32,
    ) -> (r: Result<Vec<Action>, Error>)
        requires
            old(self)@.wf(),
        ensures
            final(self)@.wf(),
            match r {
                Ok(actions) => {
                    &&& old(self)@.validate_error(origin, unstake_threshold).is_none()
                    &&& final(self)@ == old(self)@.validate(signer(origin), name@, ratio, unstake_threshold)
                    &&& actions@ == old(self)@.validate_actions(signer(origin))
                },
                Err(e) => {
                    &&& old(self)@.validate_error(origin, unstake_threshold) == Some(e)
                    &&& final(self)@ == old(self)@
                },
            },
    {
        let controller: AccountId = match ensure_signed(origin) {
            Ok(who) => who,
            Err(e) => {
                return Err(e);
            },
        };
        let stash: AccountId = match self.ledger.get(controller) {
            Some(l) => l.stash,
            None => {
                return Err(Error::NotController);
            },
        };
        if unstake_threshold > MAX_UNSTAKE_THRESHOLD {
            return Err(Error::UnstakeThresholdTooLarge);
        }
        let prefs = ValidatorPrefs {
            unstake_threshold,
            validator_payment_ratio: perbill_from_percent(ratio),
        };
        proof {
            lemma_validate_roles_wf(self@, stash, prefs);
            self@.node_name.lemma_put(controller, name@);
        }
        let _ = self.nominators.remove(stash);
        self.validators.insert(stash, prefs);
        let mut actions: Vec<Action> = Vec::new();
        if !self.node_name.contains_key(controller) {
            self.node_name.insert(controller, name);
            actions.push(Action::Deposit { event: Event::NodeNameUpdated });
        }
        proof {
            assert(actions@ =~= old(self)@.validate_actions(controller));
        }
        Ok(actions)
    }

    /// Declare the desire to nominate the first 16 of `targets` for the
    /// origin controller.
    pub fn nominate(&mut self, origin: Origin, targets: Vec<AccountId>) -> (r: Result<(), Error>)
        requires
            old(self)@.wf(),
        ensures
            final(self)@.wf(),
            match r {
                Ok(_) => {
                    &&& old(self)@.nominate_error(origin, targets@).is_none()
                    &&& final(self)@ == old(self)@.nominate(signer(origin), targets@)
                },
                Err(e) => {
                    &&& old(self)@.nominate_error(origin, targets@) == Some(e)
                    &&& final(self)@ == old(self)@
                },
            },
    {
        let controller: AccountId = match ensure_signed(origin) {
            Ok(who) => who,
            Err(e) => {
                return Err(e);
            },
        };
        let stash: AccountId = match self.ledger.get(controller) {
            Some(l) => l.stash,
            None => {
                return Err(Error::NotController);
            },
        };
        if targets.len() == 0 {
            return Err(Error::EmptyTargets);
        }
        let mut targets = targets;
        if targets.len() > MAX_NOMINATIONS {
            targets.truncate(MAX_NOMINATIONS);
        }
        proof {
            lemma_nominate_roles_wf(self@, stash, targets@);
        }
        let _ = self.validators.remove(stash);
        self.nominators.insert(stash, targets);
        Ok(())
    }

    /// Declare no desire to either validate or nominate.
    pub fn chill(&mut self, origin: Origin) -> (r: Result<(), Error>)
        requires
            old(self)@.wf(),
        ensures
            final(self)@.wf(),
            match r {
                Ok(_) => {
                    &&& old(self)@.controller_error(origin).is_none()
                    &&& final(self)@ == old(self)@.chill(signer(origin))
                },
                Err(e) => {
                    &&& old(self)@.controller_error(origin) == Some(e)
                    &&& final(self)@ == old(self)@
                },
            },
    {
        let controller: AccountId = match ensure_signed(origin) {
            Ok(who) => who,
            Err(e) => {
                return Err(e);
            },
        };
        let stash: AccountId = match self.ledger.get(controller) {
            Some(l) => l.stash,
            None => {
                return Err(Error::NotController);
            },
        };
        proof {
            lemma_chill_roles_wf(self@, stash);
        }
        let _ = self.validators.remove(stash);
        let _ = self.nominators.remove(stash);
        Ok(())
    }

    /// (Re-)set the payment target for the stash of the origin controller.
    pub fn set_payee(&mut self, origin: Origin, payee: RewardDestination) -> (r: Result<(), Error>)
        requires
            old(self)@.wf(),
        ensures
            final(self)@.wf(),
            match r {
                Ok(_) => {
                    &&& old(self)@.controller_error(origin).is_none()
                    &&& final(self)@ == old(self)@.set_payee(signer(origin), payee)
                },
                Err(e) => {
                    &&& old(self)@.controller_error(origin) == Some(e)
                    &&& final(self)@ == old(self)@
                },
            },
    {
        let controller: AccountId = match ensure_signed(origin) {
            Ok(who) => who,
            Err(e) => {
                return Err(e);
            },
        };
        let stash: AccountId = match self.ledger.get(controller) {
            Some(l) => l.stash,
            None => {
                return Err(Error::NotController);
            },
        };
        proof {
            self@.payee.lemma_put(stash, payee);
        }
        self.payee.insert(stash, payee);
        Ok(())
    }

    /// (Re-)set the controller of the origin stash. The new controller must
    /// have no ledger.
    pub fn set_controller(
        &mut self,
        origin: Origin,
        controller: AccountId,
    ) -> (r: Result<(), Error>)
        requires
            old(self)@.wf(),
        ensures
            final(self)@.wf(),
            match r {
                Ok(_) => {
                    &&& old(self)@.set_controller_error(origin, controller).is_none()
                    &&& final(self)@ == old(self)@.set_controller(signer(origin), controller)
                },
                Err(e) => {
                    &&& old(self)@.set_controller_error(origin, controller) == Some(e)
                    &&& final(self)@ == old(self)@
                },
            },
    {
        let stash: AccountId = match ensure_signed(origin) {
            Ok(who) => who,
            Err(e) => {
                return Err(e);
            },
        };
        let old_controller: AccountId = match self.bonded(stash) {
            Some(c) => c,
            None => {
                return Err(Error::NotStash);
            },
        };
        if self.ledger.contains_key(controller) {
            return Err(Error::AlreadyPaired);
        }
        proof {
            lemma_set_controller_wf(self@, stash, controller);
            self@.ledger.lemma_del(old_controller);
        }
        if controller != old_controller {
            self.bonded.insert(stash, controller);
            match self.ledger.remove(old_controller) {
                Some(l) => {
                    self.ledger.insert(controller, l);
                },
                None => {},
            }
        }
        Ok(())
    }

    /// Sets the ideal number of validators.
    pub fn set_validator_count(&mut self, origin: Origin, new: u32) -> (r: Result<(), Error>)
        ensures
            r == spec_ensure_root(origin),
            final(self)@ == if r.is_ok() {
                ModuleView { validator_count: new, ..old(self)@ }
            } else {
                old(self)@
            },
            old(self)@.wf() ==> final(self)@.wf(),
    {
        match ensure_root(origin) {
            Ok(_) => {
                self.validator_count = new;
                Ok(())
            },
            Err(e) => Err(e),
        }
    }

    /// Forces a new era at the end of the next session: the forcing mode
    /// becomes `ForceNew`.
    pub fn force_new_era(&mut self, origin: Origin) -> (r: Result<(), Error>)
        ensures
            r == spec_ensure_root(origin),
            final(self)@ == if r.is_ok() {
                ModuleView { force_era: Forcing::ForceNew, ..old(self)@ }
            } else {
                old(self)@
            },
            old(self)@.wf() ==> final(self)@.wf(),
    {
        match ensure_root(origin) {
            Ok(_) => {
                self.force_era = Forcing::ForceNew;
                Ok(())
            },
            Err(e) => Err(e),
        }
    }

    /// Set the validators who cannot be slashed (if any).
    pub fn set_invulnerables(&mut self, origin: Origin, validators: Vec<AccountId>) -> (r: Result<
        (),
        Error,
    >)
        ensures
            r == spec_ensure_root(origin),
            final(self)@ == if r.is_ok() {
                ModuleView { invulnerables: validators@, ..old(self)@ }
            } else {
                old(self)@
            },
            old(self)@.wf() ==> final(self)@.wf(),
    {
        match ensure_root(origin) {
            Ok(_) => {
                self.invulnerables = validators;
                Ok(())
            },
            Err(e) => Err(e),
        }
    }
}

} // verus!
