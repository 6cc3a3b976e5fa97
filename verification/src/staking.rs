//! The calls that bond, unbond, deposit and withdraw.

use crate::ledger::{
    chunk_kton, chunk_ring, deposit_value, lemma_clear_mature_wf, lemma_promised_wf,
    lemma_withdraw_unbonded_wf, min_balance, LedgerView, StakingLedgers, TimeDepositItem,
    UnlockChunk,
};
use crate::module::{active_kton_of, active_ring_of, lemma_pool_bounds, Module, ModuleView};
use crate::sums::{lemma_sum_empty, lemma_sum_push};
use crate::types::{
    ensure_signed, origin_error, signer, spec_ensure_signed, AccountId, Action, Balance, EraIndex,
    Error, Moment, Origin, RewardDestination, StakingBalance, MAX_PROMISE_MONTHS,
    MAX_UNLOCKING_CHUNKS, MIN_DEPOSIT_MONTHS, MONTH_IN_SECONDS,
};
use vstd::prelude::*;

verus! {

/// The lock that keeps the ledger's total of the currency of `value` in the
/// stash.
pub open spec fn lock_action(l: LedgerView, value: StakingBalance) -> Action {
    match value {
        StakingBalance::Ring(_) => Action::SetRingLock { who: l.stash, amount: l.total_ring },
        StakingBalance::Kton(_) => Action::SetKtonLock { who: l.stash, amount: l.total_kton },
    }
}

/// What bonding Ring asks of the runtime: the Kton that a deposit earns, then
/// the lock on the ledger's total Ring.
pub open spec fn bond_ring_actions(l: LedgerView, value: Balance, months: u32) -> Seq<Action> {
    if months >= MIN_DEPOSIT_MONTHS {
        seq![
            Action::MintKton { who: l.stash, amount: LedgerView::bond_bonus(value, months) },
            Action::SetRingLock { who: l.stash, amount: l.total_ring },
        ]
    } else {
        seq![Action::SetRingLock { who: l.stash, amount: l.total_ring }]
    }
}

/// The fines of a punished claim as what the runtime has to take.
pub open spec fn fine_actions(stash: AccountId, fines: Seq<Balance>) -> Seq<Action> {
    Seq::new(fines.len(), |i: int| Action::SlashKton { who: stash, amount: fines[i] })
}

/// The time of a promise of `months` months made at `now` can be written.
pub open spec fn promise_fits(months: u32, now: Moment) -> bool {
    now + months * MONTH_IN_SECONDS <= u64::MAX
}

/// The time of a promise that makes a deposit can be written: nothing is
/// asked of a promise that makes none or is refused.
pub open spec fn deposit_fits(months: u32, now: Moment) -> bool {
    MIN_DEPOSIT_MONTHS <= months <= MAX_PROMISE_MONTHS ==> promise_fits(months, now)
}

/// The era in which what starts unbonding now is free.
pub open spec fn spec_unlock_era(current_era: EraIndex, bonding_duration: EraIndex) -> EraIndex {
    if current_era + bonding_duration > u32::MAX {
        u32::MAX
    } else {
        (current_era + bonding_duration) as EraIndex
    }
}

impl ModuleView {
    /// Why a call to bond is refused, if it is.
    pub open spec fn bond_error(self, origin: Origin, controller: AccountId, months: u32) -> Option<
        Error,
    > {
        match spec_ensure_signed(origin) {
            Err(e) => Some(e),
            Ok(stash) => if months > MAX_PROMISE_MONTHS {
                Some(Error::MonthsTooLong)
            } else if self.bonded.contains(stash) {
                Some(Error::AlreadyBonded)
            } else if self.ledger.contains(controller) {
                Some(Error::AlreadyPaired)
            } else {
                None
            },
        }
    }

    /// The first ledger of a stash that bonds `value`, of which it has `free`.
    pub open spec fn first_ledger(
        stash: AccountId,
        value: StakingBalance,
        months: u32,
        now: Moment,
        free: Balance,
    ) -> LedgerView {
        match value {
            StakingBalance::Ring(r) => LedgerView::empty(stash).bond_ring(
                min_balance(r, free),
                months,
                now,
            ),
            StakingBalance::Kton(k) => LedgerView::empty(stash).bond_kton(min_balance(k, free)),
        }
    }

    /// The pool of the currency of `value` can take what a stash with `free`
    /// bonds of it.
    pub open spec fn bond_fits(self, value: StakingBalance, free: Balance) -> bool {
        match value {
            StakingBalance::Ring(r) => self.ring_pool + min_balance(r, free) <= u128::MAX,
            StakingBalance::Kton(k) => self.kton_pool + min_balance(k, free) <= u128::MAX,
        }
    }

    /// The state with a new pair of stash and controller and its ledger.
    pub open spec fn with_pair(
        self,
        stash: AccountId,
        controller: AccountId,
        payee: RewardDestination,
        l: LedgerView,
    ) -> ModuleView {
        ModuleView {
            bonded: self.bonded.put(stash, controller),
            payee: self.payee.put(stash, payee),
            ledger: self.ledger.put(controller, l),
            ring_pool: (self.ring_pool + l.active_ring) as Balance,
            kton_pool: (self.kton_pool + l.active_kton) as Balance,
            ..self
        }
    }

    /// The state after `stash` bonds `value`, of which it has `free`, with
    /// `controller` as its controller.
    pub open spec fn bond(
        self,
        stash: AccountId,
        controller: AccountId,
        value: StakingBalance,
        payee: RewardDestination,
        months: u32,
        now: Moment,
        free: Balance,
    ) -> ModuleView {
        self.with_pair(stash, controller, payee, Self::first_ledger(stash, value, months, now, free))
    }

    /// What bonding asks of the runtime.
    pub open spec fn bond_actions(
        stash: AccountId,
        value: StakingBalance,
        months: u32,
        now: Moment,
        free: Balance,
    ) -> Seq<Action> {
        let l = Self::first_ledger(stash, value, months, now, free);
        match value {
            StakingBalance::Ring(r) => bond_ring_actions(l, min_balance(r, free), months),
            StakingBalance::Kton(_) => seq![lock_action(l, value)],
        }
    }

    /// Why a call to bond more is refused, if it is.
    pub open spec fn bond_extra_error(self, origin: Origin, months: u32) -> Option<Error> {
        match spec_ensure_signed(origin) {
            Err(e) => Some(e),
            Ok(stash) => if months > MAX_PROMISE_MONTHS {
                Some(Error::MonthsTooLong)
            } else if !self.bonded.contains(stash) {
                Some(Error::NotStash)
            } else if self.ledger_of_stash(stash).is_none() {
                Some(Error::NotController)
            } else {
                None
            },
        }
    }

    /// How much more a ledger can bond of `value` when its stash has `free`:
    /// what the stash has beyond the ledger's total, at most `value`. `None`
    /// where the stash has less than the ledger's total.
    pub open spec fn extra(l: LedgerView, value: StakingBalance, free: Balance) -> Option<Balance> {
        match value {
            StakingBalance::Ring(r) => if free >= l.total_ring {
                Some(min_balance((free - l.total_ring) as Balance, r))
            } else {
                None
            },
            StakingBalance::Kton(k) => if free >= l.total_kton {
                Some(min_balance((free - l.total_kton) as Balance, k))
            } else {
                None
            },
        }
    }

    /// The pool of the currency of `value` can take what the ledger of
    /// `stash` bonds more of it.
    pub open spec fn bond_extra_fits(
        self,
        stash: AccountId,
        value: StakingBalance,
        free: Balance,
    ) -> bool {
        match (value, Self::extra(self.ledger_of_stash(stash).unwrap(), value, free)) {
            (StakingBalance::Ring(_), Some(extra)) => self.ring_pool + extra <= u128::MAX,
            (StakingBalance::Kton(_), Some(extra)) => self.kton_pool + extra <= u128::MAX,
            (_, None) => true,
        }
    }

    /// The ledger after it bonds more.
    pub open spec fn extra_ledger(
        l: LedgerView,
        value: StakingBalance,
        months: u32,
        now: Moment,
        free: Balance,
    ) -> LedgerView {
        match (value, Self::extra(l, value, free)) {
            (StakingBalance::Ring(_), Some(extra)) => l.bond_ring(extra, months, now),
            (StakingBalance::Kton(_), Some(extra)) => l.bond_kton(extra),
            (_, None) => l,
        }
    }

    /// The state after `stash` bonds more of `value`, of which it has `free`.
    pub open spec fn bond_extra(
        self,
        stash: AccountId,
        value: StakingBalance,
        months: u32,
        now: Moment,
        free: Balance,
    ) -> ModuleView {
        let l = self.ledger_of_stash(stash).unwrap();
        match Self::extra(l, value, free) {
            Some(_) => self.with_ledger(
                self.bonded.get(stash).unwrap(),
                Self::extra_ledger(l, value, months, now, free),
            ),
            None => self,
        }
    }

    /// What bonding more asks of the runtime.
    pub open spec fn bond_extra_actions(
        self,
        stash: AccountId,
        value: StakingBalance,
        months: u32,
        now: Moment,
        free: Balance,
    ) -> Seq<Action> {
        let l = self.ledger_of_stash(stash).unwrap();
        let after = Self::extra_ledger(l, value, months, now, free);
        match (value, Self::extra(l, value, free)) {
            (StakingBalance::Ring(_), Some(extra)) => bond_ring_actions(after, extra, months),
            (StakingBalance::Kton(_), Some(_)) => seq![lock_action(after, value)],
            (_, None) => Seq::empty(),
        }
    }

    /// Why a call of a controller on its ledger is refused, if it is.
    pub open spec fn controller_error(self, origin: Origin) -> Option<Error> {
        match spec_ensure_signed(origin) {
            Err(e) => Some(e),
            Ok(controller) => if self.ledger.contains(controller) {
                None
            } else {
                Some(Error::NotController)
            },
        }
    }

    /// Why a call to unbond is refused, if it is.
    pub open spec fn unbond_error(self, origin: Origin) -> Option<Error> {
        match spec_ensure_signed(origin) {
            Err(e) => Some(e),
            Ok(controller) => match self.ledger.get(controller) {
                None => Some(Error::NotController),
                Some(l) => if l.unlocking.len() >= MAX_UNLOCKING_CHUNKS {
                    Some(Error::NoMoreChunks)
                } else {
                    None
                },
            },
        }
    }

    /// The era in which what starts unbonding now is free.
    pub open spec fn unlock_era(self) -> EraIndex {
        spec_unlock_era(self.current_era, self.bonding_duration)
    }

    /// The ledger of `controller` after its mature deposits are cleared and
    /// as much of `value` as can be starts unbonding.
    pub open spec fn unbond_ledger(
        self,
        controller: AccountId,
        value: StakingBalance,
        now: Moment,
    ) -> LedgerView {
        self.ledger.get(controller).unwrap().clear_mature(now).unbond(value, self.unlock_era())
    }

    /// The state after `controller` unbonds `value`.
    pub open spec fn unbond(
        self,
        controller: AccountId,
        value: StakingBalance,
        now: Moment,
    ) -> ModuleView {
        self.with_ledger(controller, self.unbond_ledger(controller, value, now))
    }

    /// Whether an amount is nothing.
    pub open spec fn is_zero(value: StakingBalance) -> bool {
        match value {
            StakingBalance::Ring(r) => r == 0,
            StakingBalance::Kton(k) => k == 0,
        }
    }

    /// What unbonding asks of the runtime: the lock again, where anything
    /// started unbonding.
    pub open spec fn unbond_actions(
        self,
        controller: AccountId,
        value: StakingBalance,
        now: Moment,
    ) -> Seq<Action> {
        let cleared = self.ledger.get(controller).unwrap().clear_mature(now);
        if Self::is_zero(cleared.unbondable(value)) {
            Seq::empty()
        } else {
            seq![lock_action(self.unbond_ledger(controller, value, now), value)]
        }
    }

    /// Why a call to deposit more is refused, if it is.
    pub open spec fn deposit_extra_error(self, origin: Origin, months: u32) -> Option<Error> {
        match spec_ensure_signed(origin) {
            Err(e) => Some(e),
            Ok(controller) => if months > MAX_PROMISE_MONTHS {
                Some(Error::MonthsTooLong)
            } else if !self.ledger.contains(controller) {
                Some(Error::NotController)
            } else {
                None
            },
        }
    }

    /// The state after `controller` turns `value` of its normal Ring into a
    /// deposit: the mature deposits are cleared first.
    pub open spec fn deposit_extra(
        self,
        controller: AccountId,
        value: Balance,
        months: u32,
        now: Moment,
    ) -> ModuleView {
        self.with_ledger(
            controller,
            self.ledger.get(controller).unwrap().clear_mature(now).deposit_extra(value, months, now),
        )
    }

    /// What depositing more asks of the runtime: the Kton that the deposit
    /// earns.
    pub open spec fn deposit_extra_actions(
        self,
        controller: AccountId,
        value: Balance,
        months: u32,
        now: Moment,
    ) -> Seq<Action> {
        let cleared = self.ledger.get(controller).unwrap().clear_mature(now);
        if months >= MIN_DEPOSIT_MONTHS {
            seq![
                Action::MintKton {
                    who: cleared.stash,
                    amount: LedgerView::bond_bonus(cleared.depositable(value), months),
                },
            ]
        } else {
            Seq::empty()
        }
    }

    /// The state after the mature deposits of `who` are cleared. An account
    /// without a ledger changes nothing.
    pub open spec fn clear_mature_deposits(self, who: AccountId, now: Moment) -> ModuleView {
        match self.ledger.get(who) {
            Some(l) => self.with_ledger(who, l.clear_mature(now)),
            None => self,
        }
    }

    /// Why a punished claim is refused, if it is.
    pub open spec fn claim_with_punish_error(
        self,
        origin: Origin,
        expire_time: Moment,
        now: Moment,
    ) -> Option<Error> {
        match spec_ensure_signed(origin) {
            Err(e) => Some(e),
            Ok(controller) => if !self.ledger.contains(controller) {
                Some(Error::NotController)
            } else if expire_time <= now {
                Some(Error::DepositExpired)
            } else {
                None
            },
        }
    }

    /// The state after `controller` claims the deposits that expire at
    /// `expire_time`.
    pub open spec fn claim_deposits_with_punish(
        self,
        controller: AccountId,
        expire_time: Moment,
        now: Moment,
        free: Balance,
        locked: Balance,
    ) -> ModuleView {
        self.with_ledger(
            controller,
            self.ledger.get(controller).unwrap().claim_with_punish(expire_time, now, free, locked),
        )
    }

    /// What a punished claim asks of the runtime: the fines, in order.
    pub open spec fn claim_deposits_with_punish_actions(
        self,
        controller: AccountId,
        expire_time: Moment,
        now: Moment,
        free: Balance,
        locked: Balance,
    ) -> Seq<Action> {
        let l = self.ledger.get(controller).unwrap();
        fine_actions(l.stash, l.claim_fines(expire_time, now, free, locked))
    }

    /// The state after `controller` withdraws what is due: the stash is
    /// removed where its ledger is left empty.
    pub open spec fn withdraw_unbonded(self, controller: AccountId) -> ModuleView {
        let l = self.ledger.get(controller).unwrap();
        let after = l.withdraw_unbonded(self.current_era);
        if after.is_empty() {
            self.kill_stash(l.stash)
        } else {
            self.with_ledger(controller, after)
        }
    }

    /// What withdrawing asks of the runtime: the locks go where the stash is
    /// removed; else the lock of each currency of which a chunk left is set
    /// again.
    pub open spec fn withdraw_unbonded_actions(self, controller: AccountId) -> Seq<Action> {
        let l = self.ledger.get(controller).unwrap();
        let after = l.withdraw_unbonded(self.current_era);
        if after.is_empty() {
            seq![Action::RemoveRingLock { who: l.stash }, Action::RemoveKtonLock { who: l.stash }]
        } else {
            (if l.ring_is_due(self.current_era) {
                seq![Action::SetRingLock { who: l.stash, amount: after.total_ring }]
            } else {
                Seq::empty()
            }) + (if l.kton_is_due(self.current_era) {
                seq![Action::SetKtonLock { who: l.stash, amount: after.total_kton }]
            } else {
                Seq::empty()
            })
        }
    }
}

/// A new pair of stash and controller with a well-formed ledger of the stash
/// keeps the state's invariant.
pub proof fn lemma_with_pair_wf(
    s: ModuleView,
    stash: AccountId,
    controller: AccountId,
    payee: RewardDestination,
    l: LedgerView,
)
    requires
        s.wf(),
        !s.bonded.contains(stash),
        !s.ledger.contains(controller),
        l.wf(),
        l.stash == stash,
        s.ring_pool + l.active_ring <= u128::MAX,
        s.kton_pool + l.active_kton <= u128::MAX,
    ensures
        s.with_pair(stash, controller, payee, l).wf(),
{
    let t = s.with_pair(stash, controller, payee, l);
    s.bonded.lemma_put(stash, controller);
    s.payee.lemma_put(stash, payee);
    s.ledger.lemma_put(controller, l);
    lemma_sum_push(s.ledger.vals, l, active_ring_of());
    lemma_sum_push(s.ledger.vals, l, active_kton_of());
    let n = s.ledger.keys.len() as int;
    let m = s.bonded.keys.len() as int;
    assert forall|k: int| 0 <= k < t.ledger.vals.len() implies (#[trigger] t.ledger.vals[k]).wf()
        && t.bonded.get(t.ledger.vals[k].stash) == Some(t.ledger.keys[k]) by {
        if k < n {
            assert(t.ledger.vals[k] == s.ledger.vals[k]);
            assert(t.ledger.keys[k] == s.ledger.keys[k]);
            assert(s.bonded.get(s.ledger.vals[k].stash) == Some(s.ledger.keys[k]));
        }
    }
    assert forall|j: int| 0 <= j < t.bonded.keys.len() implies t.ledger.contains(
        #[trigger] t.bonded.vals[j],
    ) && t.ledger.vals[t.ledger.index(t.bonded.vals[j])].stash == t.bonded.keys[j] by {
        if j < m {
            assert(t.bonded.vals[j] == s.bonded.vals[j]);
            assert(t.bonded.keys[j] == s.bonded.keys[j]);
            let c = s.bonded.vals[j];
            assert(s.ledger.contains(c));
            assert(c != controller);
            assert(t.ledger.get(c) == s.ledger.get(c));
        } else {
            assert(t.bonded.vals[j] == controller);
            assert(t.ledger.get(controller) == Some(l));
        }
    }
}

/// The first ledger of a stash is well formed.
pub proof fn lemma_first_ledger_wf(
    stash: AccountId,
    value: StakingBalance,
    months: u32,
    now: Moment,
    free: Balance,
)
    requires
        months <= MAX_PROMISE_MONTHS,
        value is Ring && months >= MIN_DEPOSIT_MONTHS ==> promise_fits(months, now),
    ensures
        ModuleView::first_ledger(stash, value, months, now, free).wf(),
        ModuleView::first_ledger(stash, value, months, now, free).stash == stash,
{
    let e = LedgerView::empty(stash);
    lemma_sum_empty::<TimeDepositItem>(deposit_value());
    lemma_sum_empty::<UnlockChunk>(chunk_ring());
    lemma_sum_empty::<UnlockChunk>(chunk_kton());
    assert(e.wf());
    match value {
        StakingBalance::Ring(r) => {
            if months >= MIN_DEPOSIT_MONTHS {
                lemma_promised_wf(min_balance(r, free), now, months);
                lemma_sum_push(
                    e.deposit_items,
                    TimeDepositItem::promised(min_balance(r, free), now, months),
                    deposit_value(),
                );
            }
        },
        StakingBalance::Kton(k) => {},
    }
}

impl Module {
    /// Puts `ledger` in the place of the ledger of `controller`, moves the
    /// pools by what the active balances moved, and returns the lock that
    /// keeps the ledger's total of the currency of `staking_balance` in the
    /// stash.
    pub fn update_ledger(
        &mut self,
        controller: AccountId,
        ledger: StakingLedgers,
        staking_balance: StakingBalance,
    ) -> (lock: Action)
        requires
            old(self)@.wf(),
            old(self)@.ledger.contains(controller),
            ledger@.wf(),
            ledger@.stash == old(self)@.ledger_of(controller).unwrap().stash,
            old(self)@.ring_pool - old(self)@.ledger_of(controller).unwrap().active_ring
                + ledger@.active_ring <= u128::MAX,
            old(self)@.kton_pool - old(self)@.ledger_of(controller).unwrap().active_kton
                + ledger@.active_kton <= u128::MAX,
        ensures
            final(self)@ == old(self)@.with_ledger(controller, ledger@),
            final(self)@.wf(),
            lock == lock_action(ledger@, staking_balance),
    {
        let lock = match staking_balance {
            StakingBalance::Ring(_) => Action::SetRingLock {
                who: ledger.stash,
                amount: ledger.total_ring,
            },
            StakingBalance::Kton(_) => Action::SetKtonLock {
                who: ledger.stash,
                amount: ledger.total_kton,
            },
        };
        self.store_ledger(controller, ledger);
        lock
    }

    /// Take the origin account as a stash and lock up `value` of its balance.
    /// `controller` will be the account that controls it. At most the stash's
    /// free balance `free_balance` of the currency is bonded. Ring bonded with
    /// a promise of three months and more is a time deposit and earns Kton.
    pub fn bond(
        &mut self,
        origin: Origin,
        controller: AccountId,
        value: StakingBalance,
        payee: RewardDestination,
        promise_month: u32,
        now: Moment,
        free_balance: Balance,
    ) -> (r: Result<Vec<Action>, Error>)
        requires
            old(self)@.wf(),
            old(self)@.bond_fits(value, free_balance),
            value is Ring ==> deposit_fits(promise_month, now),
        ensures
            final(self)@.wf(),
            match r {
                Ok(actions) => {
                    &&& old(self)@.bond_error(origin, controller, promise_month).is_none()
                    &&& final(self)@ == old(self)@.bond(
                        signer(origin),
                        controller,
                        value,
                        payee,
                        promise_month,
                        now,
                        free_balance,
                    )
                    &&& actions@ == ModuleView::bond_actions(
                        signer(origin),
                        value,
                        promise_month,
                        now,
                        free_balance,
                    )
                },
                Err(e) => {
                    &&& old(self)@.bond_error(origin, controller, promise_month) == Some(e)
                    &&& final(self)@ == old(self)@
                },
            },
    {
        let stash: AccountId = match ensure_signed(origin) {
            Ok(who) => who,
            Err(e) => {
                return Err(e);
            },
        };
        if promise_month > MAX_PROMISE_MONTHS {
            return Err(Error::MonthsTooLong);
        }
        if self.bonded.contains_key(stash) {
            return Err(Error::AlreadyBonded);
        }
        if self.ledger.contains_key(controller) {
            return Err(Error::AlreadyPaired);
        }
        proof {
            lemma_first_ledger_wf(stash, value, promise_month, now, free_balance);
            lemma_with_pair_wf(
                self@,
                stash,
                controller,
                payee,
                ModuleView::first_ledger(stash, value, promise_month, now, free_balance),
            );
        }
        let mut ledger = StakingLedgers::new(stash);
        let mut actions: Vec<Action> = Vec::new();
        match value {
            StakingBalance::Ring(r) => {
                let value: Balance = if r <= free_balance {
                    r
                } else {
                    free_balance
                };
                let bonus: Balance = ledger.bond_ring(value, promise_month, now);
                if promise_month >= MIN_DEPOSIT_MONTHS {
                    actions.push(Action::MintKton { who: stash, amount: bonus });
                }
                actions.push(Action::SetRingLock { who: stash, amount: ledger.total_ring });
            },
            StakingBalance::Kton(k) => {
                let value: Balance = if k <= free_balance {
                    k
                } else {
                    free_balance
                };
                ledger.bond_kton(value);
                actions.push(Action::SetKtonLock { who: stash, amount: ledger.total_kton });
            },
        }
        self.ring_pool = self.ring_pool + ledger.active_ring;
        self.kton_pool = self.kton_pool + ledger.active_kton;
        self.bonded.insert(stash, controller);
        self.payee.insert(stash, payee);
        self.ledger.insert(controller, ledger);
        proof {
            assert(actions@ =~= ModuleView::bond_actions(
                stash,
                value,
                promise_month,
                now,
                free_balance,
            ));
        }
        Ok(actions)
    }

    /// Add some extra amount that has appeared in the stash's free balance
    /// into the balance up for staking: at most what the stash has beyond the
    /// ledger's total. Nothing happens where it has less than that total.
    pub fn bond_extra(
        &mut self,
        origin: Origin,
        value: StakingBalance,
        promise_month: u32,
        now: Moment,
        free_balance: Balance,
    ) -> (r: Result<Vec<Action>, Error>)
        requires
            old(self)@.wf(),
            old(self)@.bond_extra_error(origin, promise_month).is_none() ==> old(
                self,
            )@.bond_extra_fits(signer(origin), value, free_balance),
            value is Ring ==> deposit_fits(promise_month, now),
        ensures
            final(self)@.wf(),
            match r {
                Ok(actions) => {
                    &&& old(self)@.bond_extra_error(origin, promise_month).is_none()
                    &&& final(self)@ == old(self)@.bond_extra(
                        signer(origin),
                        value,
                        promise_month,
                        now,
                        free_balance,
                    )
                    &&& actions@ == old(self)@.bond_extra_actions(
                        signer(origin),
                        value,
                        promise_month,
                        now,
                        free_balance,
                    )
                },
                Err(e) => {
                    &&& old(self)@.bond_extra_error(origin, promise_month) == Some(e)
                    &&& final(self)@ == old(self)@
                },
            },
    {
        let stash: AccountId = match ensure_signed(origin) {
            Ok(who) => who,
            Err(e) => {
                return Err(e);
            },
        };
        if promise_month > MAX_PROMISE_MONTHS {
            return Err(Error::MonthsTooLong);
        }
        let controller: AccountId = match self.bonded(stash) {
            Some(c) => c,
            None => {
                return Err(Error::NotStash);
            },
        };
        let mut ledger = match self.ledger(controller) {
            Some(l) => l,
            None => {
                return Err(Error::NotController);
            },
        };
        let mut actions: Vec<Action> = Vec::new();
        proof {
            lemma_pool_bounds(self@, self@.ledger.index(controller));
        }
        match value {
            StakingBalance::Ring(r) => {
                if free_balance >= ledger.total_ring {
                    let room: Balance = free_balance - ledger.total_ring;
                    let extra: Balance = if room <= r {
                        room
                    } else {
                        r
                    };
                    let bonus: Balance = ledger.bond_ring(extra, promise_month, now);
                    if promise_month >= MIN_DEPOSIT_MONTHS {
                        actions.push(Action::MintKton { who: ledger.stash, amount: bonus });
                    }
                    let lock = self.update_ledger(controller, ledger, value);
                    actions.push(lock);
                }
            },
            StakingBalance::Kton(k) => {
                if free_balance >= ledger.total_kton {
                    let room: Balance = free_balance - ledger.total_kton;
                    let extra: Balance = if room <= k {
                        room
                    } else {
                        k
                    };
                    ledger.bond_kton(extra);
                    let lock = self.update_ledger(controller, ledger, value);
                    actions.push(lock);
                }
            },
        }
        proof {
            assert(actions@ =~= old(self)@.bond_extra_actions(
                stash,
                value,
                promise_month,
                now,
                free_balance,
            ));
        }
        Ok(actions)
    }

    /// Schedule a portion of the stash to be unlocked ready for transfer out
    /// after the bond period ends. The mature deposits are cleared first. Of
    /// Ring, only the normal active Ring can be unbonded.
    pub fn unbond(&mut self, origin: Origin, value: StakingBalance, now: Moment) -> (r: Result<
        Vec<Action>,
        Error,
    >)
        requires
            old(self)@.wf(),
        ensures
            final(self)@.wf(),
            match r {
                Ok(actions) => {
                    &&& old(self)@.unbond_error(origin).is_none()
                    &&& final(self)@ == old(self)@.unbond(signer(origin), value, now)
                    &&& actions@ == old(self)@.unbond_actions(signer(origin), value, now)
                },
                Err(e) => {
                    &&& old(self)@.unbond_error(origin) == Some(e)
                    &&& final(self)@ == old(self)@
                },
            },
    {
        let controller: AccountId = match ensure_signed(origin) {
            Ok(who) => who,
            Err(e) => {
                return Err(e);
            },
        };
        let mut ledger = match self.ledger(controller) {
            Some(l) => l,
            None => {
                return Err(Error::NotController);
            },
        };
        if ledger.unlocking.len() >= MAX_UNLOCKING_CHUNKS {
            return Err(Error::NoMoreChunks);
        }
        proof {
            lemma_pool_bounds(self@, self@.ledger.index(controller));
            lemma_clear_mature_wf(ledger@, now);
        }
        let era: EraIndex = self.current_era.saturating_add(self.bonding_duration);
        ledger.clear_mature_deposits(now);
        let taken = ledger.unbond(value, era);
        let nothing: bool = match taken {
            StakingBalance::Ring(r) => r == 0,
            StakingBalance::Kton(k) => k == 0,
        };
        let mut actions: Vec<Action> = Vec::new();
        let lock = self.update_ledger(controller, ledger, value);
        if !nothing {
            actions.push(lock);
        }
        proof {
            assert(actions@ =~= old(self)@.unbond_actions(controller, value, now));
        }
        Ok(actions)
    }

    /// Turns normal active Ring of the ledger into a time deposit of
    /// `promise_month` months. The mature deposits are cleared first; a
    /// promise under three months makes no deposit.
    pub fn deposit_extra(
        &mut self,
        origin: Origin,
        value: Balance,
        promise_month: u32,
        now: Moment,
    ) -> (r: Result<Vec<Action>, Error>)
        requires
            old(self)@.wf(),
            deposit_fits(promise_month, now),
        ensures
            final(self)@.wf(),
            match r {
                Ok(actions) => {
                    &&& old(self)@.deposit_extra_error(origin, promise_month).is_none()
                    &&& final(self)@ == old(self)@.deposit_extra(signer(origin), value, promise_month, now)
                    &&& actions@ == old(self)@.deposit_extra_actions(
                        signer(origin),
                        value,
                        promise_month,
                        now,
                    )
                },
                Err(e) => {
                    &&& old(self)@.deposit_extra_error(origin, promise_month) == Some(e)
                    &&& final(self)@ == old(self)@
                },
            },
    {
        let controller: AccountId = match ensure_signed(origin) {
            Ok(who) => who,
            Err(e) => {
                return Err(e);
            },
        };
        if promise_month > MAX_PROMISE_MONTHS {
            return Err(Error::MonthsTooLong);
        }
        let mut ledger = match self.ledger(controller) {
            Some(l) => l,
            None => {
                return Err(Error::NotController);
            },
        };
        proof {
            lemma_pool_bounds(self@, self@.ledger.index(controller));
        }
        ledger.clear_mature_deposits(now);
        let bonus: Balance = ledger.deposit_extra(value, promise_month, now);
        let mut actions: Vec<Action> = Vec::new();
        if promise_month >= MIN_DEPOSIT_MONTHS {
            actions.push(Action::MintKton { who: ledger.stash, amount: bonus });
        }
        self.store_ledger(controller, ledger);
        proof {
            assert(actions@ =~= old(self)@.deposit_extra_actions(
                controller,
                value,
                promise_month,
                now,
            ));
        }
        Ok(actions)
    }

    /// Drops every deposit of the ledger of `who` that has expired at `now`.
    /// An account without a ledger changes nothing.
    pub fn clear_mature_deposits(&mut self, who: AccountId, now: Moment)
        requires
            old(self)@.wf(),
        ensures
            final(self)@ == old(self)@.clear_mature_deposits(who, now),
            final(self)@.wf(),
    {
        match self.ledger(who) {
            Some(l) => {
                let mut ledger = l;
                proof {
                    lemma_pool_bounds(self@, self@.ledger.index(who));
                }
                ledger.clear_mature_deposits(now);
                self.store_ledger(who, ledger);
            },
            None => {},
        }
    }

    /// Clears the mature deposits of the caller's ledger.
    pub fn claim_mature_deposits(&mut self, origin: Origin, now: Moment) -> (r: Result<(), Error>)
        requires
            old(self)@.wf(),
        ensures
            final(self)@.wf(),
            match r {
                Ok(_) => {
                    &&& origin is Signed
                    &&& final(self)@ == old(self)@.clear_mature_deposits(signer(origin), now)
                },
                Err(e) => {
                    &&& origin_error(origin) == Some(e)
                    &&& final(self)@ == old(self)@
                },
            },
    {
        match ensure_signed(origin) {
            Ok(controller) => {
                self.clear_mature_deposits(controller, now);
                Ok(())
            },
            Err(e) => Err(e),
        }
    }

    /// Claims the deposits that expire at `expire_time` before they expire,
    /// for a fine in Kton: three times what a deposit of the months that are
    /// left earns. `free_kton` is the stash's free Kton and `locked_kton` what
    /// of it must stay in the account. A deposit whose fine the stash cannot
    /// pay stays in place.
    pub fn claim_deposits_with_punish(
        &mut self,
        origin: Origin,
        expire_time: Moment,
        now: Moment,
        free_kton: Balance,
        locked_kton: Balance,
    ) -> (r: Result<Vec<Action>, Error>)
        requires
            old(self)@.wf(),
        ensures
            final(self)@.wf(),
            match r {
                Ok(actions) => {
                    &&& old(self)@.claim_with_punish_error(origin, expire_time, now).is_none()
                    &&& final(self)@ == old(self)@.claim_deposits_with_punish(
                        signer(origin),
                        expire_time,
                        now,
                        free_kton,
                        locked_kton,
                    )
                    &&& actions@ == old(self)@.claim_deposits_with_punish_actions(
                        signer(origin),
                        expire_time,
                        now,
                        free_kton,
                        locked_kton,
                    )
                },
                Err(e) => {
                    &&& old(self)@.claim_with_punish_error(origin, expire_time, now) == Some(e)
                    &&& final(self)@ == old(self)@
                },
            },
    {
        let controller: AccountId = match ensure_signed(origin) {
            Ok(who) => who,
            Err(e) => {
                return Err(e);
            },
        };
        let mut ledger = match self.ledger(controller) {
            Some(l) => l,
            None => {
                return Err(Error::NotController);
            },
        };
        if expire_time <= now {
            return Err(Error::DepositExpired);
        }
        proof {
            lemma_pool_bounds(self@, self@.ledger.index(controller));
        }
        let stash: AccountId = ledger.stash;
        let fines = ledger.claim_deposits_with_punish(expire_time, now, free_kton, locked_kton);
        self.store_ledger(controller, ledger);
        let n: usize = fines.len();
        let mut actions: Vec<Action> = Vec::new();
        let mut i: usize = 0;
        while i < n
            invariant
                n == fines@.len(),
                0 <= i <= n,
                actions@.len() == i,
                forall|k: int|
                    0 <= k < i ==> #[trigger] actions@[k] == (Action::SlashKton {
                        who: stash,
                        amount: fines@[k],
                    }),
            decreases n - i,
        {
            actions.push(Action::SlashKton { who: stash, amount: fines[i] });
            i += 1;
        }
        proof {
            assert(actions@ =~= fine_actions(stash, fines@));
        }
        Ok(actions)
    }

    /// Remove any unlocked chunks from the `unlocking` queue of the caller's
    /// ledger. A stash whose ledger is left empty is removed from the staking
    /// system.
    pub fn withdraw_unbonded(&mut self, origin: Origin) -> (r: Result<Vec<Action>, Error>)
        requires
            old(self)@.wf(),
        ensures
            final(self)@.wf(),
            match r {
                Ok(actions) => {
                    &&& old(self)@.controller_error(origin).is_none()
                    &&& final(self)@ == old(self)@.withdraw_unbonded(signer(origin))
                    &&& actions@ == old(self)@.withdraw_unbonded_actions(signer(origin))
                },
                Err(e) => {
                    &&& old(self)@.controller_error(origin) == Some(e)
                    &&& final(self)@ == old(self)@
                },
            },
    {
        let controller: AccountId = match ensure_signed(origin) {
            Ok(who) => who,
            Err(e) => {
                return Err(e);
            },
        };
        let mut ledger = match self.ledger(controller) {
            Some(l) => l,
            None => {
                return Err(Error::NotController);
            },
        };
        proof {
            lemma_pool_bounds(self@, self@.ledger.index(controller));
            lemma_withdraw_unbonded_wf(ledger@, self@.current_era);
        }
        let stash: AccountId = ledger.stash;
        let touched = ledger.withdraw_unbonded(self.current_era);
        let mut actions: Vec<Action> = Vec::new();
        if ledger.is_empty() {
            self.kill_stash(stash);
            actions.push(Action::RemoveRingLock { who: stash });
            actions.push(Action::RemoveKtonLock { who: stash });
        } else {
            if touched.0 {
                actions.push(Action::SetRingLock { who: stash, amount: ledger.total_ring });
            }
            if touched.1 {
                actions.push(Action::SetKtonLock { who: stash, amount: ledger.total_kton });
            }
            self.store_ledger(controller, ledger);
        }
        proof {
            assert(actions@ =~= old(self)@.withdraw_unbonded_actions(controller));
        }
        Ok(actions)
    }
}

} // verus!
