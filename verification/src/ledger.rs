//! The staking ledger of one controller: what is bonded, what of it is locked
//! as time deposits, and what is on its way out.

use crate::kton::{kton_return, spec_kton_return};
use crate::sums::{
    all_nonneg, lemma_filter_none, lemma_filter_passes, lemma_filter_take_step,
    lemma_sum_filter_split, lemma_sum_nonneg, lemma_sum_push, lemma_sum_take_le, sum_of,
};
use crate::types::{
    AccountId, Balance, EraIndex, Moment, StakingBalance, MAX_PROMISE_MONTHS, MAX_UNLOCKING_CHUNKS,
    MIN_DEPOSIT_MONTHS, MONTH_IN_SECONDS,
};
use vstd::prelude::*;

verus! {

/// Ring locked for a promised time, which earned its owner Kton.
#[derive(Clone, Copy, Debug, PartialEq, Eq)]
pub struct TimeDepositItem {
    pub value: Balance,
    pub start_time: Moment,
    pub expire_time: Moment,
}

impl TimeDepositItem {
    /// The deposit runs for a whole number of months, from one to 36.
    pub open spec fn wf(self) -> bool {
        &&& self.start_time <= self.expire_time
        &&& (self.expire_time - self.start_time) % (MONTH_IN_SECONDS as int) == 0
        &&& 1 <= (self.expire_time - self.start_time) / (MONTH_IN_SECONDS as int)
            <= MAX_PROMISE_MONTHS
    }

    /// The deposit made at `now` for `months` months.
    pub open spec fn promised(value: Balance, now: Moment, months: u32) -> TimeDepositItem {
        TimeDepositItem {
            value,
            start_time: now,
            expire_time: (now + (months as int) * (MONTH_IN_SECONDS as int)) as u64,
        }
    }
}

/// Funds on their way out of the ledger.
#[derive(Clone, Copy, Debug, PartialEq, Eq)]
pub struct UnlockChunk {
    /// Amount of funds to be unlocked.
    pub value: StakingBalance,
    /// Era number at which point it'll be unlocked.
    pub era: EraIndex,
}

/// The ledger of a (bonded) stash.
#[derive(Clone, Debug, PartialEq, Eq)]
pub struct StakingLedgers {
    /// The stash account whose balance is actually locked and at stake.
    pub stash: AccountId,
    /// The total amount of the stash's Ring that we are currently accounting
    /// for: the active Ring plus the unlocking Ring.
    pub total_ring: Balance,
    /// The Ring that will be at stake in any forthcoming round: normal Ring
    /// plus time-deposit Ring.
    pub active_ring: Balance,
    /// The active Ring that is locked in time deposits.
    pub active_deposit_ring: Balance,
    /// The total amount of the stash's Kton that we are currently accounting
    /// for: the active Kton plus the unlocking Kton.
    pub total_kton: Balance,
    /// The Kton that will be at stake in any forthcoming round.
    pub active_kton: Balance,
    /// The time deposits, each of which earned Kton when it was made.
    pub deposit_items: Vec<TimeDepositItem>,
    /// Any balance that is becoming free, which may eventually be transferred
    /// out of the stash.
    pub unlocking: Vec<UnlockChunk>,
}

/// The mathematical value of a ledger.
pub struct LedgerView {
    pub stash: AccountId,
    pub total_ring: Balance,
    pub active_ring: Balance,
    pub active_deposit_ring: Balance,
    pub total_kton: Balance,
    pub active_kton: Balance,
    pub deposit_items: Seq<TimeDepositItem>,
    pub unlocking: Seq<UnlockChunk>,
}

impl View for StakingLedgers {
    type V = LedgerView;

    open spec fn view(&self) -> LedgerView {
        LedgerView {
            stash: self.stash,
            total_ring: self.total_ring,
            active_ring: self.active_ring,
            active_deposit_ring: self.active_deposit_ring,
            total_kton: self.total_kton,
            active_kton: self.active_kton,
            deposit_items: self.deposit_items@,
            unlocking: self.unlocking@,
        }
    }
}

/// The Ring of a deposit.
pub open spec fn deposit_value() -> spec_fn(TimeDepositItem) -> int {
    |item: TimeDepositItem| item.value as int
}

/// The Ring of a chunk; nothing for a Kton chunk.
pub open spec fn chunk_ring() -> spec_fn(UnlockChunk) -> int {
    |chunk: UnlockChunk|
        match chunk.value {
            StakingBalance::Ring(r) => r as int,
            StakingBalance::Kton(_) => 0int,
        }
}

/// The Kton of a chunk; nothing for a Ring chunk.
pub open spec fn chunk_kton() -> spec_fn(UnlockChunk) -> int {
    |chunk: UnlockChunk|
        match chunk.value {
            StakingBalance::Ring(_) => 0int,
            StakingBalance::Kton(k) => k as int,
        }
}

/// The deposits that have not expired at `now`.
pub open spec fn is_live(now: Moment) -> spec_fn(TimeDepositItem) -> bool {
    |item: TimeDepositItem| item.expire_time > now
}

/// The deposits that have expired at `now`.
pub open spec fn is_mature(now: Moment) -> spec_fn(TimeDepositItem) -> bool {
    |item: TimeDepositItem| item.expire_time <= now
}

/// The chunks that stay locked in era `era`.
pub open spec fn is_locked(era: EraIndex) -> spec_fn(UnlockChunk) -> bool {
    |chunk: UnlockChunk| chunk.era > era
}

/// The chunks that can be withdrawn in era `era`.
pub open spec fn is_due(era: EraIndex) -> spec_fn(UnlockChunk) -> bool {
    |chunk: UnlockChunk| chunk.era <= era
}

/// The chunks of Ring that can be withdrawn in era `era`.
pub open spec fn is_due_ring(era: EraIndex) -> spec_fn(UnlockChunk) -> bool {
    |chunk: UnlockChunk| chunk.era <= era && chunk.value is Ring
}

/// The chunks of Kton that can be withdrawn in era `era`.
pub open spec fn is_due_kton(era: EraIndex) -> spec_fn(UnlockChunk) -> bool {
    |chunk: UnlockChunk| chunk.era <= era && chunk.value is Kton
}

/// The smaller of two balances.
pub open spec fn min_balance(a: Balance, b: Balance) -> Balance {
    if a <= b {
        a
    } else {
        b
    }
}

impl LedgerView {
    /// The ledger of a stash that has bonded nothing yet.
    pub open spec fn empty(stash: AccountId) -> LedgerView {
        LedgerView {
            stash,
            total_ring: 0,
            active_ring: 0,
            active_deposit_ring: 0,
            total_kton: 0,
            active_kton: 0,
            deposit_items: Seq::empty(),
            unlocking: Seq::empty(),
        }
    }

    /// The ledger's invariant: the deposits are part of the active Ring, the
    /// deposit items add up to the deposit Ring, and each total is what is
    /// active plus what is unlocking.
    pub open spec fn wf(self) -> bool {
        &&& self.active_deposit_ring <= self.active_ring <= self.total_ring
        &&& self.active_kton <= self.total_kton
        &&& sum_of(self.deposit_items, deposit_value()) == self.active_deposit_ring
        &&& self.total_ring == self.active_ring + sum_of(self.unlocking, chunk_ring())
        &&& self.total_kton == self.active_kton + sum_of(self.unlocking, chunk_kton())
        &&& self.unlocking.len() <= MAX_UNLOCKING_CHUNKS
        &&& forall|i: int|
            0 <= i < self.deposit_items.len() ==> (#[trigger] self.deposit_items[i]).wf()
    }

    /// The active Ring that no deposit holds.
    pub open spec fn normal_ring(self) -> Balance {
        (self.active_ring - self.active_deposit_ring) as Balance
    }

    /// Nothing is bonded and nothing is unlocking.
    pub open spec fn is_empty(self) -> bool {
        self.unlocking.len() == 0 && self.active_ring == 0 && self.active_kton == 0
    }

    /// The ledger after `value` more Ring is bonded with a promise of `months`
    /// months made at `now`. Three months and more make a deposit.
    pub open spec fn bond_ring(self, value: Balance, months: u32, now: Moment) -> LedgerView {
        if months >= MIN_DEPOSIT_MONTHS {
            LedgerView {
                active_deposit_ring: (self.active_deposit_ring + value) as Balance,
                deposit_items: self.deposit_items.push(
                    TimeDepositItem::promised(value, now, months),
                ),
                active_ring: (self.active_ring + value) as Balance,
                total_ring: (self.total_ring + value) as Balance,
                ..self
            }
        } else {
            LedgerView {
                active_ring: (self.active_ring + value) as Balance,
                total_ring: (self.total_ring + value) as Balance,
                ..self
            }
        }
    }

    /// The Kton that `bond_ring` earns the stash.
    pub open spec fn bond_bonus(value: Balance, months: u32) -> Balance {
        if months >= MIN_DEPOSIT_MONTHS {
            spec_kton_return(value, months)
        } else {
            0
        }
    }

    /// The ledger after `value` more Kton is bonded.
    pub open spec fn bond_kton(self, value: Balance) -> LedgerView {
        LedgerView {
            active_kton: (self.active_kton + value) as Balance,
            total_kton: (self.total_kton + value) as Balance,
            ..self
        }
    }

    /// The ledger without the deposits that have expired at `now`: their Ring
    /// leaves the deposit Ring and is normal active Ring again.
    pub open spec fn clear_mature(self, now: Moment) -> LedgerView {
        LedgerView {
            deposit_items: self.deposit_items.filter(is_live(now)),
            active_deposit_ring: (self.active_deposit_ring - sum_of(
                self.deposit_items.filter(is_mature(now)),
                deposit_value(),
            )) as Balance,
            ..self
        }
    }

    /// How much of `value` can start unbonding: of Ring, at most the normal
    /// active Ring; of Kton, at most the active Kton.
    pub open spec fn unbondable(self, value: StakingBalance) -> StakingBalance {
        match value {
            StakingBalance::Ring(r) => StakingBalance::Ring(min_balance(r, self.normal_ring())),
            StakingBalance::Kton(k) => StakingBalance::Kton(min_balance(k, self.active_kton)),
        }
    }

    /// The ledger after as much of `value` as can be starts unbonding, to be
    /// free at `era`. Nothing changes where that amount is zero.
    pub open spec fn unbond(self, value: StakingBalance, era: EraIndex) -> LedgerView {
        match self.unbondable(value) {
            StakingBalance::Ring(r) => if r == 0 {
                self
            } else {
                LedgerView {
                    active_ring: (self.active_ring - r) as Balance,
                    unlocking: self.unlocking.push(
                        UnlockChunk { value: StakingBalance::Ring(r), era },
                    ),
                    ..self
                }
            },
            StakingBalance::Kton(k) => if k == 0 {
                self
            } else {
                LedgerView {
                    active_kton: (self.active_kton - k) as Balance,
                    unlocking: self.unlocking.push(
                        UnlockChunk { value: StakingBalance::Kton(k), era },
                    ),
                    ..self
                }
            },
        }
    }

    /// How much of `value` can become a deposit: at most the normal active
    /// Ring.
    pub open spec fn depositable(self, value: Balance) -> Balance {
        min_balance(value, self.normal_ring())
    }

    /// The ledger after as much of `value` as is normal active Ring becomes a
    /// deposit of `months` months made at `now`. A promise under three months
    /// changes nothing.
    pub open spec fn deposit_extra(self, value: Balance, months: u32, now: Moment) -> LedgerView {
        if months >= MIN_DEPOSIT_MONTHS {
            LedgerView {
                active_deposit_ring: (self.active_deposit_ring + self.depositable(value)) as Balance,
                deposit_items: self.deposit_items.push(
                    TimeDepositItem::promised(self.depositable(value), now, months),
                ),
                ..self
            }
        } else {
            self
        }
    }

    /// The ledger after the chunks that are due in `era` have left: each total
    /// falls by what left of its currency.
    pub open spec fn withdraw_unbonded(self, era: EraIndex) -> LedgerView {
        LedgerView {
            unlocking: self.unlocking.filter(is_locked(era)),
            total_ring: (self.total_ring - sum_of(self.unlocking.filter(is_due(era)), chunk_ring()))
                as Balance,
            total_kton: (self.total_kton - sum_of(self.unlocking.filter(is_due(era)), chunk_kton()))
                as Balance,
            ..self
        }
    }

    /// Some chunk of Ring is due in `era`.
    pub open spec fn ring_is_due(self, era: EraIndex) -> bool {
        self.unlocking.filter(is_due_ring(era)).len() > 0
    }

    /// Some chunk of Kton is due in `era`.
    pub open spec fn kton_is_due(self, era: EraIndex) -> bool {
        self.unlocking.filter(is_due_kton(era)).len() > 0
    }

    /// The ledger after up to `amount` of its active Kton is slashed.
    pub open spec fn slash_kton(self, amount: Balance) -> LedgerView {
        LedgerView {
            active_kton: (self.active_kton - min_balance(amount, self.active_kton)) as Balance,
            total_kton: (self.total_kton - min_balance(amount, self.active_kton)) as Balance,
            ..self
        }
    }
}

/// No deposit holds less than nothing.
pub proof fn lemma_deposits_nonneg(items: Seq<TimeDepositItem>)
    ensures
        all_nonneg(items, deposit_value()),
        sum_of(items, deposit_value()) >= 0,
{
    lemma_sum_nonneg(items, deposit_value());
}

/// No chunk holds less than nothing of either currency.
pub proof fn lemma_chunks_nonneg(chunks: Seq<UnlockChunk>)
    ensures
        all_nonneg(chunks, chunk_ring()),
        all_nonneg(chunks, chunk_kton()),
        sum_of(chunks, chunk_ring()) >= 0,
        sum_of(chunks, chunk_kton()) >= 0,
{
    lemma_sum_nonneg(chunks, chunk_ring());
    lemma_sum_nonneg(chunks, chunk_kton());
}

/// The deposit made at `now` for one to 36 months is well formed.
pub proof fn lemma_promised_wf(value: Balance, now: Moment, months: u32)
    requires
        1 <= months <= MAX_PROMISE_MONTHS,
        now + months * MONTH_IN_SECONDS <= u64::MAX,
    ensures
        TimeDepositItem::promised(value, now, months).wf(),
{
    let d = (months as int) * (MONTH_IN_SECONDS as int);
    assert(d % (MONTH_IN_SECONDS as int) == 0 && d / (MONTH_IN_SECONDS as int) == months)
        by (nonlinear_arith)
        requires
            d == (months as int) * (MONTH_IN_SECONDS as int),
            MONTH_IN_SECONDS == 2_592_000,
    ;
    assert(d >= 0) by (nonlinear_arith)
        requires
            d == (months as int) * (MONTH_IN_SECONDS as int),
            months >= 0,
            MONTH_IN_SECONDS == 2_592_000,
    ;
}

/// Clearing the mature deposits keeps a ledger well formed and leaves its
/// active Ring and its totals alone.
pub proof fn lemma_clear_mature_wf(l: LedgerView, now: Moment)
    requires
        l.wf(),
    ensures
        l.clear_mature(now).wf(),
        l.clear_mature(now).active_deposit_ring == sum_of(
            l.deposit_items.filter(is_live(now)),
            deposit_value(),
        ),
        l.clear_mature(now).active_deposit_ring <= l.active_deposit_ring,
{
    let live = l.deposit_items.filter(is_live(now));
    let mature = l.deposit_items.filter(is_mature(now));
    assert forall|x: TimeDepositItem| #[trigger] is_live(now)(x) == !is_mature(now)(x) by {}
    lemma_sum_filter_split(l.deposit_items, is_live(now), is_mature(now), deposit_value());
    lemma_deposits_nonneg(live);
    lemma_deposits_nonneg(mature);
    lemma_filter_passes(l.deposit_items, is_live(now));
    assert forall|i: int| 0 <= i < live.len() implies (#[trigger] live[i]).wf() by {
        let x = live[i];
        assert(l.deposit_items.contains(x));
        let j = choose|j: int| 0 <= j < l.deposit_items.len() && l.deposit_items[j] == x;
        assert(l.deposit_items[j].wf());
    }
}

/// Withdrawing what is due keeps a ledger well formed.
pub proof fn lemma_withdraw_unbonded_wf(l: LedgerView, era: EraIndex)
    requires
        l.wf(),
    ensures
        l.withdraw_unbonded(era).wf(),
        l.withdraw_unbonded(era).total_ring == l.active_ring + sum_of(
            l.unlocking.filter(is_locked(era)),
            chunk_ring(),
        ),
        l.withdraw_unbonded(era).total_kton == l.active_kton + sum_of(
            l.unlocking.filter(is_locked(era)),
            chunk_kton(),
        ),
{
    let locked = l.unlocking.filter(is_locked(era));
    let due = l.unlocking.filter(is_due(era));
    assert forall|x: UnlockChunk| #[trigger] is_locked(era)(x) == !is_due(era)(x) by {}
    lemma_sum_filter_split(l.unlocking, is_locked(era), is_due(era), chunk_ring());
    lemma_sum_filter_split(l.unlocking, is_locked(era), is_due(era), chunk_kton());
    lemma_chunks_nonneg(locked);
    lemma_chunks_nonneg(due);
    lemma_filter_passes(l.unlocking, is_locked(era));
}

impl Default for StakingLedgers {
    fn default() -> (r: Self)
        ensures
            r@ == LedgerView::empty(0),
            r@.wf(),
    {
        StakingLedgers::new(0)
    }
}

impl StakingLedgers {
    /// The ledger's invariant.
    pub open spec fn wf(&self) -> bool {
        self@.wf()
    }

    /// The ledger of a stash that has bonded nothing yet.
    pub fn new(stash: AccountId) -> (r: Self)
        ensures
            r@ == LedgerView::empty(stash),
            r@.wf(),
    {
        let r = StakingLedgers {
            stash,
            total_ring: 0,
            active_ring: 0,
            active_deposit_ring: 0,
            total_kton: 0,
            active_kton: 0,
            deposit_items: Vec::new(),
            unlocking: Vec::new(),
        };
        proof {
            assert(r@.deposit_items =~= Seq::<TimeDepositItem>::empty());
            assert(r@.unlocking =~= Seq::<UnlockChunk>::empty());
        }
        r
    }

    /// Whether nothing is bonded and nothing is unlocking.
    pub fn is_empty(&self) -> (r: bool)
        ensures
            r == self@.is_empty(),
    {
        self.unlocking.len() == 0 && self.active_ring == 0 && self.active_kton == 0
    }

    /// Bonds `value` more Ring with a promise of `months` months made at `now`.
    /// A promise of three months and more makes a deposit and earns Kton.
    /// Returns the Kton earned.
    pub fn bond_ring(&mut self, value: Balance, months: u32, now: Moment) -> (bonus: Balance)
        requires
            old(self)@.wf(),
            months <= MAX_PROMISE_MONTHS,
            old(self).total_ring + value <= u128::MAX,
            months >= MIN_DEPOSIT_MONTHS ==> now + months * MONTH_IN_SECONDS <= u64::MAX,
        ensures
            final(self)@ == old(self)@.bond_ring(value, months, now),
            final(self)@.wf(),
            bonus == LedgerView::bond_bonus(value, months),
    {
        let mut bonus: Balance = 0;
        if months >= MIN_DEPOSIT_MONTHS {
            assert(months * MONTH_IN_SECONDS <= 36 * 2_592_000) by (nonlinear_arith)
                requires
                    months <= 36,
                    MONTH_IN_SECONDS == 2_592_000,
            ;
            let expire_time: Moment = now + (months as u64) * MONTH_IN_SECONDS;
            let item = TimeDepositItem { value, start_time: now, expire_time };
            proof {
                lemma_promised_wf(value, now, months);
                lemma_sum_push(self.deposit_items@, item, deposit_value());
            }
            self.active_deposit_ring = self.active_deposit_ring + value;
            bonus = kton_return(value, months);
            self.deposit_items.push(item);
        }
        self.active_ring = self.active_ring + value;
        self.total_ring = self.total_ring + value;
        bonus
    }

    /// Bonds `value` more Kton.
    pub fn bond_kton(&mut self, value: Balance)
        requires
            old(self)@.wf(),
            old(self).total_kton + value <= u128::MAX,
        ensures
            final(self)@ == old(self)@.bond_kton(value),
            final(self)@.wf(),
    {
        self.total_kton = self.total_kton + value;
        self.active_kton = self.active_kton + value;
    }

    /// Drops every deposit that has expired at `now`; its Ring is normal active
    /// Ring again.
    pub fn clear_mature_deposits(&mut self, now: Moment)
        requires
            old(self)@.wf(),
        ensures
            final(self)@ == old(self)@.clear_mature(now),
            final(self)@.wf(),
    {
        let ghost items = self.deposit_items@;
        let n: usize = self.deposit_items.len();
        let mut kept: Vec<TimeDepositItem> = Vec::new();
        let mut released: Balance = 0;
        let mut i: usize = 0;
        proof {
            lemma_clear_mature_wf(self@, now);
            assert forall|x: TimeDepositItem| #[trigger] is_live(now)(x) == !is_mature(now)(x) by {}
            lemma_sum_filter_split(items, is_live(now), is_mature(now), deposit_value());
            assert(items.take(0) =~= Seq::<TimeDepositItem>::empty());
            lemma_filter_none(items.take(0), is_live(now));
            lemma_filter_none(items.take(0), is_mature(now));
        }
        while i < n
            invariant
                *self == *old(self),
                self@.wf(),
                self.deposit_items@ == items,
                n == items.len(),
                0 <= i <= n,
                kept@ == items.take(i as int).filter(is_live(now)),
                released == sum_of(items.take(i as int).filter(is_mature(now)), deposit_value()),
                sum_of(items, deposit_value()) <= u128::MAX,
            decreases n - i,
        {
            let item = self.deposit_items[i];
            proof {
                lemma_filter_take_step(items, i as int, is_live(now));
                lemma_filter_take_step(items, i as int, is_mature(now));
                let next_mature = items.take(i + 1).filter(is_mature(now));
                let next_live = items.take(i + 1).filter(is_live(now));
                assert forall|x: TimeDepositItem| #[trigger]
                    is_live(now)(x) == !is_mature(now)(x) by {}
                lemma_sum_filter_split(
                    items.take(i + 1),
                    is_live(now),
                    is_mature(now),
                    deposit_value(),
                );
                lemma_deposits_nonneg(next_live);
                lemma_deposits_nonneg(items);
                lemma_sum_take_le(items, i + 1, deposit_value());
                if item.expire_time <= now {
                    lemma_sum_push(
                        items.take(i as int).filter(is_mature(now)),
                        item,
                        deposit_value(),
                    );
                }
            }
            if item.expire_time > now {
                kept.push(item);
            } else {
                released = released + item.value;
            }
            i += 1;
        }
        proof {
            assert(items.take(n as int) =~= items);
        }
        self.active_deposit_ring = self.active_deposit_ring - released;
        self.deposit_items = kept;
    }

    /// Starts unbonding as much of `value` as can be: of Ring, the normal
    /// active Ring; of Kton, the active Kton. What starts unbonding is free at
    /// `era`. Returns the amount, which is zero where nothing changed.
    pub fn unbond(&mut self, value: StakingBalance, era: EraIndex) -> (taken: StakingBalance)
        requires
            old(self)@.wf(),
            old(self)@.unlocking.len() < MAX_UNLOCKING_CHUNKS,
        ensures
            final(self)@ == old(self)@.unbond(value, era),
            final(self)@.wf(),
            taken == old(self)@.unbondable(value),
    {
        match value {
            StakingBalance::Ring(r) => {
                let normal: Balance = self.active_ring - self.active_deposit_ring;
                let avail: Balance = if r <= normal {
                    r
                } else {
                    normal
                };
                if avail != 0 {
                    let chunk = UnlockChunk { value: StakingBalance::Ring(avail), era };
                    proof {
                        lemma_sum_push(self.unlocking@, chunk, chunk_ring());
                        lemma_sum_push(self.unlocking@, chunk, chunk_kton());
                    }
                    self.active_ring = self.active_ring - avail;
                    self.unlocking.push(chunk);
                }
                StakingBalance::Ring(avail)
            },
            StakingBalance::Kton(k) => {
                let avail: Balance = if k <= self.active_kton {
                    k
                } else {
                    self.active_kton
                };
                if avail != 0 {
                    let chunk = UnlockChunk { value: StakingBalance::Kton(avail), era };
                    proof {
                        lemma_sum_push(self.unlocking@, chunk, chunk_ring());
                        lemma_sum_push(self.unlocking@, chunk, chunk_kton());
                    }
                    self.active_kton = self.active_kton - avail;
                    self.unlocking.push(chunk);
                }
                StakingBalance::Kton(avail)
            },
        }
    }

    /// Turns as much of `value` as is normal active Ring into a deposit of
    /// `months` months made at `now`. A promise under three months changes
    /// nothing. Returns the Kton earned.
    pub fn deposit_extra(&mut self, value: Balance, months: u32, now: Moment) -> (bonus: Balance)
        requires
            old(self)@.wf(),
            months <= MAX_PROMISE_MONTHS,
            months >= MIN_DEPOSIT_MONTHS ==> now + months * MONTH_IN_SECONDS <= u64::MAX,
        ensures
            final(self)@ == old(self)@.deposit_extra(value, months, now),
            final(self)@.wf(),
            bonus == LedgerView::bond_bonus(old(self)@.depositable(value), months),
    {
        let normal: Balance = self.active_ring - self.active_deposit_ring;
        let value: Balance = if value <= normal {
            value
        } else {
            normal
        };
        if months >= MIN_DEPOSIT_MONTHS {
            assert(months * MONTH_IN_SECONDS <= 36 * 2_592_000) by (nonlinear_arith)
                requires
                    months <= 36,
                    MONTH_IN_SECONDS == 2_592_000,
            ;
            let expire_time: Moment = now + (months as u64) * MONTH_IN_SECONDS;
            let item = TimeDepositItem { value, start_time: now, expire_time };
            proof {
                lemma_promised_wf(value, now, months);
                lemma_sum_push(self.deposit_items@, item, deposit_value());
            }
            self.active_deposit_ring = self.active_deposit_ring + value;
            self.deposit_items.push(item);
            kton_return(value, months)
        } else {
            0
        }
    }

    /// Lets the chunks go that are due in `era`: each total falls by what left
    /// of its currency. Returns whether a chunk of Ring left, and whether a
    /// chunk of Kton left.
    pub fn withdraw_unbonded(&mut self, era: EraIndex) -> (touched: (bool, bool))
        requires
            old(self)@.wf(),
        ensures
            final(self)@ == old(self)@.withdraw_unbonded(era),
            final(self)@.wf(),
            touched.0 == old(self)@.ring_is_due(era),
            touched.1 == old(self)@.kton_is_due(era),
    {
        let ghost chunks = self.unlocking@;
        let n: usize = self.unlocking.len();
        let mut kept: Vec<UnlockChunk> = Vec::new();
        let mut ring_out: Balance = 0;
        let mut kton_out: Balance = 0;
        let mut ring_due: bool = false;
        let mut kton_due: bool = false;
        let mut i: usize = 0;
        proof {
            lemma_withdraw_unbonded_wf(self@, era);
            assert(chunks.take(0) =~= Seq::<UnlockChunk>::empty());
            lemma_filter_none(chunks.take(0), is_locked(era));
            lemma_filter_none(chunks.take(0), is_due(era));
            lemma_filter_none(chunks.take(0), is_due_ring(era));
            lemma_filter_none(chunks.take(0), is_due_kton(era));
            lemma_chunks_nonneg(chunks);
        }
        while i < n
            invariant
                *self == *old(self),
                self@.wf(),
                self.unlocking@ == chunks,
                n == chunks.len(),
                0 <= i <= n,
                kept@ == chunks.take(i as int).filter(is_locked(era)),
                ring_out == sum_of(chunks.take(i as int).filter(is_due(era)), chunk_ring()),
                kton_out == sum_of(chunks.take(i as int).filter(is_due(era)), chunk_kton()),
                ring_due == (chunks.take(i as int).filter(is_due_ring(era)).len() > 0),
                kton_due == (chunks.take(i as int).filter(is_due_kton(era)).len() > 0),
                sum_of(chunks, chunk_ring()) <= u128::MAX,
                sum_of(chunks, chunk_kton()) <= u128::MAX,
            decreases n - i,
        {
            let chunk = self.unlocking[i];
            proof {
                lemma_filter_take_step(chunks, i as int, is_locked(era));
                lemma_filter_take_step(chunks, i as int, is_due(era));
                lemma_filter_take_step(chunks, i as int, is_due_ring(era));
                lemma_filter_take_step(chunks, i as int, is_due_kton(era));
                let next = chunks.take(i + 1);
                assert forall|x: UnlockChunk| #[trigger]
                    is_locked(era)(x) == !is_due(era)(x) by {}
                lemma_sum_filter_split(next, is_locked(era), is_due(era), chunk_ring());
                lemma_sum_filter_split(next, is_locked(era), is_due(era), chunk_kton());
                lemma_chunks_nonneg(next.filter(is_locked(era)));
                lemma_chunks_nonneg(chunks);
                lemma_sum_take_le(chunks, i + 1, chunk_ring());
                lemma_sum_take_le(chunks, i + 1, chunk_kton());
                if chunk.era <= era {
                    lemma_sum_push(chunks.take(i as int).filter(is_due(era)), chunk, chunk_ring());
                    lemma_sum_push(chunks.take(i as int).filter(is_due(era)), chunk, chunk_kton());
                }
            }
            if chunk.era > era {
                kept.push(chunk);
            } else {
                match chunk.value {
                    StakingBalance::Ring(r) => {
                        ring_due = true;
                        ring_out = ring_out + r;
                    },
                    StakingBalance::Kton(k) => {
                        kton_due = true;
                        kton_out = kton_out + k;
                    },
                }
            }
            i += 1;
        }
        proof {
            assert(chunks.take(n as int) =~= chunks);
            assert forall|x: UnlockChunk| #[trigger] is_locked(era)(x) == !is_due(era)(x) by {}
            lemma_sum_filter_split(chunks, is_locked(era), is_due(era), chunk_ring());
            lemma_sum_filter_split(chunks, is_locked(era), is_due(era), chunk_kton());
            lemma_chunks_nonneg(chunks.filter(is_locked(era)));
        }
        self.total_ring = self.total_ring - ring_out;
        self.total_kton = self.total_kton - kton_out;
        self.unlocking = kept;
        (ring_due, kton_due)
    }

    /// Slashes up to `amount` of the active Kton. Returns what was slashed.
    pub fn slash_kton(&mut self, amount: Balance) -> (slashed: Balance)
        requires
            old(self)@.wf(),
        ensures
            final(self)@ == old(self)@.slash_kton(amount),
            final(self)@.wf(),
            slashed == min_balance(amount, old(self)@.active_kton),
    {
        let slashed: Balance = if amount <= self.active_kton {
            amount
        } else {
            self.active_kton
        };
        self.active_kton = self.active_kton - slashed;
        self.total_kton = self.total_kton - slashed;
        slashed
    }
}

} // verus!
