//! The stake behind a validator, the reward points of an era, and the journal
//! of slashes.

use crate::sums::sum_of;
use crate::types::{AccountId, Balance, ExtendedBalance};
use vstd::prelude::*;

verus! {

/// The amount of exposure (to slashing) that an individual nominator has.
#[derive(Clone, Copy, Debug, PartialEq, Eq)]
pub struct IndividualExposure {
    /// The stash account of the nominator in question.
    pub who: AccountId,
    /// Amount of power exposed.
    pub value: ExtendedBalance,
}

/// A snapshot of the stake backing a single validator in the system.
#[derive(Clone, Debug, PartialEq, Eq)]
pub struct Exposure {
    /// The total power backing this validator.
    pub total: ExtendedBalance,
    /// The validator's own power that is exposed.
    pub own: ExtendedBalance,
    /// The portions of nominators' power that are exposed.
    pub others: Vec<IndividualExposure>,
}

/// The mathematical value of an exposure.
pub struct ExposureView {
    pub total: ExtendedBalance,
    pub own: ExtendedBalance,
    pub others: Seq<IndividualExposure>,
}

/// The power that one nominator exposes.
pub open spec fn exposed_value() -> spec_fn(IndividualExposure) -> int {
    |e: IndividualExposure| e.value as int
}

impl ExposureView {
    /// The exposure of a validator that nobody backs, itself included.
    pub open spec fn empty() -> ExposureView {
        ExposureView { total: 0, own: 0, others: Seq::empty() }
    }

    /// The total is the validator's own power plus that of its nominators.
    pub open spec fn wf(self) -> bool {
        self.total == self.own + sum_of(self.others, exposed_value())
    }
}

impl View for Exposure {
    type V = ExposureView;

    open spec fn view(&self) -> ExposureView {
        ExposureView { total: self.total, own: self.own, others: self.others@ }
    }
}

impl Default for Exposure {
    fn default() -> (r: Self)
        ensures
            r@ == ExposureView::empty(),
            r@.wf(),
    {
        let r = Exposure { total: 0, own: 0, others: Vec::new() };
        assert(r@.others =~= Seq::<IndividualExposure>::empty());
        r
    }
}

impl Exposure {
    /// A copy of the exposure.
    pub fn copy(&self) -> (r: Self)
        ensures
            r@ == self@,
    {
        Exposure { total: self.total, own: self.own, others: copy_vec(&self.others) }
    }
}

/// A slashing event occurred, slashing a validator for a given amount.
#[derive(Clone, Copy, Debug, PartialEq, Eq)]
pub struct SlashJournalEntry {
    pub who: AccountId,
    /// What was taken from the ledgers of the validator and of the nominators
    /// that it exposed, together.
    pub amount: Balance,
    /// What of it was taken from the validator's own ledger.
    pub own_slash: Balance,
}

impl Default for SlashJournalEntry {
    fn default() -> (r: Self)
        ensures
            r == (SlashJournalEntry { who: 0, amount: 0, own_slash: 0 }),
    {
        SlashJournalEntry { who: 0, amount: 0, own_slash: 0 }
    }
}

/// Reward points of an era: the total, and those of each elected validator by
/// its place in the elected set.
#[derive(Clone, Debug, PartialEq, Eq)]
pub struct EraPoints {
    pub total: u32,
    pub individual: Vec<u32>,
}

/// The mathematical value of an era's reward points.
pub struct EraPointsView {
    pub total: u32,
    pub individual: Seq<u32>,
}

impl View for EraPoints {
    type V = EraPointsView;

    open spec fn view(&self) -> EraPointsView {
        EraPointsView { total: self.total, individual: self.individual@ }
    }
}

/// `s` made at least `len` long with zeros at its end.
pub open spec fn padded(s: Seq<u32>, len: nat) -> Seq<u32> {
    if s.len() >= len {
        s
    } else {
        s + Seq::new((len - s.len()) as nat, |i: int| 0u32)
    }
}

impl EraPointsView {
    /// No points yet.
    pub open spec fn empty() -> EraPointsView {
        EraPointsView { total: 0, individual: Seq::empty() }
    }

    /// The points after the validator at place `index` earns `points` more.
    /// Points that would take the total over the largest 32-bit number are
    /// dropped.
    pub open spec fn add_points_to_index(self, index: u32, points: u32) -> EraPointsView {
        if self.total + points > u32::MAX {
            self
        } else {
            let wide = padded(self.individual, (index + 1) as nat);
            EraPointsView {
                total: (self.total + points) as u32,
                individual: wide.update(
                    index as int,
                    if wide[index as int] + points > u32::MAX {
                        u32::MAX
                    } else {
                        (wide[index as int] + points) as u32
                    },
                ),
            }
        }
    }
}

impl EraPoints {
    /// No points yet.
    pub fn new() -> (r: Self)
        ensures
            r@ == EraPointsView::empty(),
    {
        let r = EraPoints { total: 0, individual: Vec::new() };
        assert(r@.individual =~= Seq::<u32>::empty());
        r
    }

    /// Adds `points` for the validator at place `index` of the elected set.
    /// Points that would take the total over the largest 32-bit number are
    /// dropped.
    pub fn add_points_to_index(&mut self, index: u32, points: u32)
        requires
            index < usize::MAX,
        ensures
            final(self)@ == old(self)@.add_points_to_index(index, points),
    {
        match self.total.checked_add(points) {
            Some(new_total) => {
                let ghost before = self.individual@;
                let want: usize = index as usize + 1;
                while self.individual.len() < want
                    invariant
                        self.total == old(self).total,
                        self.individual@.len() >= before.len(),
                        self.individual@.len() <= want || self.individual@ == before,
                        self.individual@ =~= before + Seq::new(
                            (self.individual@.len() - before.len()) as nat,
                            |i: int| 0u32,
                        ),
                    decreases want - self.individual.len(),
                {
                    self.individual.push(0);
                }
                let i: usize = index as usize;
                let now: u32 = self.individual[i];
                let _ = self.individual.remove(i);
                self.individual.insert(i, now.saturating_add(points));
                self.total = new_total;
                assert(self@.individual =~= old(self)@.add_points_to_index(
                    index,
                    points,
                ).individual);
            },
            None => {},
        }
    }
}

/// A copy of a vector of plain values.
pub fn copy_vec<T: Copy>(v: &Vec<T>) -> (r: Vec<T>)
    ensures
        r@ == v@,
{
    let n: usize = v.len();
    let mut r: Vec<T> = Vec::new();
    let mut i: usize = 0;
    while i < n
        invariant
            n == v@.len(),
            0 <= i <= n,
            r@ == v@.take(i as int),
        decreases n - i,
    {
        r.push(v[i]);
        assert(v@.take(i + 1) =~= v@.take(i as int).push(v@[i as int]));
        i += 1;
    }
    assert(v@.take(n as int) =~= v@);
    r
}

} // verus!
