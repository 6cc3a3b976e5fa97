//! Power: the weight of a stash in the election, from its share of the two
//! pools.

use crate::module::{Module, ModuleView};
use crate::per_things::{
    lemma_mul_nearest_bounded, lemma_ratio_bounded, perquintill_from_rational, perquintill_mul,
    spec_perquintill_mul, spec_ratio, QUINTILLION,
};
use crate::types::{AccountId, Balance, ExtendedBalance};
use vstd::prelude::*;

verus! {

/// The power of a stash that holds all of one pool.
pub const HALF_POWER_COUNT: u128 = 500_000_000;

/// The most power that a stash can have.
pub const POWER_COUNT: u128 = 1_000_000_000;

/// A pool as a divisor: at least one.
pub open spec fn spec_divisor(pool: Balance) -> Balance {
    if pool == 0 {
        1
    } else {
        pool
    }
}

/// The share of a pool as a per-quintillion fraction.
pub open spec fn spec_pool_share(active: Balance, pool: Balance) -> u64 {
    spec_ratio(active as int, spec_divisor(pool) as int, QUINTILLION as int) as u64
}

/// The power that `active` of a pool of `pool` gives: the share of the pool
/// times half the power count.
pub open spec fn spec_half_power(active: Balance, pool: Balance) -> int {
    spec_perquintill_mul(spec_pool_share(active, pool), HALF_POWER_COUNT)
}

/// The power of a share of a pool is at most half the power count, and
/// nothing gives no power.
pub proof fn lemma_half_power_bounded(active: Balance, pool: Balance)
    ensures
        0 <= spec_half_power(active, pool) <= HALF_POWER_COUNT,
        spec_ratio(active as int, spec_divisor(pool) as int, QUINTILLION as int) <= QUINTILLION,
        active == 0 ==> spec_half_power(active, pool) == 0,
{
    lemma_ratio_bounded(active as int, spec_divisor(pool) as int, QUINTILLION as int);
    lemma_mul_nearest_bounded(
        spec_pool_share(active, pool) as int,
        HALF_POWER_COUNT as int,
        QUINTILLION as int,
    );
}

/// Computes the power that `active` of a pool of `pool` gives.
pub fn half_power(active: Balance, pool: Balance) -> (r: ExtendedBalance)
    ensures
        r == spec_half_power(active, pool),
        r <= HALF_POWER_COUNT,
{
    proof {
        lemma_half_power_bounded(active, pool);
    }
    let divisor: Balance = if pool == 0 {
        1
    } else {
        pool
    };
    let share: u64 = perquintill_from_rational(active, divisor);
    perquintill_mul(share, HALF_POWER_COUNT)
}

impl ModuleView {
    /// The power of a stash: what its active Ring gives of the Ring pool plus
    /// what its active Kton gives of the Kton pool. A stash without a ledger
    /// has no power.
    pub open spec fn power_of(self, stash: AccountId) -> ExtendedBalance {
        match self.ledger_of_stash(stash) {
            Some(l) => (spec_half_power(l.active_ring, self.ring_pool) + spec_half_power(
                l.active_kton,
                self.kton_pool,
            )) as ExtendedBalance,
            None => 0,
        }
    }

    /// No stash has more than the power count.
    pub proof fn lemma_power_bounded(self, stash: AccountId)
        ensures
            self.power_of(stash) <= POWER_COUNT,
    {
        match self.ledger_of_stash(stash) {
            Some(l) => {
                lemma_half_power_bounded(l.active_ring, self.ring_pool);
                lemma_half_power_bounded(l.active_kton, self.kton_pool);
            },
            None => {},
        }
    }
}

impl Module {
    /// The power of `stash`.
    pub fn power_of(&self, stash: AccountId) -> (r: ExtendedBalance)
        requires
            self@.wf(),
        ensures
            r == self@.power_of(stash),
            r <= POWER_COUNT,
    {
        proof {
            self@.lemma_power_bounded(stash);
        }
        match self.bonded.get(stash) {
            Some(controller) => match self.ledger.get(*controller) {
                Some(l) => {
                    proof {
                        lemma_half_power_bounded(l@.active_ring, self@.ring_pool);
                        lemma_half_power_bounded(l@.active_kton, self@.kton_pool);
                    }
                    half_power(l.active_ring, self.ring_pool) + half_power(
                        l.active_kton,
                        self.kton_pool,
                    )
                },
                None => 0,
            },
            None => 0,
        }
    }
}

} // verus!
