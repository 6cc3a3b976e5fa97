//! Leaving a time deposit before it expires: the claim that pays a Kton fine.

use crate::kton::{kton_return, spec_kton_return};
use crate::ledger::{
    deposit_value, lemma_deposits_nonneg, LedgerView, StakingLedgers, TimeDepositItem,
};
use crate::sums::{
    lemma_sum_concat, lemma_sum_first, lemma_sum_one, lemma_sum_push, lemma_sum_take_le,
    lemma_sum_take_step, sum_of,
};
use crate::types::{Balance, Moment, MONTH_IN_SECONDS};
use vstd::prelude::*;

verus! {

/// The whole months that are left until `expire_time`, at least one, and at
/// most the largest 32-bit number.
pub open spec fn spec_months_left(expire_time: Moment, now: Moment) -> u32 {
    let months = (expire_time - now) / (MONTH_IN_SECONDS as int);
    if months < 1 {
        1
    } else if months > u32::MAX {
        u32::MAX
    } else {
        months as u32
    }
}

/// The fine for leaving a deposit of `value` Ring `months_left` months early:
/// three times the Kton that such a deposit earns, and the largest balance
/// where that does not fit.
pub open spec fn spec_fine(value: Balance, months_left: u32) -> Balance {
    if 3 * spec_kton_return(value, months_left) > u128::MAX {
        u128::MAX
    } else {
        (3 * spec_kton_return(value, months_left)) as Balance
    }
}

/// Whether an account with `free` Kton, of which `locked` must stay, can pay
/// `fine`.
pub open spec fn can_pay(free: Balance, fine: Balance, locked: Balance) -> bool {
    free >= fine && free - fine >= locked
}

/// The deposits that stay when those that expire at `expire_time` are claimed
/// one after the other, each one leaving if the Kton that is left pays its fine.
pub open spec fn punish_kept(
    items: Seq<TimeDepositItem>,
    expire_time: Moment,
    months_left: u32,
    free: Balance,
    locked: Balance,
) -> Seq<TimeDepositItem>
    decreases items.len(),
{
    if items.len() == 0 {
        items
    } else {
        let fine = spec_fine(items[0].value, months_left);
        if items[0].expire_time == expire_time && can_pay(free, fine, locked) {
            punish_kept(items.skip(1), expire_time, months_left, (free - fine) as Balance, locked)
        } else {
            seq![items[0]] + punish_kept(items.skip(1), expire_time, months_left, free, locked)
        }
    }
}

/// The fines paid in that claim, in the order of the deposits that left.
pub open spec fn punish_fines(
    items: Seq<TimeDepositItem>,
    expire_time: Moment,
    months_left: u32,
    free: Balance,
    locked: Balance,
) -> Seq<Balance>
    decreases items.len(),
{
    if items.len() == 0 {
        Seq::empty()
    } else {
        let fine = spec_fine(items[0].value, months_left);
        if items[0].expire_time == expire_time && can_pay(free, fine, locked) {
            seq![fine] + punish_fines(
                items.skip(1),
                expire_time,
                months_left,
                (free - fine) as Balance,
                locked,
            )
        } else {
            punish_fines(items.skip(1), expire_time, months_left, free, locked)
        }
    }
}

impl LedgerView {
    /// The ledger after the deposits that expire at `expire_time` are claimed
    /// at `now` by a stash with `free` Kton of which `locked` must stay: the
    /// Ring of each deposit that left is normal active Ring again.
    pub open spec fn claim_with_punish(
        self,
        expire_time: Moment,
        now: Moment,
        free: Balance,
        locked: Balance,
    ) -> LedgerView {
        let kept = punish_kept(
            self.deposit_items,
            expire_time,
            spec_months_left(expire_time, now),
            free,
            locked,
        );
        LedgerView {
            deposit_items: kept,
            active_deposit_ring: (self.active_deposit_ring - (sum_of(
                self.deposit_items,
                deposit_value(),
            ) - sum_of(kept, deposit_value()))) as Balance,
            ..self
        }
    }

    /// The fines of that claim.
    pub open spec fn claim_fines(
        self,
        expire_time: Moment,
        now: Moment,
        free: Balance,
        locked: Balance,
    ) -> Seq<Balance> {
        punish_fines(
            self.deposit_items,
            expire_time,
            spec_months_left(expire_time, now),
            free,
            locked,
        )
    }
}

/// What a punished claim keeps is made of deposits that were there, and holds
/// no more Ring than was there.
pub proof fn lemma_punish_kept(
    items: Seq<TimeDepositItem>,
    expire_time: Moment,
    months_left: u32,
    free: Balance,
    locked: Balance,
)
    ensures
        0 <= sum_of(punish_kept(items, expire_time, months_left, free, locked), deposit_value())
            <= sum_of(items, deposit_value()),
        forall|i: int|
            0 <= i < punish_kept(items, expire_time, months_left, free, locked).len()
                ==> items.contains(
                #[trigger] punish_kept(items, expire_time, months_left, free, locked)[i],
            ),
    decreases items.len(),
{
    let kept = punish_kept(items, expire_time, months_left, free, locked);
    lemma_deposits_nonneg(kept);
    lemma_deposits_nonneg(items);
    if items.len() > 0 {
        let fine = spec_fine(items[0].value, months_left);
        let rest = items.skip(1);
        lemma_sum_first(items, deposit_value());
        if items[0].expire_time == expire_time && can_pay(free, fine, locked) {
            lemma_punish_kept(rest, expire_time, months_left, (free - fine) as Balance, locked);
            assert forall|i: int| 0 <= i < kept.len() implies items.contains(#[trigger] kept[i]) by {
                let j = choose|j: int| 0 <= j < rest.len() && rest[j] == kept[i];
                assert(items[j + 1] == kept[i]);
            }
        } else {
            lemma_punish_kept(rest, expire_time, months_left, free, locked);
            let tail = punish_kept(rest, expire_time, months_left, free, locked);
            lemma_sum_concat(seq![items[0]], tail, deposit_value());
            lemma_sum_one(items[0], deposit_value());
            assert forall|i: int| 0 <= i < kept.len() implies items.contains(#[trigger] kept[i]) by {
                if i == 0 {
                    assert(items[0] == kept[0]);
                } else {
                    assert(kept[i] == tail[i - 1]);
                    let j = choose|j: int| 0 <= j < rest.len() && rest[j] == tail[i - 1];
                    assert(items[j + 1] == kept[i]);
                }
            }
        }
    }
}

/// A punished claim keeps a ledger well formed.
pub proof fn lemma_claim_with_punish_wf(
    l: LedgerView,
    expire_time: Moment,
    now: Moment,
    free: Balance,
    locked: Balance,
)
    requires
        l.wf(),
    ensures
        l.claim_with_punish(expire_time, now, free, locked).wf(),
{
    let months_left = spec_months_left(expire_time, now);
    let kept = punish_kept(l.deposit_items, expire_time, months_left, free, locked);
    lemma_punish_kept(l.deposit_items, expire_time, months_left, free, locked);
    assert forall|i: int| 0 <= i < kept.len() implies (#[trigger] kept[i]).wf() by {
        let j = choose|j: int| 0 <= j < l.deposit_items.len() && l.deposit_items[j] == kept[i];
        assert(l.deposit_items[j].wf());
    }
}

/// Computes the whole months that are left until `expire_time`, at least one.
pub fn months_left(expire_time: Moment, now: Moment) -> (r: u32)
    requires
        expire_time > now,
    ensures
        r == spec_months_left(expire_time, now),
{
    let months: u64 = (expire_time - now) / MONTH_IN_SECONDS;
    if months < 1 {
        1
    } else if months > 0xffff_ffff {
        0xffff_ffff
    } else {
        months as u32
    }
}

/// Computes the fine for leaving a deposit of `value` Ring `months_left`
/// months early.
pub fn fine(value: Balance, months_left: u32) -> (r: Balance)
    ensures
        r == spec_fine(value, months_left),
{
    let earned: Balance = kton_return(value, months_left);
    match earned.checked_mul(3) {
        Some(f) => f,
        None => u128::MAX,
    }
}

impl StakingLedgers {
    /// Claims at `now` the deposits that expire at `expire_time`, for a stash
    /// with `free` Kton of which `locked` must stay in the account. Each such
    /// deposit leaves if the Kton that is left pays its fine, and stays if not.
    /// Returns the fines to take from the stash, in order.
    pub fn claim_deposits_with_punish(
        &mut self,
        expire_time: Moment,
        now: Moment,
        free: Balance,
        locked: Balance,
    ) -> (fines: Vec<Balance>)
        requires
            old(self)@.wf(),
            expire_time > now,
        ensures
            final(self)@ == old(self)@.claim_with_punish(expire_time, now, free, locked),
            final(self)@.wf(),
            fines@ == old(self)@.claim_fines(expire_time, now, free, locked),
    {
        let ghost items = self.deposit_items@;
        let left: u32 = months_left(expire_time, now);
        let n: usize = self.deposit_items.len();
        let mut kept: Vec<TimeDepositItem> = Vec::new();
        let mut fines: Vec<Balance> = Vec::new();
        let mut free_now: Balance = free;
        let mut released: Balance = 0;
        let mut i: usize = 0;
        proof {
            lemma_claim_with_punish_wf(self@, expire_time, now, free, locked);
            lemma_punish_kept(items, expire_time, left, free, locked);
            assert(items.skip(0) =~= items);
            assert(items.take(0) =~= Seq::<TimeDepositItem>::empty());
            assert(kept@ + punish_kept(items, expire_time, left, free, locked) =~= punish_kept(
                items,
                expire_time,
                left,
                free,
                locked,
            ));
            assert(fines@ + punish_fines(items, expire_time, left, free, locked) =~= punish_fines(
                items,
                expire_time,
                left,
                free,
                locked,
            ));
        }
        while i < n
            invariant
                *self == *old(self),
                self@.wf(),
                self.deposit_items@ == items,
                n == items.len(),
                0 <= i <= n,
                left == spec_months_left(expire_time, now),
                kept@ + punish_kept(items.skip(i as int), expire_time, left, free_now, locked)
                    == punish_kept(items, expire_time, left, free, locked),
                fines@ + punish_fines(items.skip(i as int), expire_time, left, free_now, locked)
                    == punish_fines(items, expire_time, left, free, locked),
                sum_of(kept@, deposit_value()) + released == sum_of(
                    items.take(i as int),
                    deposit_value(),
                ),
                sum_of(kept@, deposit_value()) >= 0,
            decreases n - i,
        {
            let item = self.deposit_items[i];
            let f: Balance = fine(item.value, left);
            proof {
                let rest = items.skip(i as int);
                assert(rest[0] == item);
                assert(rest.skip(1) =~= items.skip(i + 1));
                lemma_sum_take_step(items, i as int, deposit_value());
                lemma_deposits_nonneg(items);
                lemma_sum_take_le(items, i + 1, deposit_value());
                lemma_sum_push(kept@, item, deposit_value());
            }
            if item.expire_time == expire_time && free_now >= f && free_now - f >= locked {
                free_now = free_now - f;
                released = released + item.value;
                proof {
                    let tail = punish_fines(
                        items.skip(i + 1),
                        expire_time,
                        left,
                        free_now,
                        locked,
                    );
                    assert(fines@.push(f) + tail =~= fines@ + (seq![f] + tail));
                }
                fines.push(f);
            } else {
                proof {
                    let tail = punish_kept(
                        items.skip(i + 1),
                        expire_time,
                        left,
                        free_now,
                        locked,
                    );
                    assert(kept@.push(item) + tail =~= kept@ + (seq![item] + tail));
                }
                kept.push(item);
            }
            i += 1;
        }
        proof {
            assert(items.take(n as int) =~= items);
            assert(items.skip(n as int) =~= Seq::<TimeDepositItem>::empty());
            assert(kept@ + Seq::<TimeDepositItem>::empty() =~= kept@);
            assert(fines@ + Seq::<Balance>::empty() =~= fines@);
        }
        self.active_deposit_ring = self.active_deposit_ring - released;
        self.deposit_items = kept;
        fines
    }
}

} // verus!
