//! Slashing the Ring of a ledger: the normal active Ring first, then the time
//! deposits, the one that expires last first.

use crate::ledger::{
    deposit_value, lemma_deposits_nonneg, min_balance, LedgerView, StakingLedgers, TimeDepositItem,
};
use crate::sums::{lemma_sum_concat, lemma_sum_first, lemma_sum_one, lemma_sum_push, sum_of};
use crate::types::Balance;
use vstd::prelude::*;

verus! {

/// `sorted` with `x` put behind every deposit that expires no earlier than
/// `x`.
pub open spec fn insert_desc(sorted: Seq<TimeDepositItem>, x: TimeDepositItem) -> Seq<
    TimeDepositItem,
>
    decreases sorted.len(),
{
    if sorted.len() == 0 {
        seq![x]
    } else if sorted.last().expire_time >= x.expire_time {
        sorted.push(x)
    } else {
        insert_desc(sorted.drop_last(), x).push(sorted.last())
    }
}

/// The deposits ordered from the one that expires last to the one that
/// expires first; deposits that expire together keep their order.
pub open spec fn sort_desc(items: Seq<TimeDepositItem>) -> Seq<TimeDepositItem>
    decreases items.len(),
{
    if items.len() == 0 {
        items
    } else {
        insert_desc(sort_desc(items.drop_last()), items.last())
    }
}

/// No deposit stands before one that expires later.
pub open spec fn is_sorted_desc(items: Seq<TimeDepositItem>) -> bool {
    forall|i: int, j: int|
        0 <= i <= j < items.len() ==> items[i].expire_time >= items[j].expire_time
}

/// The deposits after `amount` Ring is taken from them, front first: a deposit
/// gives what it has until the amount is met, and one that gave all it had is
/// dropped.
pub open spec fn sweep(items: Seq<TimeDepositItem>, amount: Balance) -> Seq<TimeDepositItem>
    decreases items.len(),
{
    if items.len() == 0 || amount == 0 {
        items
    } else {
        let cut = min_balance(amount, items[0].value);
        let rest = sweep(items.skip(1), (amount - cut) as Balance);
        if items[0].value == cut {
            rest
        } else {
            seq![TimeDepositItem { value: (items[0].value - cut) as Balance, ..items[0] }] + rest
        }
    }
}

impl LedgerView {
    /// The Ring that a slash of `amount` takes from the ledger: at most the
    /// active Ring.
    pub open spec fn ring_slashed(self, amount: Balance) -> Balance {
        min_balance(amount, self.active_ring)
    }

    /// The part of that slash that the normal active Ring does not cover and
    /// the deposits pay.
    pub open spec fn deposits_slashed(self, amount: Balance) -> Balance {
        (self.ring_slashed(amount) - min_balance(self.ring_slashed(amount), self.normal_ring()))
            as Balance
    }

    /// The ledger after up to `amount` of its active Ring is slashed: the
    /// normal active Ring first, then the deposits, the one that expires last
    /// first. The unlocking chunks are not touched.
    pub open spec fn slash_ring(self, amount: Balance) -> LedgerView {
        LedgerView {
            active_ring: (self.active_ring - self.ring_slashed(amount)) as Balance,
            total_ring: (self.total_ring - self.ring_slashed(amount)) as Balance,
            active_deposit_ring: (self.active_deposit_ring - self.deposits_slashed(amount))
                as Balance,
            deposit_items: if self.deposits_slashed(amount) == 0 {
                self.deposit_items
            } else {
                sweep(sort_desc(self.deposit_items), self.deposits_slashed(amount))
            },
            ..self
        }
    }
}

/// Every deposit runs for a whole number of months, from one to 36.
pub open spec fn all_wf(items: Seq<TimeDepositItem>) -> bool {
    forall|i: int| 0 <= i < items.len() ==> (#[trigger] items[i]).wf()
}

/// Putting a deposit in place adds it and nothing else.
pub proof fn lemma_insert_desc(sorted: Seq<TimeDepositItem>, x: TimeDepositItem)
    ensures
        insert_desc(sorted, x).len() == sorted.len() + 1,
        sum_of(insert_desc(sorted, x), deposit_value()) == sum_of(sorted, deposit_value())
            + x.value,
        all_wf(sorted) && x.wf() ==> all_wf(insert_desc(sorted, x)),
        insert_desc(sorted, x).to_multiset() == sorted.to_multiset().insert(x),
        is_sorted_desc(sorted) ==> is_sorted_desc(insert_desc(sorted, x)),
        forall|i: int|
            0 <= i < insert_desc(sorted, x).len() ==> (#[trigger] insert_desc(sorted, x)[i]) == x
                || sorted.contains(insert_desc(sorted, x)[i]),
    decreases sorted.len(),
{
    broadcast use vstd::seq_lib::group_to_multiset_ensures;

    let r = insert_desc(sorted, x);
    if sorted.len() == 0 {
        lemma_sum_one(x, deposit_value());
        assert(sorted =~= Seq::empty());
        assert(seq![x] =~= Seq::<TimeDepositItem>::empty().push(x));
    } else if sorted.last().expire_time >= x.expire_time {
        lemma_sum_push(sorted, x, deposit_value());
        assert forall|i: int| 0 <= i < r.len() implies (#[trigger] r[i]) == x || sorted.contains(
            r[i],
        ) by {
            if i < sorted.len() {
                assert(sorted[i] == r[i]);
            }
        }
        if is_sorted_desc(sorted) {
            assert forall|i: int, j: int| 0 <= i <= j < r.len() implies r[i].expire_time
                >= r[j].expire_time by {
                if j == sorted.len() && i < j {
                    assert(sorted[i].expire_time >= sorted[sorted.len() - 1].expire_time);
                }
            }
        }
    } else {
        let front = sorted.drop_last();
        let last = sorted.last();
        lemma_insert_desc(front, x);
        let inner = insert_desc(front, x);
        lemma_sum_push(inner, last, deposit_value());
        lemma_sum_push(front, last, deposit_value());
        assert(front.push(last) =~= sorted);
        assert(sorted.to_multiset() == front.to_multiset().insert(last));
        assert(r.to_multiset() =~= sorted.to_multiset().insert(x));
        assert forall|i: int| 0 <= i < r.len() implies (#[trigger] r[i]) == x || sorted.contains(
            r[i],
        ) by {
            if i < inner.len() {
                assert(r[i] == inner[i]);
                if inner[i] != x {
                    let j = choose|j: int| 0 <= j < front.len() && front[j] == inner[i];
                    assert(sorted[j] == r[i]);
                }
            } else {
                assert(sorted[sorted.len() - 1] == r[i]);
            }
        }
        if all_wf(sorted) && x.wf() {
            assert forall|i: int| 0 <= i < front.len() implies (#[trigger] front[i]).wf() by {
                assert(front[i] == sorted[i]);
            }
            assert(sorted[sorted.len() - 1].wf());
        }
        if is_sorted_desc(sorted) {
            assert forall|i: int, j: int| 0 <= i <= j < front.len() implies front[i].expire_time
                >= front[j].expire_time by {
                assert(front[i] == sorted[i] && front[j] == sorted[j]);
            }
            assert forall|i: int, j: int| 0 <= i <= j < r.len() implies r[i].expire_time
                >= r[j].expire_time by {
                if j == inner.len() && i < j {
                    if inner[i] != x {
                        let k = choose|k: int| 0 <= k < front.len() && front[k] == inner[i];
                        assert(sorted[k].expire_time >= sorted[sorted.len() - 1].expire_time);
                    }
                }
            }
        }
    }
}

/// Where `x` belongs at place `j`, `insert_desc` puts it there.
pub proof fn lemma_insert_desc_at(sorted: Seq<TimeDepositItem>, x: TimeDepositItem, j: int)
    requires
        0 <= j <= sorted.len(),
        forall|k: int| j <= k < sorted.len() ==> sorted[k].expire_time < x.expire_time,
        j > 0 ==> sorted[j - 1].expire_time >= x.expire_time,
    ensures
        insert_desc(sorted, x) == sorted.insert(j, x),
    decreases sorted.len(),
{
    if sorted.len() == 0 {
        assert(seq![x] =~= sorted.insert(j, x));
    } else if sorted.last().expire_time >= x.expire_time {
        assert(j == sorted.len()) by {
            if j < sorted.len() {
                assert(sorted[sorted.len() - 1].expire_time < x.expire_time);
            }
        }
        assert(sorted.push(x) =~= sorted.insert(j, x));
    } else {
        assert(j < sorted.len());
        let front = sorted.drop_last();
        lemma_insert_desc_at(front, x, j);
        assert(front.insert(j, x).push(sorted.last()) =~= sorted.insert(j, x));
    }
}

/// Ordering the deposits keeps every deposit and its Ring, and leaves no
/// deposit before one that expires later.
pub proof fn lemma_sort_desc(items: Seq<TimeDepositItem>)
    ensures
        sort_desc(items).len() == items.len(),
        sum_of(sort_desc(items), deposit_value()) == sum_of(items, deposit_value()),
        all_wf(items) ==> all_wf(sort_desc(items)),
        sort_desc(items).to_multiset() == items.to_multiset(),
        is_sorted_desc(sort_desc(items)),
    decreases items.len(),
{
    broadcast use vstd::seq_lib::group_to_multiset_ensures;

    if items.len() > 0 {
        let front = items.drop_last();
        lemma_sort_desc(front);
        lemma_insert_desc(sort_desc(front), items.last());
        assert(front.push(items.last()) =~= items);
        if all_wf(items) {
            assert forall|i: int| 0 <= i < front.len() implies (#[trigger] front[i]).wf() by {
                assert(front[i] == items[i]);
            }
            assert(items[items.len() - 1].wf());
        }
    }
}

/// Taking Ring from the deposits takes the amount, or all there is, and leaves
/// the times of what stays.
pub proof fn lemma_sweep(items: Seq<TimeDepositItem>, amount: Balance)
    ensures
        sum_of(sweep(items, amount), deposit_value()) == if amount <= sum_of(
            items,
            deposit_value(),
        ) {
            sum_of(items, deposit_value()) - amount
        } else {
            0
        },
        all_wf(items) ==> all_wf(sweep(items, amount)),
        sweep(items, amount).len() <= items.len(),
    decreases items.len(),
{
    lemma_deposits_nonneg(items);
    if items.len() == 0 || amount == 0 {
    } else {
        let cut = min_balance(amount, items[0].value);
        let tail = items.skip(1);
        let rest = sweep(tail, (amount - cut) as Balance);
        lemma_sweep(tail, (amount - cut) as Balance);
        lemma_sum_first(items, deposit_value());
        lemma_deposits_nonneg(tail);
        let head = TimeDepositItem { value: (items[0].value - cut) as Balance, ..items[0] };
        if items[0].value != cut {
            lemma_sum_concat(seq![head], rest, deposit_value());
            lemma_sum_one(head, deposit_value());
        }
        if all_wf(items) {
            assert forall|i: int| 0 <= i < tail.len() implies (#[trigger] tail[i]).wf() by {
                assert(tail[i] == items[i + 1]);
            }
            assert(items[0].wf());
            assert(head.wf());
            let r = sweep(items, amount);
            assert forall|i: int| 0 <= i < r.len() implies (#[trigger] r[i]).wf() by {
                if items[0].value != cut {
                    if i > 0 {
                        assert(r[i] == rest[i - 1]);
                    }
                }
            }
        }
    }
}

/// A slash of Ring keeps a ledger well formed and its unlocking chunks as
/// they are.
pub proof fn lemma_slash_ring_wf(l: LedgerView, amount: Balance)
    requires
        l.wf(),
    ensures
        l.slash_ring(amount).wf(),
        l.slash_ring(amount).unlocking == l.unlocking,
        l.deposits_slashed(amount) <= l.active_deposit_ring,
{
    let left = l.deposits_slashed(amount);
    if left != 0 {
        lemma_sort_desc(l.deposit_items);
        lemma_sweep(sort_desc(l.deposit_items), left);
    }
}

/// Orders the deposits from the one that expires last to the one that expires
/// first; deposits that expire together keep their order.
pub fn sort_deposits(items: &Vec<TimeDepositItem>) -> (r: Vec<TimeDepositItem>)
    ensures
        r@ == sort_desc(items@),
{
    let n: usize = items.len();
    let mut out: Vec<TimeDepositItem> = Vec::new();
    let mut i: usize = 0;
    proof {
        assert(items@.take(0) =~= Seq::<TimeDepositItem>::empty());
    }
    while i < n
        invariant
            n == items@.len(),
            0 <= i <= n,
            out@ == sort_desc(items@.take(i as int)),
            out@.len() == i,
        decreases n - i,
    {
        let x = items[i];
        let mut j: usize = out.len();
        while j > 0 && out[j - 1].expire_time < x.expire_time
            invariant
                0 <= j <= out@.len(),
                forall|k: int| j <= k < out@.len() ==> out@[k].expire_time < x.expire_time,
            decreases j,
        {
            j -= 1;
        }
        proof {
            lemma_insert_desc_at(out@, x, j as int);
            assert(items@.take(i + 1).drop_last() =~= items@.take(i as int));
            assert(items@.take(i + 1).last() == x);
        }
        out.insert(j, x);
        i += 1;
    }
    proof {
        assert(items@.take(n as int) =~= items@);
    }
    out
}

/// Takes `amount` Ring from the deposits, front first, and drops each deposit
/// that gave all it had.
pub fn sweep_deposits(items: &Vec<TimeDepositItem>, amount: Balance) -> (r: Vec<TimeDepositItem>)
    ensures
        r@ == sweep(items@, amount),
{
    let n: usize = items.len();
    let mut out: Vec<TimeDepositItem> = Vec::new();
    let mut left: Balance = amount;
    let mut i: usize = 0;
    proof {
        assert(items@.skip(0) =~= items@);
        assert(out@ + sweep(items@, amount) =~= sweep(items@, amount));
    }
    while i < n
        invariant
            n == items@.len(),
            0 <= i <= n,
            out@ + sweep(items@.skip(i as int), left) == sweep(items@, amount),
        decreases n - i,
    {
        let item = items[i];
        proof {
            let rest = items@.skip(i as int);
            assert(rest[0] == item);
            assert(rest.skip(1) =~= items@.skip(i + 1));
        }
        if left == 0 {
            proof {
                let rest = items@.skip(i as int);
                assert(rest =~= seq![item] + items@.skip(i + 1));
                assert(sweep(items@.skip(i + 1), 0) == items@.skip(i + 1));
                assert(out@.push(item) + items@.skip(i + 1) =~= out@ + rest);
            }
            out.push(item);
        } else {
            let cut: Balance = if left <= item.value {
                left
            } else {
                item.value
            };
            left = left - cut;
            if item.value != cut {
                let reduced = TimeDepositItem { value: item.value - cut, ..item };
                proof {
                    let tail = sweep(items@.skip(i + 1), left);
                    assert(out@.push(reduced) + tail =~= out@ + (seq![reduced] + tail));
                }
                out.push(reduced);
            }
        }
        i += 1;
    }
    proof {
        assert(items@.skip(n as int) =~= Seq::<TimeDepositItem>::empty());
        assert(out@ + Seq::<TimeDepositItem>::empty() =~= out@);
    }
    out
}

impl StakingLedgers {
    /// Slashes up to `amount` of the active Ring: the normal active Ring
    /// first, then the deposits, the one that expires last first. A deposit
    /// that lost all its Ring is dropped. Returns the Ring that was slashed.
    pub fn slash_ring(&mut self, amount: Balance) -> (slashed: Balance)
        requires
            old(self)@.wf(),
        ensures
            final(self)@ == old(self)@.slash_ring(amount),
            final(self)@.wf(),
            slashed == old(self)@.ring_slashed(amount),
    {
        proof {
            lemma_slash_ring_wf(self@, amount);
        }
        let taken: Balance = if amount <= self.active_ring {
            amount
        } else {
            self.active_ring
        };
        let normal: Balance = self.active_ring - self.active_deposit_ring;
        let from_normal: Balance = if taken <= normal {
            taken
        } else {
            normal
        };
        let left: Balance = taken - from_normal;
        self.active_ring = self.active_ring - taken;
        self.total_ring = self.total_ring - taken;
        if left != 0 {
            let sorted = sort_deposits(&self.deposit_items);
            self.deposit_items = sweep_deposits(&sorted, left);
            self.active_deposit_ring = self.active_deposit_ring - left;
        }
        taken
    }
}

} // verus!
