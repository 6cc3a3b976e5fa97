//! Sums over sequences, and what taking entries in and out does to them.

use vstd::prelude::*;

verus! {

/// The sum of `f` over the entries of `s`.
pub open spec fn sum_of<T>(s: Seq<T>, f: spec_fn(T) -> int) -> int
    decreases s.len(),
{
    if s.len() == 0 {
        0
    } else {
        sum_of(s.drop_last(), f) + f(s.last())
    }
}

/// Every entry of `s` has a value of `f` that is not negative.
pub open spec fn all_nonneg<T>(s: Seq<T>, f: spec_fn(T) -> int) -> bool {
    forall|i: int| 0 <= i < s.len() ==> f(#[trigger] s[i]) >= 0
}

pub proof fn lemma_sum_empty<T>(f: spec_fn(T) -> int)
    ensures
        sum_of(Seq::<T>::empty(), f) == 0,
{
}

pub proof fn lemma_sum_push<T>(s: Seq<T>, x: T, f: spec_fn(T) -> int)
    ensures
        sum_of(s.push(x), f) == sum_of(s, f) + f(x),
{
    assert(s.push(x).drop_last() =~= s);
}

pub proof fn lemma_sum_concat<T>(a: Seq<T>, b: Seq<T>, f: spec_fn(T) -> int)
    ensures
        sum_of(a + b, f) == sum_of(a, f) + sum_of(b, f),
    decreases b.len(),
{
    if b.len() == 0 {
        assert(a + b =~= a);
    } else {
        assert((a + b).drop_last() =~= a + b.drop_last());
        lemma_sum_concat(a, b.drop_last(), f);
    }
}

pub proof fn lemma_sum_one<T>(x: T, f: spec_fn(T) -> int)
    ensures
        sum_of(seq![x], f) == f(x),
{
    assert(seq![x] =~= Seq::<T>::empty().push(x));
    lemma_sum_push(Seq::<T>::empty(), x, f);
}

/// A sequence is its first `i` entries, the entry at `i`, and the rest.
pub proof fn lemma_sum_split<T>(s: Seq<T>, i: int, f: spec_fn(T) -> int)
    requires
        0 <= i < s.len(),
    ensures
        sum_of(s, f) == sum_of(s.take(i), f) + f(s[i]) + sum_of(s.skip(i + 1), f),
{
    assert(s =~= s.take(i) + seq![s[i]] + s.skip(i + 1));
    lemma_sum_concat(s.take(i) + seq![s[i]], s.skip(i + 1), f);
    lemma_sum_concat(s.take(i), seq![s[i]], f);
    lemma_sum_one(s[i], f);
}

pub proof fn lemma_sum_update<T>(s: Seq<T>, i: int, x: T, f: spec_fn(T) -> int)
    requires
        0 <= i < s.len(),
    ensures
        sum_of(s.update(i, x), f) == sum_of(s, f) - f(s[i]) + f(x),
{
    let u = s.update(i, x);
    lemma_sum_split(s, i, f);
    lemma_sum_split(u, i, f);
    assert(u.take(i) =~= s.take(i));
    assert(u.skip(i + 1) =~= s.skip(i + 1));
}

pub proof fn lemma_sum_remove<T>(s: Seq<T>, i: int, f: spec_fn(T) -> int)
    requires
        0 <= i < s.len(),
    ensures
        sum_of(s.remove(i), f) == sum_of(s, f) - f(s[i]),
{
    lemma_sum_split(s, i, f);
    assert(s.remove(i) =~= s.take(i) + s.skip(i + 1));
    lemma_sum_concat(s.take(i), s.skip(i + 1), f);
}

pub proof fn lemma_sum_take_step<T>(s: Seq<T>, i: int, f: spec_fn(T) -> int)
    requires
        0 <= i < s.len(),
    ensures
        sum_of(s.take(i + 1), f) == sum_of(s.take(i), f) + f(s[i]),
{
    assert(s.take(i + 1) =~= s.take(i).push(s[i]));
    lemma_sum_push(s.take(i), s[i], f);
}

pub proof fn lemma_sum_first<T>(s: Seq<T>, f: spec_fn(T) -> int)
    requires
        0 < s.len(),
    ensures
        sum_of(s, f) == f(s[0]) + sum_of(s.skip(1), f),
{
    lemma_sum_split(s, 0, f);
    assert(s.take(0) =~= Seq::<T>::empty());
}

pub proof fn lemma_sum_nonneg<T>(s: Seq<T>, f: spec_fn(T) -> int)
    requires
        all_nonneg(s, f),
    ensures
        sum_of(s, f) >= 0,
    decreases s.len(),
{
    if s.len() > 0 {
        assert(s.last() == s[s.len() - 1]);
        assert forall|i: int| 0 <= i < s.drop_last().len() implies f(#[trigger] s.drop_last()[i])
            >= 0 by {
            assert(s.drop_last()[i] == s[i]);
        }
        lemma_sum_nonneg(s.drop_last(), f);
    }
}

/// Where nothing is negative, no entry exceeds the sum.
pub proof fn lemma_sum_bounds_entry<T>(s: Seq<T>, i: int, f: spec_fn(T) -> int)
    requires
        all_nonneg(s, f),
        0 <= i < s.len(),
    ensures
        0 <= f(s[i]) <= sum_of(s, f),
{
    lemma_sum_split(s, i, f);
    assert forall|j: int| 0 <= j < s.take(i).len() implies f(#[trigger] s.take(i)[j]) >= 0 by {
        assert(s.take(i)[j] == s[j]);
    }
    assert forall|j: int| 0 <= j < s.skip(i + 1).len() implies f(#[trigger] s.skip(i + 1)[j])
        >= 0 by {
        assert(s.skip(i + 1)[j] == s[j + i + 1]);
    }
    lemma_sum_nonneg(s.take(i), f);
    lemma_sum_nonneg(s.skip(i + 1), f);
}

/// Where nothing is negative, the sum of a part is at most the sum of the
/// whole.
pub proof fn lemma_sum_take_le<T>(s: Seq<T>, i: int, f: spec_fn(T) -> int)
    requires
        all_nonneg(s, f),
        0 <= i <= s.len(),
    ensures
        0 <= sum_of(s.take(i), f) <= sum_of(s, f),
{
    assert(s =~= s.take(i) + s.skip(i));
    lemma_sum_concat(s.take(i), s.skip(i), f);
    assert forall|j: int| 0 <= j < s.take(i).len() implies f(#[trigger] s.take(i)[j]) >= 0 by {
        assert(s.take(i)[j] == s[j]);
    }
    assert forall|j: int| 0 <= j < s.skip(i).len() implies f(#[trigger] s.skip(i)[j]) >= 0 by {
        assert(s.skip(i)[j] == s[j + i]);
    }
    lemma_sum_nonneg(s.take(i), f);
    lemma_sum_nonneg(s.skip(i), f);
}

/// What a filter keeps and what the opposite filter keeps add up to the whole.
pub proof fn lemma_sum_filter_split<T>(
    s: Seq<T>,
    keep: spec_fn(T) -> bool,
    drop: spec_fn(T) -> bool,
    f: spec_fn(T) -> int,
)
    requires
        forall|x: T| #[trigger] keep(x) == !drop(x),
    ensures
        sum_of(s.filter(keep), f) + sum_of(s.filter(drop), f) == sum_of(s, f),
    decreases s.len(),
{
    reveal(Seq::filter);
    if s.len() > 0 {
        lemma_sum_filter_split(s.drop_last(), keep, drop, f);
        let x = s.last();
        assert(keep(x) == !drop(x));
        if keep(x) {
            lemma_sum_push(s.drop_last().filter(keep), x, f);
        } else {
            lemma_sum_push(s.drop_last().filter(drop), x, f);
        }
    }
}

/// A filter over entries that all pass keeps the sequence.
pub proof fn lemma_filter_all<T>(s: Seq<T>, keep: spec_fn(T) -> bool)
    requires
        forall|i: int| 0 <= i < s.len() ==> keep(#[trigger] s[i]),
    ensures
        s.filter(keep) == s,
    decreases s.len(),
{
    reveal(Seq::filter);
    if s.len() > 0 {
        assert forall|i: int| 0 <= i < s.drop_last().len() implies keep(
            #[trigger] s.drop_last()[i],
        ) by {
            assert(s.drop_last()[i] == s[i]);
        }
        lemma_filter_all(s.drop_last(), keep);
        assert(s.drop_last().push(s.last()) =~= s);
    }
}

/// A filter over entries that all fail keeps nothing.
pub proof fn lemma_filter_none<T>(s: Seq<T>, keep: spec_fn(T) -> bool)
    requires
        forall|i: int| 0 <= i < s.len() ==> !keep(#[trigger] s[i]),
    ensures
        s.filter(keep) == Seq::<T>::empty(),
    decreases s.len(),
{
    reveal(Seq::filter);
    if s.len() > 0 {
        assert forall|i: int| 0 <= i < s.drop_last().len() implies !keep(
            #[trigger] s.drop_last()[i],
        ) by {
            assert(s.drop_last()[i] == s[i]);
        }
        lemma_filter_none(s.drop_last(), keep);
    } else {
        assert(s =~= Seq::<T>::empty());
    }
}

/// What a filter keeps passes the filter, and is no longer than the sequence.
pub proof fn lemma_filter_passes<T>(s: Seq<T>, keep: spec_fn(T) -> bool)
    ensures
        forall|i: int| 0 <= i < s.filter(keep).len() ==> keep(#[trigger] s.filter(keep)[i]),
        forall|i: int|
            0 <= i < s.filter(keep).len() ==> s.contains(#[trigger] s.filter(keep)[i]),
        s.filter(keep).len() <= s.len(),
    decreases s.len(),
{
    reveal(Seq::filter);
    if s.len() > 0 {
        lemma_filter_passes(s.drop_last(), keep);
        let d = s.drop_last();
        assert forall|i: int| 0 <= i < s.filter(keep).len() implies s.contains(
            #[trigger] s.filter(keep)[i],
        ) by {
            if i < d.filter(keep).len() {
                let x = d.filter(keep)[i];
                assert(d.contains(x));
                let j = choose|j: int| 0 <= j < d.len() && d[j] == x;
                assert(s[j] == x);
            } else {
                assert(s[s.len() - 1] == s.last());
            }
        }
    }
}

/// A filter step: the filter of the first `i + 1` entries from that of the
/// first `i`.
pub proof fn lemma_filter_take_step<T>(s: Seq<T>, i: int, keep: spec_fn(T) -> bool)
    requires
        0 <= i < s.len(),
    ensures
        s.take(i + 1).filter(keep) == if keep(s[i]) {
            s.take(i).filter(keep).push(s[i])
        } else {
            s.take(i).filter(keep)
        },
{
    reveal(Seq::filter);
    assert(s.take(i + 1).drop_last() =~= s.take(i));
}

} // verus!
