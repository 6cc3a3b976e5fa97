//! Equalizing: an optional pass after the election that spreads the stake of
//! each nominator over the winners that it backs, so that their supports
//! come closer to each other.
//!
//! The pass visits the nominators in order, a fixed number of times. For one
//! nominator it takes the nominator's stake off its winners, orders the
//! winners from the least support to the most (winners of equal support keep
//! their order), and fills the supports up from the least to a common level
//! as far as the nominator's stake reaches.

use crate::exposure::copy_vec;
use crate::phragmen::clip;
use crate::types::{AccountId, ExtendedBalance};
use vstd::prelude::*;

verus! {

/// The difference under which a nominator is left as it is.
pub const EQUALIZE_TOLERANCE: u128 = 0;

/// The number of passes over the nominators.
pub const EQUALIZE_ITERATIONS: usize = 2;

/// The stake that a nominator gives one winner.
#[derive(Clone, Copy, Debug, PartialEq, Eq)]
pub struct StakedEdge {
    /// The place of the winner among the winners.
    pub index: usize,
    pub stake: ExtendedBalance,
    /// Whether the winner lists the nominator among those that back it.
    pub listed: bool,
}

/// The stake of a nominator, split over the winners that it backs.
#[derive(Clone, Debug, PartialEq, Eq)]
pub struct StakedAssignment {
    pub who: AccountId,
    /// All the stake that the nominator has.
    pub budget: ExtendedBalance,
    pub edges: Vec<StakedEdge>,
}

/// The mathematical value of a staked assignment.
pub struct StakedView {
    pub who: AccountId,
    pub budget: ExtendedBalance,
    pub edges: Seq<StakedEdge>,
}

impl View for StakedAssignment {
    type V = StakedView;

    open spec fn view(&self) -> StakedView {
        StakedView { who: self.who, budget: self.budget, edges: self.edges@ }
    }
}

/// The values of a sequence of staked assignments.
pub open spec fn staked_views(staked: Seq<StakedAssignment>) -> Seq<StakedView> {
    staked.map_values(|a: StakedAssignment| a@)
}

/// A difference, or nothing where more is taken than there is.
pub open spec fn sat_sub(a: u128, b: u128) -> u128 {
    if a >= b {
        (a - b) as u128
    } else {
        0
    }
}

/// Every edge goes to one of `n` winners.
pub open spec fn edges_wf(edges: Seq<StakedEdge>, n: nat) -> bool {
    forall|i: int| 0 <= i < edges.len() ==> (#[trigger] edges[i]).index < n
}

/// Every edge of every assignment goes to one of `n` winners.
pub open spec fn staked_wf(staked: Seq<StakedView>, n: nat) -> bool {
    forall|i: int| 0 <= i < staked.len() ==> edges_wf((#[trigger] staked[i]).edges, n)
}

/// The stake that the first `upto` edges give.
pub open spec fn stake_used(edges: Seq<StakedEdge>, upto: int) -> u128
    decreases upto,
{
    if upto <= 0 {
        0
    } else {
        clip(stake_used(edges, upto - 1) + edges[upto - 1].stake)
    }
}

/// Whether one of the first `upto` edges gives any stake.
pub open spec fn backs_any(edges: Seq<StakedEdge>, upto: int) -> bool
    decreases upto,
{
    if upto <= 0 {
        false
    } else {
        backs_any(edges, upto - 1) || edges[upto - 1].stake > 0
    }
}

/// The most support among the winners to which the first `upto` edges give
/// stake; nothing where none gives any.
pub open spec fn most_backed(edges: Seq<StakedEdge>, totals: Seq<u128>, upto: int) -> u128
    decreases upto,
{
    if upto <= 0 {
        0
    } else {
        let before = most_backed(edges, totals, upto - 1);
        let e = edges[upto - 1];
        if e.stake > 0 && totals[e.index as int] > before {
            totals[e.index as int]
        } else {
            before
        }
    }
}

/// The least support among the winners of the first `upto` edges; the largest
/// number where there is none.
pub open spec fn least_backed(edges: Seq<StakedEdge>, totals: Seq<u128>, upto: int) -> u128
    decreases upto,
{
    if upto <= 0 {
        u128::MAX
    } else {
        let before = least_backed(edges, totals, upto - 1);
        let e = edges[upto - 1];
        if totals[e.index as int] < before {
            totals[e.index as int]
        } else {
            before
        }
    }
}

/// How far the supports of a nominator's winners are from each other, plus
/// the stake that the nominator has not given; all its stake where it has
/// given none.
pub open spec fn difference(a: StakedView, totals: Seq<u128>) -> u128 {
    let n = a.edges.len() as int;
    if backs_any(a.edges, n) {
        clip(
            sat_sub(most_backed(a.edges, totals, n), least_backed(a.edges, totals, n)) + sat_sub(
                a.budget,
                stake_used(a.edges, n),
            ),
        )
    } else {
        a.budget
    }
}

/// Whether a nominator is left as it is: it backs no winner, or its winners
/// are closer to each other than `tolerance`.
pub open spec fn settled(a: StakedView, totals: Seq<u128>, tolerance: u128) -> bool {
    a.edges.len() == 0 || (backs_any(a.edges, a.edges.len() as int) && difference(a, totals)
        < tolerance)
}

/// The supports after the stake of the first `upto` edges is taken off.
pub open spec fn undone(totals: Seq<u128>, edges: Seq<StakedEdge>, upto: int) -> Seq<u128>
    decreases upto,
{
    if upto <= 0 {
        totals
    } else {
        let before = undone(totals, edges, upto - 1);
        let e = edges[upto - 1];
        before.update(e.index as int, sat_sub(before[e.index as int], e.stake))
    }
}

/// An edge that gives nothing and is not listed.
pub open spec fn emptied() -> spec_fn(StakedEdge) -> StakedEdge {
    |e: StakedEdge| StakedEdge { index: e.index, stake: 0, listed: false }
}

/// `sorted` with `x` put behind every edge whose winner has no more support
/// than that of `x`.
pub open spec fn insert_asc(sorted: Seq<StakedEdge>, x: StakedEdge, totals: Seq<u128>) -> Seq<
    StakedEdge,
>
    decreases sorted.len(),
{
    if sorted.len() == 0 {
        seq![x]
    } else if totals[sorted.last().index as int] <= totals[x.index as int] {
        sorted.push(x)
    } else {
        insert_asc(sorted.drop_last(), x, totals).push(sorted.last())
    }
}

/// The edges ordered from the winner of least support to that of most; edges
/// to winners of equal support keep their order.
pub open spec fn sort_asc(edges: Seq<StakedEdge>, totals: Seq<u128>) -> Seq<StakedEdge>
    decreases edges.len(),
{
    if edges.len() == 0 {
        edges
    } else {
        insert_asc(sort_asc(edges.drop_last(), totals), edges.last(), totals)
    }
}

/// How far a budget reaches over the first `upto` edges, ordered by support:
/// the place of the first edge whose winner has more support than the budget
/// can lift the winners before it to (-1 where there is none), and the support
/// of the winners before that place, added up.
pub open spec fn reach(edges: Seq<StakedEdge>, totals: Seq<u128>, budget: u128, upto: int) -> (
    int,
    u128,
)
    decreases upto,
{
    if upto <= 0 {
        (-1, 0)
    } else {
        let (stop, sum) = reach(edges, totals, budget, upto - 1);
        let support = totals[edges[upto - 1].index as int];
        if stop >= 0 {
            (stop, sum)
        } else if sat_sub(clip(support * (upto - 1)), sum) > budget {
            (upto - 1, sum)
        } else {
            (-1, clip(sum + support))
        }
    }
}

/// The place of the last edge that the budget reaches.
pub open spec fn last_reached(edges: Seq<StakedEdge>, totals: Seq<u128>, budget: u128) -> int {
    let stop = reach(edges, totals, budget, edges.len() as int).0;
    if stop < 0 {
        edges.len() - 1
    } else if stop == 0 {
        0
    } else {
        stop - 1
    }
}

/// The supports after the first `upto` edges are filled up to `level`.
pub open spec fn filled_totals(edges: Seq<StakedEdge>, totals: Seq<u128>, level: u128, upto: int) -> Seq<
    u128,
>
    decreases upto,
{
    if upto <= 0 {
        totals
    } else {
        let before = filled_totals(edges, totals, level, upto - 1);
        let at = edges[upto - 1].index as int;
        before.update(at, clip(before[at] + sat_sub(level, before[at])))
    }
}

/// The edges after the first `upto` are filled up to `level`: each gives what
/// its winner lacks to the level, and is listed.
pub open spec fn filled_edges(edges: Seq<StakedEdge>, totals: Seq<u128>, level: u128, upto: int) -> Seq<
    StakedEdge,
>
    decreases upto,
{
    if upto <= 0 {
        edges
    } else {
        let before = filled_edges(edges, totals, level, upto - 1);
        let sofar = filled_totals(edges, totals, level, upto - 1);
        let at = edges[upto - 1].index as int;
        before.update(
            upto - 1,
            StakedEdge { index: edges[upto - 1].index, stake: sat_sub(level, sofar[at]), listed: true },
        )
    }
}

/// The level to which a budget lifts the winners that it reaches: their
/// support and the budget, split evenly.
pub open spec fn level_of(edges: Seq<StakedEdge>, totals: Seq<u128>, budget: u128) -> u128 {
    let last = last_reached(edges, totals, budget);
    let ways = last + 1;
    let sum = reach(edges, totals, budget, edges.len() as int).1;
    let last_support = totals[edges[last].index as int];
    let excess = sat_sub(clip(budget + sum), clip(last_support * ways));
    clip(excess / (ways as u128) + last_support)
}

/// The edges of a nominator after it is rebalanced over supports `totals`.
pub open spec fn rebalanced_edges(a: StakedView, totals: Seq<u128>, tolerance: u128) -> Seq<
    StakedEdge,
> {
    if settled(a, totals, tolerance) {
        a.edges
    } else {
        let off = undone(totals, a.edges, a.edges.len() as int);
        let sorted = sort_asc(a.edges.map_values(emptied()), off);
        filled_edges(
            sorted,
            off,
            level_of(sorted, off, a.budget),
            last_reached(sorted, off, a.budget) + 1,
        )
    }
}

/// The supports after a nominator is rebalanced.
pub open spec fn rebalanced_totals(a: StakedView, totals: Seq<u128>, tolerance: u128) -> Seq<u128> {
    if settled(a, totals, tolerance) {
        totals
    } else {
        let off = undone(totals, a.edges, a.edges.len() as int);
        let sorted = sort_asc(a.edges.map_values(emptied()), off);
        filled_totals(
            sorted,
            off,
            level_of(sorted, off, a.budget),
            last_reached(sorted, off, a.budget) + 1,
        )
    }
}

/// A nominator after it is rebalanced.
pub open spec fn rebalanced(a: StakedView, totals: Seq<u128>, tolerance: u128) -> StakedView {
    StakedView { edges: rebalanced_edges(a, totals, tolerance), ..a }
}

/// The supports after the first `upto` nominators are rebalanced, one after
/// the other.
pub open spec fn pass_totals(staked: Seq<StakedView>, totals: Seq<u128>, tolerance: u128, upto: int) -> Seq<
    u128,
>
    decreases upto,
{
    if upto <= 0 {
        totals
    } else {
        rebalanced_totals(
            staked[upto - 1],
            pass_totals(staked, totals, tolerance, upto - 1),
            tolerance,
        )
    }
}

/// The nominators after the first `upto` of them are rebalanced.
pub open spec fn pass_staked(staked: Seq<StakedView>, totals: Seq<u128>, tolerance: u128, upto: int) -> Seq<
    StakedView,
>
    decreases upto,
{
    if upto <= 0 {
        staked
    } else {
        pass_staked(staked, totals, tolerance, upto - 1).update(
            upto - 1,
            rebalanced(staked[upto - 1], pass_totals(staked, totals, tolerance, upto - 1), tolerance),
        )
    }
}

/// The largest difference that a pass over the first `upto` nominators meets.
pub open spec fn pass_difference(
    staked: Seq<StakedView>,
    totals: Seq<u128>,
    tolerance: u128,
    upto: int,
) -> u128
    decreases upto,
{
    if upto <= 0 {
        0
    } else {
        let before = pass_difference(staked, totals, tolerance, upto - 1);
        let a = staked[upto - 1];
        let here = if a.edges.len() == 0 {
            0
        } else {
            difference(a, pass_totals(staked, totals, tolerance, upto - 1))
        };
        if here > before {
            here
        } else {
            before
        }
    }
}

/// The nominators after `iterations` passes; the passes end early after one
/// that meets no difference of `tolerance` or more.
pub open spec fn equalized_staked(
    staked: Seq<StakedView>,
    totals: Seq<u128>,
    tolerance: u128,
    iterations: nat,
) -> Seq<StakedView>
    decreases iterations,
{
    if iterations == 0 {
        staked
    } else {
        let n = staked.len() as int;
        let next = pass_staked(staked, totals, tolerance, n);
        if pass_difference(staked, totals, tolerance, n) < tolerance {
            next
        } else {
            equalized_staked(
                next,
                pass_totals(staked, totals, tolerance, n),
                tolerance,
                (iterations - 1) as nat,
            )
        }
    }
}

/// The supports after those passes.
pub open spec fn equalized_totals(
    staked: Seq<StakedView>,
    totals: Seq<u128>,
    tolerance: u128,
    iterations: nat,
) -> Seq<u128>
    decreases iterations,
{
    if iterations == 0 {
        totals
    } else {
        let n = staked.len() as int;
        let next = pass_totals(staked, totals, tolerance, n);
        if pass_difference(staked, totals, tolerance, n) < tolerance {
            next
        } else {
            equalized_totals(
                pass_staked(staked, totals, tolerance, n),
                next,
                tolerance,
                (iterations - 1) as nat,
            )
        }
    }
}


/// Taking stake off leaves as many supports as there were.
pub proof fn lemma_undone_len(totals: Seq<u128>, edges: Seq<StakedEdge>, upto: int)
    requires
        edges_wf(edges, totals.len()),
        upto <= edges.len(),
    ensures
        undone(totals, edges, upto).len() == totals.len(),
    decreases upto,
{
    if upto > 0 {
        lemma_undone_len(totals, edges, upto - 1);
    }
}

/// Putting an edge in place adds it and nothing else.
pub proof fn lemma_insert_asc(sorted: Seq<StakedEdge>, x: StakedEdge, totals: Seq<u128>)
    requires
        edges_wf(sorted, totals.len()),
        x.index < totals.len(),
    ensures
        insert_asc(sorted, x, totals).len() == sorted.len() + 1,
        edges_wf(insert_asc(sorted, x, totals), totals.len()),
    decreases sorted.len(),
{
    if sorted.len() > 0 && !(totals[sorted.last().index as int] <= totals[x.index as int]) {
        let front = sorted.drop_last();
        assert forall|i: int| 0 <= i < front.len() implies (#[trigger] front[i]).index
            < totals.len() by {
            assert(front[i] == sorted[i]);
        }
        lemma_insert_asc(front, x, totals);
        assert(sorted[sorted.len() - 1].index < totals.len());
    }
}

/// Where `x` belongs at place `j`, `insert_asc` puts it there.
pub proof fn lemma_insert_asc_at(sorted: Seq<StakedEdge>, x: StakedEdge, totals: Seq<u128>, j: int)
    requires
        0 <= j <= sorted.len(),
        forall|k: int| j <= k < sorted.len() ==> totals[sorted[k].index as int] > totals[x.index as int],
        j > 0 ==> totals[sorted[j - 1].index as int] <= totals[x.index as int],
    ensures
        insert_asc(sorted, x, totals) == sorted.insert(j, x),
    decreases sorted.len(),
{
    if sorted.len() == 0 {
        assert(seq![x] =~= sorted.insert(j, x));
    } else if totals[sorted.last().index as int] <= totals[x.index as int] {
        assert(j == sorted.len()) by {
            if j < sorted.len() {
                assert(totals[sorted[sorted.len() - 1].index as int] > totals[x.index as int]);
            }
        }
        assert(sorted.push(x) =~= sorted.insert(j, x));
    } else {
        let front = sorted.drop_last();
        lemma_insert_asc_at(front, x, totals, j);
        assert(front.insert(j, x).push(sorted.last()) =~= sorted.insert(j, x));
    }
}

/// Ordering keeps the number of edges and the winners they go to.
pub proof fn lemma_sort_asc(edges: Seq<StakedEdge>, totals: Seq<u128>)
    requires
        edges_wf(edges, totals.len()),
    ensures
        sort_asc(edges, totals).len() == edges.len(),
        edges_wf(sort_asc(edges, totals), totals.len()),
    decreases edges.len(),
{
    if edges.len() > 0 {
        let front = edges.drop_last();
        assert forall|i: int| 0 <= i < front.len() implies (#[trigger] front[i]).index
            < totals.len() by {
            assert(front[i] == edges[i]);
        }
        lemma_sort_asc(front, totals);
        assert(edges[edges.len() - 1].index < totals.len());
        lemma_insert_asc(sort_asc(front, totals), edges.last(), totals);
    }
}

/// A budget reaches at least the first edge and at most the last.
pub proof fn lemma_reach(edges: Seq<StakedEdge>, totals: Seq<u128>, budget: u128, upto: int)
    requires
        0 <= upto <= edges.len(),
    ensures
        -1 <= reach(edges, totals, budget, upto).0 < upto,
    decreases upto,
{
    if upto > 0 {
        lemma_reach(edges, totals, budget, upto - 1);
    }
}

/// Filling keeps the number of supports and of edges, and the winners that
/// the edges go to.
pub proof fn lemma_filled(edges: Seq<StakedEdge>, totals: Seq<u128>, level: u128, upto: int)
    requires
        edges_wf(edges, totals.len()),
        upto <= edges.len(),
    ensures
        filled_totals(edges, totals, level, upto).len() == totals.len(),
        filled_edges(edges, totals, level, upto).len() == edges.len(),
        edges_wf(filled_edges(edges, totals, level, upto), totals.len()),
        forall|i: int|
            upto <= i < edges.len() && 0 <= i ==> (#[trigger] filled_edges(
                edges,
                totals,
                level,
                upto,
            )[i]) == edges[i],
    decreases upto,
{
    if upto > 0 {
        lemma_filled(edges, totals, level, upto - 1);
        assert(edges[upto - 1].index < totals.len());
    }
}

/// Rebalancing keeps the number of supports and the winners that the edges
/// go to.
pub proof fn lemma_rebalanced(a: StakedView, totals: Seq<u128>, tolerance: u128)
    requires
        edges_wf(a.edges, totals.len()),
    ensures
        rebalanced_totals(a, totals, tolerance).len() == totals.len(),
        rebalanced_edges(a, totals, tolerance).len() == a.edges.len(),
        edges_wf(rebalanced_edges(a, totals, tolerance), totals.len()),
{
    if !settled(a, totals, tolerance) {
        let n = a.edges.len() as int;
        let off = undone(totals, a.edges, n);
        lemma_undone_len(totals, a.edges, n);
        let plain = a.edges.map_values(emptied());
        assert forall|i: int| 0 <= i < plain.len() implies (#[trigger] plain[i]).index < off.len() by {
            assert(plain[i].index == a.edges[i].index);
        }
        lemma_sort_asc(plain, off);
        let sorted = sort_asc(plain, off);
        lemma_reach(sorted, off, a.budget, sorted.len() as int);
        lemma_filled(
            sorted,
            off,
            level_of(sorted, off, a.budget),
            last_reached(sorted, off, a.budget) + 1,
        );
    }
}

/// Two nominators are the same account with the same stake and as many edges.
pub open spec fn same_shape(a: StakedView, b: StakedView) -> bool {
    a.who == b.who && a.budget == b.budget && a.edges.len() == b.edges.len()
}

/// A pass keeps the number of supports, the nominators with their stake and
/// the number of their edges, and the winners that the edges go to.
pub proof fn lemma_pass(staked: Seq<StakedView>, totals: Seq<u128>, tolerance: u128, upto: int)
    requires
        staked_wf(staked, totals.len()),
        upto <= staked.len(),
    ensures
        pass_totals(staked, totals, tolerance, upto).len() == totals.len(),
        pass_staked(staked, totals, tolerance, upto).len() == staked.len(),
        staked_wf(pass_staked(staked, totals, tolerance, upto), totals.len()),
        forall|i: int|
            upto <= i < staked.len() && 0 <= i ==> (#[trigger] pass_staked(
                staked,
                totals,
                tolerance,
                upto,
            )[i]) == staked[i],
        forall|i: int|
            0 <= i < staked.len() ==> same_shape(
                #[trigger] pass_staked(staked, totals, tolerance, upto)[i],
                staked[i],
            ),
    decreases upto,
{
    if upto > 0 {
        lemma_pass(staked, totals, tolerance, upto - 1);
        assert(edges_wf(staked[upto - 1].edges, totals.len()));
        lemma_rebalanced(
            staked[upto - 1],
            pass_totals(staked, totals, tolerance, upto - 1),
            tolerance,
        );
    }
}

/// Equalizing keeps the number of supports, the nominators with their stake
/// and the number of their edges, and the winners that the edges go to.
pub proof fn lemma_equalized(
    staked: Seq<StakedView>,
    totals: Seq<u128>,
    tolerance: u128,
    iterations: nat,
)
    requires
        staked_wf(staked, totals.len()),
    ensures
        equalized_totals(staked, totals, tolerance, iterations).len() == totals.len(),
        equalized_staked(staked, totals, tolerance, iterations).len() == staked.len(),
        staked_wf(equalized_staked(staked, totals, tolerance, iterations), totals.len()),
        forall|i: int|
            0 <= i < staked.len() ==> same_shape(
                #[trigger] equalized_staked(staked, totals, tolerance, iterations)[i],
                staked[i],
            ),
    decreases iterations,
{
    if iterations > 0 {
        let n = staked.len() as int;
        lemma_pass(staked, totals, tolerance, n);
        let next = pass_staked(staked, totals, tolerance, n);
        if !(pass_difference(staked, totals, tolerance, n) < tolerance) {
            lemma_equalized(
                next,
                pass_totals(staked, totals, tolerance, n),
                tolerance,
                (iterations - 1) as nat,
            );
            let last = equalized_staked(staked, totals, tolerance, iterations);
            assert forall|i: int| 0 <= i < staked.len() implies same_shape(
                #[trigger] last[i],
                staked[i],
            ) by {
                assert(same_shape(next[i], staked[i]));
            }
        }
    }
}

/// The product of two numbers, kept at the largest number where it does not
/// fit.
pub fn mul_clipped(a: u128, b: u128) -> (r: u128)
    ensures
        r == clip(a * b),
{
    match a.checked_mul(b) {
        Some(p) => p,
        None => u128::MAX,
    }
}

/// Whether the nominator gives any stake, and how far the supports of its
/// winners are from each other.
pub fn difference_of(a: &StakedAssignment, totals: &Vec<u128>) -> (r: (bool, u128))
    requires
        edges_wf(a@.edges, totals@.len()),
    ensures
        r.0 == backs_any(a@.edges, a@.edges.len() as int),
        r.1 == difference(a@, totals@),
{
    let n: usize = a.edges.len();
    let mut used: u128 = 0;
    let mut backs: bool = false;
    let mut most: u128 = 0;
    let mut least: u128 = u128::MAX;
    let mut i: usize = 0;
    while i < n
        invariant
            n == a@.edges.len(),
            0 <= i <= n,
            edges_wf(a@.edges, totals@.len()),
            used == stake_used(a@.edges, i as int),
            backs == backs_any(a@.edges, i as int),
            most == most_backed(a@.edges, totals@, i as int),
            least == least_backed(a@.edges, totals@, i as int),
        decreases n - i,
    {
        let e = a.edges[i];
        assert(a@.edges[i as int].index < totals@.len());
        let support: u128 = totals[e.index];
        used = used.saturating_add(e.stake);
        if e.stake > 0 {
            backs = true;
            if support > most {
                most = support;
            }
        }
        if support < least {
            least = support;
        }
        i += 1;
    }
    if backs {
        (true, most.saturating_sub(least).saturating_add(a.budget.saturating_sub(used)))
    } else {
        (false, a.budget)
    }
}

/// Takes the stake of the edges off the supports.
pub fn undo(totals: &mut Vec<u128>, edges: &Vec<StakedEdge>)
    requires
        edges_wf(edges@, old(totals)@.len()),
    ensures
        final(totals)@ == undone(old(totals)@, edges@, edges@.len() as int),
        final(totals)@.len() == old(totals)@.len(),
{
    let n: usize = edges.len();
    let mut i: usize = 0;
    while i < n
        invariant
            n == edges@.len(),
            0 <= i <= n,
            edges_wf(edges@, totals@.len()),
            totals@.len() == old(totals)@.len(),
            totals@ == undone(old(totals)@, edges@, i as int),
        decreases n - i,
    {
        let e = edges[i];
        assert(edges@[i as int].index < totals@.len());
        let support: u128 = totals[e.index];
        totals.set(e.index, support.saturating_sub(e.stake));
        i += 1;
    }
}

/// The edges, each giving nothing and not listed, ordered from the winner of
/// least support to that of most.
pub fn sort_edges(edges: &Vec<StakedEdge>, totals: &Vec<u128>) -> (r: Vec<StakedEdge>)
    requires
        edges_wf(edges@, totals@.len()),
    ensures
        r@ == sort_asc(edges@.map_values(emptied()), totals@),
        r@.len() == edges@.len(),
        edges_wf(r@, totals@.len()),
{
    let ghost plain = edges@.map_values(emptied());
    let n: usize = edges.len();
    let mut out: Vec<StakedEdge> = Vec::new();
    let mut i: usize = 0;
    proof {
        assert(plain.take(0) =~= Seq::<StakedEdge>::empty());
        assert forall|k: int| 0 <= k < plain.len() implies (#[trigger] plain[k]).index
            < totals@.len() by {
            assert(plain[k].index == edges@[k].index);
        }
    }
    while i < n
        invariant
            n == edges@.len(),
            plain == edges@.map_values(emptied()),
            edges_wf(edges@, totals@.len()),
            edges_wf(plain, totals@.len()),
            0 <= i <= n,
            out@ == sort_asc(plain.take(i as int), totals@),
            out@.len() == i,
            edges_wf(out@, totals@.len()),
        decreases n - i,
    {
        let e = edges[i];
        assert(edges@[i as int].index < totals@.len());
        let x = StakedEdge { index: e.index, stake: 0, listed: false };
        let key: u128 = totals[x.index];
        let mut j: usize = out.len();
        while j > 0 && totals[out[j - 1].index] > key
            invariant
                0 <= j <= out@.len(),
                edges_wf(out@, totals@.len()),
                x.index < totals@.len(),
                key == totals@[x.index as int],
                forall|k: int| j <= k < out@.len() ==> totals@[out@[k].index as int] > key,
            decreases j,
        {
            j -= 1;
        }
        proof {
            lemma_insert_asc_at(out@, x, totals@, j as int);
            lemma_insert_asc(out@, x, totals@);
            assert(plain.take(i + 1).drop_last() =~= plain.take(i as int));
            assert(plain.take(i + 1).last() == x);
        }
        out.insert(j, x);
        i += 1;
    }
    proof {
        assert(plain.take(n as int) =~= plain);
    }
    out
}

/// How far a budget reaches over the edges, ordered by support: the place of
/// the last edge that it reaches, and the support of the winners that it
/// reaches, added up.
pub fn reach_of(edges: &Vec<StakedEdge>, totals: &Vec<u128>, budget: u128) -> (r: (usize, u128))
    requires
        edges_wf(edges@, totals@.len()),
        edges@.len() > 0,
    ensures
        r.0 == last_reached(edges@, totals@, budget),
        r.0 < edges@.len(),
        r.1 == reach(edges@, totals@, budget, edges@.len() as int).1,
{
    let n: usize = edges.len();
    let mut sum: u128 = 0;
    let mut stop: Option<usize> = None;
    let mut i: usize = 0;
    while i < n
        invariant
            n == edges@.len(),
            0 <= i <= n,
            edges_wf(edges@, totals@.len()),
            match stop {
                Some(at) => at < i && reach(edges@, totals@, budget, i as int).0 == at,
                None => reach(edges@, totals@, budget, i as int).0 == -1,
            },
            sum == reach(edges@, totals@, budget, i as int).1,
        decreases n - i,
    {
        if stop.is_none() {
            assert(edges@[i as int].index < totals@.len());
            let support: u128 = totals[edges[i].index];
            if mul_clipped(support, i as u128).saturating_sub(sum) > budget {
                stop = Some(i);
            } else {
                sum = sum.saturating_add(support);
            }
        }
        i += 1;
    }
    let last: usize = match stop {
        Some(at) => if at == 0 {
            0
        } else {
            at - 1
        },
        None => n - 1,
    };
    (last, sum)
}

/// Fills the supports of the first `ways` edges up to `level`.
pub fn fill(edges: &mut Vec<StakedEdge>, totals: &mut Vec<u128>, level: u128, ways: usize)
    requires
        edges_wf(old(edges)@, old(totals)@.len()),
        ways <= old(edges)@.len(),
    ensures
        final(edges)@ == filled_edges(old(edges)@, old(totals)@, level, ways as int),
        final(totals)@ == filled_totals(old(edges)@, old(totals)@, level, ways as int),
{
    let mut i: usize = 0;
    while i < ways
        invariant
            0 <= i <= ways,
            ways <= old(edges)@.len(),
            edges_wf(old(edges)@, old(totals)@.len()),
            edges@ == filled_edges(old(edges)@, old(totals)@, level, i as int),
            totals@ == filled_totals(old(edges)@, old(totals)@, level, i as int),
        decreases ways - i,
    {
        proof {
            lemma_filled(old(edges)@, old(totals)@, level, i as int);
            assert(old(edges)@[i as int].index < old(totals)@.len());
        }
        let e = edges[i];
        let support: u128 = totals[e.index];
        let stake: u128 = level.saturating_sub(support);
        totals.set(e.index, support.saturating_add(stake));
        edges.set(i, StakedEdge { index: e.index, stake, listed: true });
        i += 1;
    }
}

/// Rebalances one nominator over the supports: its stake is taken off its
/// winners and given anew, to the winners of least support first. A nominator
/// that backs no winner, or whose winners are closer to each other than
/// `tolerance`, is left as it is. Returns how far the winners were from each
/// other; nothing for a nominator that backs no winner.
pub fn rebalance(a: &mut StakedAssignment, totals: &mut Vec<u128>, tolerance: u128) -> (r: u128)
    requires
        edges_wf(old(a)@.edges, old(totals)@.len()),
    ensures
        final(a)@ == rebalanced(old(a)@, old(totals)@, tolerance),
        final(totals)@ == rebalanced_totals(old(a)@, old(totals)@, tolerance),
        r == if old(a)@.edges.len() == 0 {
            0
        } else {
            difference(old(a)@, old(totals)@)
        },
{
    if a.edges.len() == 0 {
        return 0;
    }
    let (backs, diff) = difference_of(a, totals);
    if backs && diff < tolerance {
        return diff;
    }
    proof {
        lemma_undone_len(totals@, a@.edges, a@.edges.len() as int);
    }
    undo(totals, &a.edges);
    let mut sorted = sort_edges(&a.edges, totals);
    let (last, sum) = reach_of(&sorted, totals, a.budget);
    let ways: usize = last + 1;
    assert(sorted@[last as int].index < totals@.len());
    let last_support: u128 = totals[sorted[last].index];
    let excess: u128 = a.budget.saturating_add(sum).saturating_sub(
        mul_clipped(last_support, ways as u128),
    );
    let level: u128 = (excess / (ways as u128)).saturating_add(last_support);
    fill(&mut sorted, totals, level, ways);
    a.edges = sorted;
    diff
}

/// One pass: rebalances the nominators one after the other. Returns the
/// largest difference that it met.
pub fn equalize_pass(staked: &mut Vec<StakedAssignment>, totals: &mut Vec<u128>, tolerance: u128) -> (r:
    u128)
    requires
        staked_wf(staked_views(old(staked)@), old(totals)@.len()),
    ensures
        staked_views(final(staked)@) == pass_staked(
            staked_views(old(staked)@),
            old(totals)@,
            tolerance,
            old(staked)@.len() as int,
        ),
        final(totals)@ == pass_totals(
            staked_views(old(staked)@),
            old(totals)@,
            tolerance,
            old(staked)@.len() as int,
        ),
        r == pass_difference(
            staked_views(old(staked)@),
            old(totals)@,
            tolerance,
            old(staked)@.len() as int,
        ),
        final(totals)@.len() == old(totals)@.len(),
        staked_wf(staked_views(final(staked)@), final(totals)@.len()),
{
    let ghost before = staked_views(staked@);
    let ghost first = totals@;
    let n: usize = staked.len();
    let mut most: u128 = 0;
    let mut i: usize = 0;
    proof {
        lemma_pass(before, first, tolerance, n as int);
    }
    while i < n
        invariant
            n == before.len(),
            staked@.len() == n,
            0 <= i <= n,
            staked_wf(before, first.len()),
            staked_views(staked@) == pass_staked(before, first, tolerance, i as int),
            totals@ == pass_totals(before, first, tolerance, i as int),
            most == pass_difference(before, first, tolerance, i as int),
        decreases n - i,
    {
        proof {
            lemma_pass(before, first, tolerance, i as int);
            assert(staked_views(staked@)[i as int] == before[i as int]);
            assert(edges_wf(before[i as int].edges, first.len()));
        }
        let mut a = StakedAssignment {
            who: staked[i].who,
            budget: staked[i].budget,
            edges: copy_vec(&staked[i].edges),
        };
        assert(a@ == before[i as int]);
        let diff: u128 = rebalance(&mut a, totals, tolerance);
        if diff > most {
            most = diff;
        }
        let ghost views = staked_views(staked@);
        staked.set(i, a);
        proof {
            assert(staked_views(staked@) =~= views.update(i as int, a@));
        }
        i += 1;
    }
    proof {
        lemma_pass(before, first, tolerance, n as int);
    }
    most
}

/// Equalizes the supports: up to `iterations` passes over the nominators,
/// ending early after a pass that met no difference of `tolerance` or more.
pub fn equalize(
    staked: &mut Vec<StakedAssignment>,
    totals: &mut Vec<u128>,
    tolerance: u128,
    iterations: usize,
)
    requires
        staked_wf(staked_views(old(staked)@), old(totals)@.len()),
    ensures
        staked_views(final(staked)@) == equalized_staked(
            staked_views(old(staked)@),
            old(totals)@,
            tolerance,
            iterations as nat,
        ),
        final(totals)@ == equalized_totals(
            staked_views(old(staked)@),
            old(totals)@,
            tolerance,
            iterations as nat,
        ),
        final(staked)@.len() == old(staked)@.len(),
        final(totals)@.len() == old(totals)@.len(),
        staked_wf(staked_views(final(staked)@), final(totals)@.len()),
{
    let mut left: usize = iterations;
    while left > 0
        invariant
            0 <= left <= iterations,
            staked@.len() == old(staked)@.len(),
            totals@.len() == old(totals)@.len(),
            staked_wf(staked_views(staked@), totals@.len()),
            equalized_staked(staked_views(staked@), totals@, tolerance, left as nat)
                == equalized_staked(
                staked_views(old(staked)@),
                old(totals)@,
                tolerance,
                iterations as nat,
            ),
            equalized_totals(staked_views(staked@), totals@, tolerance, left as nat)
                == equalized_totals(
                staked_views(old(staked)@),
                old(totals)@,
                tolerance,
                iterations as nat,
            ),
        decreases left,
    {
        let ghost before = staked_views(staked@);
        let ghost first = totals@;
        proof {
            lemma_pass(before, first, tolerance, before.len() as int);
        }
        let most: u128 = equalize_pass(staked, totals, tolerance);
        if most < tolerance {
            return ;
        }
        left -= 1;
    }
}

} // verus!
