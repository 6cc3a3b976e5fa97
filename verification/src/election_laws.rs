//! What holds of every election: no candidate wins twice, and each winner is
//! stored with its exposure.

use crate::assoc::Assoc;
use crate::elect::{lemma_best_bounds, lemma_elect_shape, lemma_initial_wf, lemma_rounds_shape};
use crate::election::{lemma_backers_bounded, put_exposures, remove_keys, winner_account};
use crate::exposure::ExposureView;
use crate::module::{targets_wf, ModuleView};
use crate::power::POWER_COUNT;
use crate::phragmen::{
    initial_election, min_count, normalized, share_parts, Election, Seat, Share, Staked,
};
use crate::per_things::BILLION;
use crate::sums::{lemma_sum_bounds_entry, lemma_sum_nonneg, lemma_sum_take_step, sum_of};
use crate::types::AccountId;
use vstd::prelude::*;
use vstd::set_lib::lemma_len_subset;

verus! {

/// No two candidates are the same account.
pub open spec fn distinct_seats(e: Election) -> bool {
    forall|i: int, j: int|
        0 <= i < e.seats.len() && 0 <= j < e.seats.len() && i != j ==> e.seats[i].who
            != e.seats[j].who
}

/// No two of the winners are the same account.
pub open spec fn distinct_winners(winners: Seq<Staked>) -> bool {
    forall|a: int, b: int|
        0 <= a < winners.len() && 0 <= b < winners.len() && a != b ==> winners[a].who
            != winners[b].who
}

/// A candidate that is elected stays elected.
pub proof fn lemma_elected_stays(e: Election, k: nat, i: int)
    requires
        e.wf(),
        0 <= i < e.seats.len(),
    ensures
        e.seats[i].elected ==> e.rounds(k).seats[i].elected,
        k > 0 && e.rounds((k - 1) as nat).seats[i].elected ==> e.rounds(k).seats[i].elected,
    decreases k,
{
    if k > 0 {
        let before = e.rounds((k - 1) as nat);
        lemma_elected_stays(e, (k - 1) as nat, i);
        lemma_rounds_shape(e, (k - 1) as nat);
        lemma_best_bounds(before, before.seats.len() as int);
    }
}

/// Each winner of the first `k` rounds is a candidate that is elected after
/// them, and no candidate is among the winners twice.
pub proof fn lemma_winners_distinct(e: Election, k: nat)
    requires
        e.wf(),
        distinct_seats(e),
    ensures
        forall|j: int|
            0 <= j < e.winners(k).len() ==> exists|i: int|
                0 <= i < e.seats.len() && e.seats[i].who == (#[trigger] e.winners(k)[j]).who
                    && e.rounds(k).seats[i].elected,
        distinct_winners(e.winners(k)),
    decreases k,
{
    if k > 0 {
        let before = e.rounds((k - 1) as nat);
        let earlier = e.winners((k - 1) as nat);
        let ws = e.winners(k);
        lemma_winners_distinct(e, (k - 1) as nat);
        lemma_rounds_shape(e, (k - 1) as nat);
        lemma_rounds_shape(e, k);
        lemma_best_bounds(before, before.seats.len() as int);
        let w = before.winner();
        assert forall|j: int| 0 <= j < ws.len() implies exists|i: int|
            0 <= i < e.seats.len() && e.seats[i].who == (#[trigger] ws[j]).who && e.rounds(
                k,
            ).seats[i].elected by {
            if j < earlier.len() {
                assert(ws[j] == earlier[j]);
                let i = choose|i: int|
                    0 <= i < e.seats.len() && e.seats[i].who == earlier[j].who
                        && before.seats[i].elected;
                lemma_elected_stays(e, k, i);
            } else {
                assert(before.seats[w].who == e.seats[w].who);
                assert(e.rounds(k).seats[w].elected);
            }
        }
        assert forall|a: int, b: int|
            0 <= a < ws.len() && 0 <= b < ws.len() && a != b implies ws[a].who != ws[b].who by {
            if a < earlier.len() && b < earlier.len() {
                assert(ws[a] == earlier[a] && ws[b] == earlier[b]);
            } else {
                let old = if a < earlier.len() {
                    a
                } else {
                    b
                };
                assert(ws[old] == earlier[old]);
                let i = choose|i: int|
                    0 <= i < e.seats.len() && e.seats[i].who == earlier[old].who
                        && before.seats[i].elected;
                assert(i != w);
                assert(e.seats[i].who != e.seats[w].who);
                assert(before.seats[w].who == e.seats[w].who);
            }
        }
    }
}

/// The account of a candidate.
pub open spec fn seat_account() -> spec_fn(Seat) -> AccountId {
    |s: Seat| s.who
}

/// Each candidate that is elected after the first `k` rounds is among their
/// winners.
pub proof fn lemma_elected_are_winners(e: Election, k: nat)
    requires
        e.wf(),
        forall|i: int| 0 <= i < e.seats.len() ==> !(#[trigger] e.seats[i]).elected,
    ensures
        forall|i: int|
            0 <= i < e.seats.len() && (#[trigger] e.rounds(k).seats[i]).elected ==> exists|j: int|
                0 <= j < e.winners(k).len() && (#[trigger] e.winners(k)[j]).who == e.seats[i].who,
    decreases k,
{
    lemma_rounds_shape(e, k);
    if k > 0 {
        let before = e.rounds((k - 1) as nat);
        let earlier = e.winners((k - 1) as nat);
        let ws = e.winners(k);
        lemma_elected_are_winners(e, (k - 1) as nat);
        lemma_rounds_shape(e, (k - 1) as nat);
        lemma_best_bounds(before, before.seats.len() as int);
        let w = before.winner();
        assert forall|i: int|
            0 <= i < e.seats.len() && (#[trigger] e.rounds(k).seats[i]).elected implies exists|
            j: int,
        | 0 <= j < ws.len() && (#[trigger] ws[j]).who == e.seats[i].who by {
            if w >= 0 && i == w {
                assert(ws[ws.len() - 1].who == before.seats[w].who);
                assert(before.seats[w].who == e.seats[w].who);
            } else {
                assert(before.seats[i].elected);
                let j = choose|j: int|
                    0 <= j < earlier.len() && (#[trigger] earlier[j]).who == e.seats[i].who;
                assert(ws[j] == earlier[j]);
            }
        }
    }
}

/// Each of the first rounds, as many as there are candidates, elects one:
/// `k` rounds have `k` winners.
pub proof fn lemma_each_round_elects(e: Election, k: nat)
    requires
        e.wf(),
        distinct_seats(e),
        forall|i: int| 0 <= i < e.seats.len() ==> !(#[trigger] e.seats[i]).elected,
        k <= e.seats.len(),
    ensures
        e.winners(k).len() == k,
    decreases k,
{
    if k > 0 {
        let before = e.rounds((k - 1) as nat);
        let earlier = e.winners((k - 1) as nat);
        lemma_each_round_elects(e, (k - 1) as nat);
        lemma_rounds_shape(e, (k - 1) as nat);
        lemma_best_bounds(before, before.seats.len() as int);
        if before.winner() < 0 {
            // All candidates are elected, so all are among fewer winners.
            lemma_elected_are_winners(e, (k - 1) as nat);
            let seats = e.seats.map_values(seat_account());
            let won = earlier.map_values(winner_account());
            assert(seats.no_duplicates());
            seats.unique_seq_to_set();
            won.lemma_cardinality_of_set();
            assert(seats.to_set().subset_of(won.to_set())) by {
                assert forall|a: AccountId| seats.to_set().contains(a) implies won.to_set().contains(
                    a,
                ) by {
                    let i = choose|i: int| 0 <= i < seats.len() && seats[i] == a;
                    assert(before.seats[i].elected);
                    let j = choose|j: int|
                        0 <= j < earlier.len() && (#[trigger] earlier[j]).who == e.seats[i].who;
                    assert(won[j] == a);
                }
            }
            lemma_len_subset(seats.to_set(), won.to_set());
        }
    }
}

/// Taking keys out of a map leaves it well formed.
pub proof fn lemma_remove_keys_wf(a: Assoc<ExposureView>, keys: Seq<AccountId>, upto: int)
    requires
        a.wf(),
    ensures
        remove_keys(a, keys, upto).wf(),
    decreases upto,
{
    if upto > 0 {
        lemma_remove_keys_wf(a, keys, upto - 1);
        remove_keys(a, keys, upto - 1).lemma_del(keys[upto - 1]);
    }
}

/// Binding distinct winners to their exposures binds each to its own.
pub proof fn lemma_put_exposures(
    a: Assoc<ExposureView>,
    winners: Seq<Staked>,
    exposures: Seq<ExposureView>,
    upto: int,
)
    requires
        a.wf(),
        distinct_winners(winners),
        0 <= upto <= winners.len(),
        winners.len() == exposures.len(),
    ensures
        put_exposures(a, winners, exposures, upto).wf(),
        forall|k: int|
            0 <= k < upto ==> put_exposures(a, winners, exposures, upto).get(
                (#[trigger] winners[k]).who,
            ) == Some(exposures[k]),
    decreases upto,
{
    if upto > 0 {
        lemma_put_exposures(a, winners, exposures, upto - 1);
        let before = put_exposures(a, winners, exposures, upto - 1);
        before.lemma_put(winners[upto - 1].who, exposures[upto - 1]);
        let after = put_exposures(a, winners, exposures, upto);
        assert forall|k: int| 0 <= k < upto implies after.get((#[trigger] winners[k]).who) == Some(
            exposures[k],
        ) by {
            if k < upto - 1 {
                assert(winners[k].who != winners[upto - 1].who);
                assert(before.get(winners[k].who) == Some(exposures[k]));
            }
        }
    }
}

/// After the validators are chosen, as many have won as were asked for, or
/// all candidates where there are fewer; no account is among the winners
/// twice; and the map of stakers holds each winner with its exposure.
pub proof fn lemma_winners_are_stored(s: ModuleView)
    requires
        s.wf(),
        s.election().is_some(),
    ensures
        s.election().unwrap().winners.len() == min_count(
            s.validator_count as int,
            s.validators.keys.len() as int,
        ),
        distinct_winners(s.election().unwrap().winners),
        forall|k: int|
            0 <= k < s.election().unwrap().winners.len() ==> s.select_validators().stakers.get(
                (#[trigger] s.election().unwrap().winners[k]).who,
            ) == Some(s.exposures(s.election().unwrap())[k]),
{
    let result = s.election().unwrap();
    let candidates = s.candidates();
    let start = initial_election(candidates, s.nominations());
    let k = min_count(s.validator_count as usize as int, candidates.len() as int) as nat;
    lemma_initial_wf(candidates, s.nominations());
    assert forall|i: int, j: int|
        0 <= i < start.seats.len() && 0 <= j < start.seats.len() && i != j implies start.seats[i].who
        != start.seats[j].who by {
        assert(start.seats[i].who == s.validators.keys[i]);
        assert(start.seats[j].who == s.validators.keys[j]);
    }
    lemma_winners_distinct(start, k);
    lemma_each_round_elects(start, k);
    let cleared = remove_keys(s.stakers, s.current_elected, s.current_elected.len() as int);
    lemma_remove_keys_wf(s.stakers, s.current_elected, s.current_elected.len() as int);
    lemma_put_exposures(cleared, result.winners, s.exposures(result), result.winners.len() as int);
}

/// The exposure of each winner of an election in a well-formed state has as
/// its total the winner's own power plus that of its nominators, where the
/// validators and the nominators can be counted in a machine word.
pub proof fn lemma_exposures_wf(s: ModuleView, k: int)
    requires
        s.wf(),
        s.validators.keys.len() <= usize::MAX,
        s.nominators.keys.len() <= usize::MAX,
        s.election().is_some(),
        0 <= k < s.election().unwrap().winners.len(),
    ensures
        s.exposure_at(s.election().unwrap(), k).wf(),
{
    let result = s.election().unwrap();
    assert forall|i: int| 0 <= i < s.nominations().len() implies (
    #[trigger] s.nominations()[i]).targets.len() <= 16 by {
        assert(targets_wf()(s.nominators.vals[i]));
    }
    lemma_elect_shape(
        s.validator_count as usize,
        s.minimum_candidates(),
        s.candidates(),
        s.nominations(),
        16,
    );
    s.lemma_final_staked_bounded(result);
    let staked = s.final_staked(result);
    lemma_backers_bounded(staked, k, staked.len() as int);
    s.lemma_power_bounded(result.winners[k].who);
    assert(16 * staked.len() * POWER_COUNT <= 16 * 0x2_0000_0000_0000_0000 * POWER_COUNT)
        by (nonlinear_arith)
        requires
            staked.len() <= 0x2_0000_0000_0000_0000,
    ;
}

/// One where `i` is under `left`, nothing else.
pub open spec fn one_more(i: int, left: int) -> int {
    if i < left {
        1
    } else {
        0
    }
}

/// Shares that each have `each` more parts than the shares of `raw`, and one
/// more for the first `left`, add up to what `raw` adds up to and what came.
pub proof fn lemma_evened_sum(raw: Seq<Share>, evened: Seq<Share>, each: int, left: int, upto: int)
    requires
        evened.len() == raw.len(),
        0 <= left,
        0 <= upto <= raw.len(),
        forall|i: int|
            0 <= i < raw.len() ==> (#[trigger] evened[i]).parts == raw[i].parts + each + one_more(
                i,
                left,
            ),
    ensures
        sum_of(evened.take(upto), share_parts()) == sum_of(raw.take(upto), share_parts()) + each
            * upto + min_count(upto, left),
    decreases upto,
{
    if upto == 0 {
        assert(evened.take(0) =~= Seq::<Share>::empty());
        assert(raw.take(0) =~= Seq::<Share>::empty());
        assert(each * 0 == 0) by (nonlinear_arith);
    } else {
        lemma_evened_sum(raw, evened, each, left, upto - 1);
        lemma_sum_take_step(evened, upto - 1, share_parts());
        lemma_sum_take_step(raw, upto - 1, share_parts());
        assert(each * upto == each * (upto - 1) + each) by (nonlinear_arith);
    }
}

/// Shares that add up to one whole at most are made to add up to one whole
/// exactly, each staying with its winner.
pub proof fn lemma_normalized_is_whole(raw: Seq<Share>)
    requires
        raw.len() > 0,
        sum_of(raw, share_parts()) <= BILLION,
    ensures
        normalized(raw).len() == raw.len(),
        forall|i: int| 0 <= i < raw.len() ==> (#[trigger] normalized(raw)[i]).who == raw[i].who,
        forall|i: int| 0 <= i < raw.len() ==> (#[trigger] normalized(raw)[i]).parts >= raw[i].parts,
        sum_of(normalized(raw), share_parts()) == BILLION,
{
    let n = raw.len() as int;
    let sum = sum_of(raw, share_parts());
    let missing = BILLION - sum;
    let each = missing / n;
    let left = missing - each * n;
    let evened = normalized(raw);
    assert forall|i: int| 0 <= i < raw.len() implies share_parts()(#[trigger] raw[i]) >= 0 by {}
    lemma_sum_nonneg(raw, share_parts());
    assert(0 <= each && each * n <= missing && 0 <= left < n) by (nonlinear_arith)
        requires
            each == missing / n,
            left == missing - each * n,
            n > 0,
            missing >= 0,
    ;
    assert(n >= 2 ==> 2 * each <= missing) by (nonlinear_arith)
        requires
            each * n <= missing,
            0 <= each,
            n > 0,
    ;
    assert forall|i: int| 0 <= i < raw.len() implies (#[trigger] evened[i]).parts == raw[i].parts
        + each + one_more(i, left) by {
        lemma_sum_bounds_entry(raw, i, share_parts());
        if n == 1 {
            assert(each * 1 == each) by (nonlinear_arith);
        }
    }
    lemma_evened_sum(raw, evened, each, left, n);
    assert(evened.take(n) =~= evened);
    assert(raw.take(n) =~= raw);
}

} // verus!
