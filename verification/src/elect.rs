//! Running the proportional election.

use crate::exposure::copy_vec;
use crate::per_things::{mul_div, BILLION};
use crate::phragmen::{
    approval_of, assignments_of, carried_load, clip, edge_after, edge_share, edges_of, first_index,
    has_edge, initial_election, initial_seats, initial_voters, min_count, nominating_voter,
    normalized, own_voter, raw_shares, share_parts, spec_elect, voter_after, voter_backing,
    voter_load, voter_views, Assignment, AssignmentView, Edge, Election, Nomination, NominationView,
    PhragmenResult, Seat, Share, Staked, Voter, VoterView, DEN, LARGEST_SCORE,
};
use crate::sums::{lemma_sum_nonneg, lemma_sum_take_step, sum_of};
use crate::types::AccountId;
use vstd::prelude::*;

verus! {

/// The values of a sequence of nominations.
pub open spec fn nomination_views(nominations: Seq<Nomination>) -> Seq<NominationView> {
    nominations.map_values(|n: Nomination| n@)
}

/// The first place of `who` is where it stands with no earlier place holding
/// it.
pub proof fn lemma_first_index(candidates: Seq<Staked>, who: AccountId, i: int)
    requires
        0 <= i <= candidates.len(),
        forall|k: int| 0 <= k < i ==> candidates[k].who != who,
        i < candidates.len() ==> candidates[i].who == who,
    ensures
        first_index(candidates, who) == if i < candidates.len() {
            i
        } else {
            -1
        },
    decreases candidates.len(),
{
    if candidates.len() > 0 {
        let front = candidates.drop_last();
        if i < front.len() {
            lemma_first_index(front, who, i);
        } else {
            lemma_first_index(front, who, front.len() as int);
        }
    }
}

/// No share and no vote counts for less than nothing.
pub proof fn lemma_edge_sum_nonneg(edges: Seq<Edge>, index: int, amount: int)
    requires
        amount >= 0,
    ensures
        sum_of(edges, edge_share(index, amount)) >= 0,
{
    lemma_sum_nonneg(edges, edge_share(index, amount));
}

/// The best candidate among the first `upto` stands among them and is not
/// elected.
pub proof fn lemma_best_bounds(e: Election, upto: int)
    requires
        0 <= upto <= e.seats.len(),
    ensures
        -1 <= e.best(upto) < upto,
        e.best(upto) >= 0 ==> !e.seats[e.best(upto)].elected,
        e.best(upto) < 0 ==> forall|k: int| 0 <= k < upto ==> (#[trigger] e.seats[k]).elected,
    decreases upto,
{
    if upto > 0 {
        lemma_best_bounds(e, upto - 1);
    }
}

/// A round leaves every vote with its candidate.
pub proof fn lemma_round_wf(e: Election)
    requires
        e.wf(),
    ensures
        e.round().wf(),
        e.round().seats.len() == e.seats.len(),
        e.round().voters.len() == e.voters.len(),
        forall|i: int|
            0 <= i < e.voters.len() ==> (#[trigger] e.round().voters[i]).edges.len()
                == e.voters[i].edges.len(),
{
    lemma_best_bounds(e, e.seats.len() as int);
    let r = e.round();
    let w = e.winner();
    if w >= 0 {
        assert forall|i: int, j: int|
            0 <= i < r.voters.len() && 0 <= j < r.voters[i].edges.len() implies (
        #[trigger] r.voters[i].edges[j]).index < r.seats.len() by {
            let v = e.voters[i];
            assert(r.voters[i] == voter_after(w, e.score(w))(v));
            assert(e.voters[i].edges[j].index < e.seats.len());
        }
    }
}

/// The place of `who` among the candidates.
pub fn find_candidate(candidates: &Vec<Staked>, who: AccountId) -> (r: Option<usize>)
    ensures
        match r {
            Some(i) => first_index(candidates@, who) == i && i < candidates@.len(),
            None => first_index(candidates@, who) == -1,
        },
{
    let n: usize = candidates.len();
    let mut i: usize = 0;
    while i < n
        invariant
            n == candidates@.len(),
            0 <= i <= n,
            forall|k: int| 0 <= k < i ==> candidates@[k].who != who,
        decreases n - i,
    {
        if candidates[i].who == who {
            proof {
                lemma_first_index(candidates@, who, i as int);
            }
            return Some(i);
        }
        i += 1;
    }
    proof {
        lemma_first_index(candidates@, who, n as int);
    }
    None
}

/// Whether one of the votes goes to the candidate at place `index`.
pub fn edge_exists(edges: &Vec<Edge>, index: usize) -> (r: bool)
    ensures
        r == has_edge(edges@, index as int),
{
    let n: usize = edges.len();
    let mut i: usize = 0;
    while i < n
        invariant
            n == edges@.len(),
            0 <= i <= n,
            forall|k: int| 0 <= k < i ==> (#[trigger] edges@[k]).index != index,
        decreases n - i,
    {
        if edges[i].index == index {
            return true;
        }
        i += 1;
    }
    false
}

/// The votes of a nominator that names `targets`.
pub fn build_edges(targets: &Vec<AccountId>, candidates: &Vec<Staked>) -> (r: Vec<Edge>)
    ensures
        r@ == edges_of(targets@, candidates@),
        forall|j: int| 0 <= j < r@.len() ==> (#[trigger] r@[j]).index < candidates@.len(),
{
    let n: usize = targets.len();
    let mut edges: Vec<Edge> = Vec::new();
    let mut i: usize = 0;
    proof {
        assert(targets@.take(0) =~= Seq::<AccountId>::empty());
    }
    while i < n
        invariant
            n == targets@.len(),
            0 <= i <= n,
            edges@ == edges_of(targets@.take(i as int), candidates@),
            forall|j: int| 0 <= j < edges@.len() ==> (#[trigger] edges@[j]).index < candidates@.len(),
        decreases n - i,
    {
        proof {
            assert(targets@.take(i + 1).drop_last() =~= targets@.take(i as int));
            assert(targets@.take(i + 1).last() == targets@[i as int]);
        }
        match find_candidate(candidates, targets[i]) {
            Some(place) => {
                if !edge_exists(&edges, place) {
                    edges.push(Edge { index: place, load: 0 });
                }
            },
            None => {},
        }
        i += 1;
    }
    proof {
        assert(targets@.take(n as int) =~= targets@);
    }
    edges
}

/// The voters of an election: the candidates, each for itself, then the
/// nominators.
pub fn build_voters(candidates: &Vec<Staked>, nominations: &Vec<Nomination>) -> (r: Vec<Voter>)
    ensures
        voter_views(r@) == initial_voters(candidates@, nomination_views(nominations@)),
{
    let c: usize = candidates.len();
    let m: usize = nominations.len();
    let ghost noms = nomination_views(nominations@);
    let ghost want = initial_voters(candidates@, noms);
    let mut voters: Vec<Voter> = Vec::new();
    let mut i: usize = 0;
    while i < c
        invariant
            c == candidates@.len(),
            0 <= i <= c,
            voters@.len() == i,
            forall|k: int| 0 <= k < i ==> (#[trigger] voters@[k])@ == own_voter(candidates@, k),
        decreases c - i,
    {
        let mut edges: Vec<Edge> = Vec::new();
        edges.push(Edge { index: i, load: 0 });
        let v = Voter {
            who: candidates[i].who,
            budget: candidates[i].stake,
            load: 0,
            edges,
            own: true,
        };
        assert(v@.edges =~= seq![Edge { index: i, load: 0 }]);
        voters.push(v);
        i += 1;
    }
    let mut j: usize = 0;
    while j < m
        invariant
            c == candidates@.len(),
            m == nominations@.len(),
            noms == nomination_views(nominations@),
            0 <= j <= m,
            voters@.len() == c + j,
            forall|k: int| 0 <= k < c ==> (#[trigger] voters@[k])@ == own_voter(candidates@, k),
            forall|k: int|
                0 <= k < j ==> (#[trigger] voters@[c + k])@ == nominating_voter(
                    noms[k],
                    candidates@,
                ),
        decreases m - j,
    {
        let n = &nominations[j];
        let edges = build_edges(&n.targets, candidates);
        let v = Voter { who: n.who, budget: n.stake, load: 0, edges, own: false };
        voters.push(v);
        j += 1;
    }
    proof {
        assert forall|k: int| 0 <= k < want.len() implies voter_views(voters@)[k] == want[k] by {
            if k < c {
                assert(voters@[k]@ == own_voter(candidates@, k));
            } else {
                assert(voters@[c + (k - c)]@ == nominating_voter(noms[k - c], candidates@));
            }
        }
        assert(voter_views(voters@) =~= want);
    }
    voters
}

/// The sum of `amount` over the votes for the candidate at place `index`,
/// kept at the largest number where it does not fit.
pub fn edges_sum(edges: &Vec<Edge>, index: usize, amount: u128) -> (r: u128)
    ensures
        r == clip(sum_of(edges@, edge_share(index as int, amount as int))),
{
    let n: usize = edges.len();
    let mut acc: u128 = 0;
    let ghost mut exact: int = 0;
    let mut i: usize = 0;
    proof {
        assert(edges@.take(0) =~= Seq::<Edge>::empty());
    }
    while i < n
        invariant
            n == edges@.len(),
            0 <= i <= n,
            exact == sum_of(edges@.take(i as int), edge_share(index as int, amount as int)),
            exact >= 0,
            acc == clip(exact),
        decreases n - i,
    {
        proof {
            lemma_sum_take_step(edges@, i as int, edge_share(index as int, amount as int));
        }
        if edges[i].index == index {
            acc = acc.saturating_add(amount);
            proof {
                exact = exact + amount;
            }
        }
        i += 1;
    }
    proof {
        assert(edges@.take(n as int) =~= edges@);
    }
    acc
}

/// The stake of all voters that vote for the candidate at place `index`.
pub fn backing(voters: &Vec<Voter>, index: usize) -> (r: u128)
    ensures
        r == approval_of(voter_views(voters@), index as int),
{
    let ghost vs = voter_views(voters@);
    let n: usize = voters.len();
    let mut acc: u128 = 0;
    let ghost mut exact: int = 0;
    let mut i: usize = 0;
    proof {
        assert(vs.take(0) =~= Seq::<VoterView>::empty());
    }
    while i < n
        invariant
            vs == voter_views(voters@),
            n == voters@.len(),
            0 <= i <= n,
            exact == sum_of(vs.take(i as int), voter_backing(index as int)),
            exact >= 0,
            acc == clip(exact),
        decreases n - i,
    {
        let v = &voters[i];
        let part: u128 = edges_sum(&v.edges, index, v.budget);
        proof {
            lemma_sum_take_step(vs, i as int, voter_backing(index as int));
            lemma_edge_sum_nonneg(v@.edges, index as int, v.budget as int);
            assert(vs[i as int] == v@);
            exact = exact + sum_of(v@.edges, edge_share(index as int, v.budget as int));
        }
        acc = acc.saturating_add(part);
        i += 1;
    }
    proof {
        assert(vs.take(n as int) =~= vs);
    }
    acc
}

/// The seats at the start of an election.
pub fn build_seats(candidates: &Vec<Staked>, voters: &Vec<Voter>) -> (r: Vec<Seat>)
    ensures
        r@ == initial_seats(candidates@, voter_views(voters@)),
{
    let c: usize = candidates.len();
    let mut seats: Vec<Seat> = Vec::new();
    let mut i: usize = 0;
    while i < c
        invariant
            c == candidates@.len(),
            0 <= i <= c,
            seats@.len() == i,
            forall|k: int|
                0 <= k < i ==> #[trigger] seats@[k] == (Seat {
                    who: candidates@[k].who,
                    approval: approval_of(voter_views(voters@), k),
                    elected: false,
                }),
        decreases c - i,
    {
        let approval: u128 = backing(voters, i);
        seats.push(Seat { who: candidates[i].who, approval, elected: false });
        i += 1;
    }
    proof {
        assert(seats@ =~= initial_seats(candidates@, voter_views(voters@)));
    }
    seats
}

/// The score of the candidate at place `index`.
pub fn score(seats: &Vec<Seat>, voters: &Vec<Voter>, index: usize) -> (r: u128)
    requires
        index < seats@.len(),
    ensures
        r == (Election { seats: seats@, voters: voter_views(voters@) }).score(index as int),
{
    let approval: u128 = seats[index].approval;
    if approval == 0 {
        return u128::MAX;
    }
    let ghost vs = voter_views(voters@);
    let n: usize = voters.len();
    let mut acc: u128 = DEN / approval;
    let ghost mut exact: int = (DEN / approval) as int;
    let mut i: usize = 0;
    proof {
        assert(vs.take(0) =~= Seq::<VoterView>::empty());
    }
    while i < n
        invariant
            vs == voter_views(voters@),
            n == voters@.len(),
            0 <= i <= n,
            approval != 0,
            exact == DEN / approval + sum_of(
                vs.take(i as int),
                voter_load(index as int, approval),
            ),
            exact >= 0,
            acc == clip(exact),
        decreases n - i,
    {
        let v = &voters[i];
        let carried: u128 = match mul_div(v.load, v.budget, approval) {
            Some(x) => x,
            None => u128::MAX,
        };
        let part: u128 = edges_sum(&v.edges, index, carried);
        proof {
            lemma_sum_take_step(vs, i as int, voter_load(index as int, approval));
            lemma_edge_sum_nonneg(v@.edges, index as int, carried as int);
            assert(vs[i as int] == v@);
            assert(carried == carried_load(v@, approval));
            exact = exact + sum_of(v@.edges, edge_share(index as int, carried as int));
        }
        acc = acc.saturating_add(part);
        i += 1;
    }
    proof {
        assert(vs.take(n as int) =~= vs);
    }
    if acc > LARGEST_SCORE {
        LARGEST_SCORE
    } else {
        acc
    }
}

/// The candidate that the next round elects, with its score.
pub fn find_winner(seats: &Vec<Seat>, voters: &Vec<Voter>) -> (r: Option<(usize, u128)>)
    ensures
        match r {
            Some((w, s)) => w == (Election { seats: seats@, voters: voter_views(voters@) }).winner()
                && w < seats@.len() && s == (Election {
                seats: seats@,
                voters: voter_views(voters@),
            }).score(w as int),
            None => (Election { seats: seats@, voters: voter_views(voters@) }).winner() < 0,
        },
{
    let ghost e = Election { seats: seats@, voters: voter_views(voters@) };
    let n: usize = seats.len();
    let mut best: Option<(usize, u128)> = None;
    let mut i: usize = 0;
    while i < n
        invariant
            e == (Election { seats: seats@, voters: voter_views(voters@) }),
            n == seats@.len(),
            0 <= i <= n,
            match best {
                Some((w, s)) => w == e.best(i as int) && w < i && s == e.score(w as int),
                None => e.best(i as int) < 0,
            },
        decreases n - i,
    {
        if !seats[i].elected {
            let s: u128 = score(seats, voters, i);
            let better: bool = match best {
                Some((_, least)) => s < least,
                None => true,
            };
            if better {
                best = Some((i, s));
            }
        }
        i += 1;
    }
    best
}

/// The votes after the candidate at place `winner` is elected with `score`,
/// for a voter whose load so far is `load`.
pub fn update_edges(edges: &Vec<Edge>, winner: usize, score: u128, load: u128) -> (r: Vec<Edge>)
    ensures
        r@ == edges@.map_values(edge_after(winner as int, score, load)),
{
    let n: usize = edges.len();
    let mut out: Vec<Edge> = Vec::new();
    let mut i: usize = 0;
    while i < n
        invariant
            n == edges@.len(),
            0 <= i <= n,
            out@.len() == i,
            forall|k: int|
                0 <= k < i ==> #[trigger] out@[k] == edge_after(winner as int, score, load)(
                    edges@[k],
                ),
        decreases n - i,
    {
        let e = edges[i];
        if e.index == winner {
            out.push(Edge { index: e.index, load: score.saturating_sub(load) });
        } else {
            out.push(e);
        }
        i += 1;
    }
    proof {
        assert(out@ =~= edges@.map_values(edge_after(winner as int, score, load)));
    }
    out
}

/// The voters after the candidate at place `winner` is elected with `score`.
pub fn update_voters(voters: &Vec<Voter>, winner: usize, score: u128) -> (r: Vec<Voter>)
    ensures
        voter_views(r@) == voter_views(voters@).map_values(voter_after(winner as int, score)),
{
    let n: usize = voters.len();
    let mut out: Vec<Voter> = Vec::new();
    let mut i: usize = 0;
    while i < n
        invariant
            n == voters@.len(),
            0 <= i <= n,
            out@.len() == i,
            forall|k: int|
                0 <= k < i ==> (#[trigger] out@[k])@ == voter_after(winner as int, score)(
                    voters@[k]@,
                ),
        decreases n - i,
    {
        let v = &voters[i];
        if edge_exists(&v.edges, winner) {
            let edges = update_edges(&v.edges, winner, score, v.load);
            out.push(Voter { who: v.who, budget: v.budget, load: score, edges, own: v.own });
        } else {
            out.push(
                Voter {
                    who: v.who,
                    budget: v.budget,
                    load: v.load,
                    edges: copy_vec(&v.edges),
                    own: v.own,
                },
            );
        }
        i += 1;
    }
    proof {
        assert(voter_views(out@) =~= voter_views(voters@).map_values(
            voter_after(winner as int, score),
        ));
    }
    out
}

/// The shares of a voter before they are made to add up to one whole.
pub fn build_shares(v: &Voter, seats: &Vec<Seat>) -> (r: Vec<Share>)
    requires
        forall|j: int| 0 <= j < v@.edges.len() ==> (#[trigger] v@.edges[j]).index < seats@.len(),
    ensures
        r@ == raw_shares(v@, seats@, v@.edges.len() as int),
{
    let n: usize = v.edges.len();
    let mut out: Vec<Share> = Vec::new();
    let mut i: usize = 0;
    while i < n
        invariant
            n == v@.edges.len(),
            0 <= i <= n,
            forall|j: int| 0 <= j < v@.edges.len() ==> (#[trigger] v@.edges[j]).index < seats@.len(),
            out@ == raw_shares(v@, seats@, i as int),
        decreases n - i,
    {
        let e = v.edges[i];
        assert(v@.edges[i as int].index < seats@.len());
        let seat = seats[e.index];
        if seat.elected {
            let parts: u32 = if v.load == e.load {
                BILLION
            } else {
                match mul_div(BILLION as u128, e.load, v.load) {
                    Some(x) => if x > BILLION as u128 {
                        BILLION
                    } else {
                        x as u32
                    },
                    None => BILLION,
                }
            };
            out.push(Share { who: seat.who, parts });
        }
        i += 1;
    }
    out
}

/// Makes the shares add up to one whole where they add up to less.
pub fn normalize(raw: &Vec<Share>) -> (r: Vec<Share>)
    ensures
        r@ == normalized(raw@),
{
    let n: usize = raw.len();
    let mut sum: u128 = 0;
    let mut i: usize = 0;
    proof {
        assert(raw@.take(0) =~= Seq::<Share>::empty());
    }
    while i < n
        invariant
            n == raw@.len(),
            0 <= i <= n,
            sum == sum_of(raw@.take(i as int), share_parts()),
            sum <= i * 0x1_0000_0000,
        decreases n - i,
    {
        proof {
            lemma_sum_take_step(raw@, i as int, share_parts());
            assert((i + 1) * 0x1_0000_0000 == i * 0x1_0000_0000 + 0x1_0000_0000) by (nonlinear_arith);
            assert(i * 0x1_0000_0000 <= 0xffff_ffff_ffff_ffff * 0x1_0000_0000) by (nonlinear_arith)
                requires
                    i <= 0xffff_ffff_ffff_ffff,
            ;
        }
        sum = sum + raw[i].parts as u128;
        i += 1;
    }
    proof {
        assert(raw@.take(n as int) =~= raw@);
    }
    let missing: u128 = if sum > BILLION as u128 {
        0
    } else {
        BILLION as u128 - sum
    };
    let each: u128 = if n == 0 {
        0
    } else {
        missing / (n as u128)
    };
    assert(each * n <= missing) by (nonlinear_arith)
        requires
            each == if n == 0 {
                0
            } else {
                missing / (n as u128)
            },
    ;
    let left: u128 = missing - each * (n as u128);
    let mut out: Vec<Share> = Vec::new();
    let mut k: usize = 0;
    while k < n
        invariant
            n == raw@.len(),
            0 <= k <= n,
            out@.len() == k,
            each <= BILLION,
            forall|j: int| 0 <= j < k ==> #[trigger] out@[j] == normalized(raw@)[j],
            sum == sum_of(raw@, share_parts()),
            missing == if sum > BILLION {
                0
            } else {
                BILLION - sum
            },
            each == if n == 0 {
                0
            } else {
                missing as int / (n as int)
            },
            left == missing - each * n,
        decreases n - k,
    {
        let share = raw[k];
        let evened: u128 = share.parts as u128 + each;
        let evened: u128 = if evened > BILLION as u128 {
            BILLION as u128
        } else {
            evened
        };
        let more: u128 = if (k as u128) < left {
            evened + 1
        } else {
            evened
        };
        let parts: u32 = if more > BILLION as u128 {
            BILLION
        } else {
            more as u32
        };
        out.push(Share { who: share.who, parts });
        k += 1;
    }
    proof {
        assert(out@ =~= normalized(raw@));
    }
    out
}

/// The assignments of the nominators that named a winner.
pub fn build_assignments(seats: &Vec<Seat>, voters: &Vec<Voter>) -> (r: Vec<Assignment>)
    requires
        (Election { seats: seats@, voters: voter_views(voters@) }).wf(),
    ensures
        r@.map_values(|a: Assignment| a@) == assignments_of(
            Election { seats: seats@, voters: voter_views(voters@) },
            voters@.len() as int,
        ),
{
    let ghost e = Election { seats: seats@, voters: voter_views(voters@) };
    let n: usize = voters.len();
    let mut out: Vec<Assignment> = Vec::new();
    let mut i: usize = 0;
    proof {
        assert(out@.map_values(|a: Assignment| a@) =~= Seq::<AssignmentView>::empty());
    }
    while i < n
        invariant
            e == (Election { seats: seats@, voters: voter_views(voters@) }),
            e.wf(),
            n == voters@.len(),
            0 <= i <= n,
            out@.map_values(|a: Assignment| a@) == assignments_of(e, i as int),
        decreases n - i,
    {
        let v = &voters[i];
        proof {
            assert(e.voters[i as int] == v@);
            assert forall|j: int| 0 <= j < v@.edges.len() implies (#[trigger] v@.edges[j]).index
                < seats@.len() by {
                assert(e.voters[i as int].edges[j].index < e.seats.len());
            }
        }
        let raw = build_shares(v, seats);
        if !v.own && raw.len() > 0 {
            let shares = normalize(&raw);
            let a = Assignment { who: v.who, shares };
            proof {
                assert(out@.push(a).map_values(|a: Assignment| a@) =~= out@.map_values(
                    |a: Assignment| a@,
                ).push(a@));
            }
            out.push(a);
        }
        i += 1;
    }
    out
}

/// Elects up to `validator_count` of the candidates by sequential Phragmén.
/// Each candidate votes for itself with its own stake, and each nominator for
/// the candidates that it names. There is no result where there are fewer
/// candidates than `minimum_validator_count`.
pub fn elect(
    validator_count: usize,
    minimum_validator_count: usize,
    candidates: &Vec<Staked>,
    nominations: &Vec<Nomination>,
) -> (r: Option<PhragmenResult>)
    ensures
        match r {
            Some(result) => spec_elect(
                validator_count,
                minimum_validator_count,
                candidates@,
                nomination_views(nominations@),
            ) == Some(result@),
            None => spec_elect(
                validator_count,
                minimum_validator_count,
                candidates@,
                nomination_views(nominations@),
            ).is_none(),
        },
{
    let c: usize = candidates.len();
    if c < minimum_validator_count {
        return None;
    }
    let mut voters = build_voters(candidates, nominations);
    let mut seats = build_seats(candidates, &voters);
    let to_elect: usize = if validator_count <= c {
        validator_count
    } else {
        c
    };
    let ghost start = Election { seats: seats@, voters: voter_views(voters@) };
    let mut winners: Vec<Staked> = Vec::new();
    let mut round: usize = 0;
    proof {
        assert(start == initial_election(candidates@, nomination_views(nominations@)));
        lemma_initial_wf(candidates@, nomination_views(nominations@));
    }
    while round < to_elect
        invariant
            0 <= round <= to_elect,
            (Election { seats: seats@, voters: voter_views(voters@) }) == start.rounds(round as nat),
            start.rounds(round as nat).wf(),
            winners@ == start.winners(round as nat),
        decreases to_elect - round,
    {
        let ghost e = Election { seats: seats@, voters: voter_views(voters@) };
        proof {
            lemma_round_wf(e);
            lemma_best_bounds(e, e.seats.len() as int);
        }
        match find_winner(&seats, &voters) {
            Some((w, s)) => {
                let seat = seats[w];
                winners.push(Staked { who: seat.who, stake: seat.approval });
                voters = update_voters(&voters, w, s);
                let _ = seats.remove(w);
                seats.insert(w, Seat { who: seat.who, approval: seat.approval, elected: true });
                proof {
                    assert(seats@ =~= e.seats.update(w as int, Seat { elected: true, ..e.seats[w as int] }));
                }
            },
            None => {},
        }
        round += 1;
    }
    let assignments = build_assignments(&seats, &voters);
    Some(PhragmenResult { winners, assignments })
}

/// The place of a name among the candidates lies among them.
pub proof fn lemma_first_index_bounds(candidates: Seq<Staked>, who: AccountId)
    ensures
        -1 <= first_index(candidates, who) < candidates.len(),
        first_index(candidates, who) >= 0 ==> candidates[first_index(candidates, who)].who == who,
    decreases candidates.len(),
{
    if candidates.len() > 0 {
        lemma_first_index_bounds(candidates.drop_last(), who);
    }
}

/// A nominator has at most one vote for each name, and each vote goes to a
/// candidate.
pub proof fn lemma_edges_of_bounds(targets: Seq<AccountId>, candidates: Seq<Staked>)
    ensures
        edges_of(targets, candidates).len() <= targets.len(),
        forall|j: int|
            0 <= j < edges_of(targets, candidates).len() ==> (#[trigger] edges_of(
                targets,
                candidates,
            )[j]).index < candidates.len(),
    decreases targets.len(),
{
    if targets.len() > 0 {
        lemma_edges_of_bounds(targets.drop_last(), candidates);
        lemma_first_index_bounds(candidates, targets.last());
    }
}

/// At the start of an election every vote goes to a candidate.
pub proof fn lemma_initial_wf(candidates: Seq<Staked>, nominations: Seq<NominationView>)
    ensures
        initial_election(candidates, nominations).wf(),
        initial_election(candidates, nominations).seats.len() == candidates.len(),
        initial_election(candidates, nominations).voters.len() == candidates.len()
            + nominations.len(),
{
    let e = initial_election(candidates, nominations);
    assert forall|i: int, j: int|
        0 <= i < e.voters.len() && 0 <= j < e.voters[i].edges.len() implies (
    #[trigger] e.voters[i].edges[j]).index < e.seats.len() by {
        if i < candidates.len() {
            assert(e.voters[i] == own_voter(candidates, i));
        } else {
            let n = nominations[i - candidates.len()];
            assert(e.voters[i] == nominating_voter(n, candidates));
            lemma_edges_of_bounds(n.targets, candidates);
        }
    }
}

/// Rounds keep the candidates, the voters and the number of votes of each
/// voter.
pub proof fn lemma_rounds_shape(e: Election, k: nat)
    requires
        e.wf(),
    ensures
        e.rounds(k).wf(),
        e.rounds(k).seats.len() == e.seats.len(),
        e.rounds(k).voters.len() == e.voters.len(),
        forall|i: int|
            0 <= i < e.voters.len() ==> (#[trigger] e.rounds(k).voters[i]).edges.len()
                == e.voters[i].edges.len(),
        forall|i: int|
            0 <= i < e.voters.len() ==> (#[trigger] e.rounds(k).voters[i]).own == e.voters[i].own,
        forall|i: int| 0 <= i < e.seats.len() ==> (#[trigger] e.rounds(k).seats[i]).who == e.seats[i].who,
    decreases k,
{
    if k > 0 {
        let before = e.rounds((k - 1) as nat);
        lemma_rounds_shape(e, (k - 1) as nat);
        lemma_round_wf(before);
        lemma_best_bounds(before, before.seats.len() as int);
        let after = before.round();
        let w = before.winner();
        if w >= 0 {
            assert forall|i: int| 0 <= i < e.voters.len() implies (#[trigger] after.voters[i]).own
                == e.voters[i].own by {
                assert(after.voters[i] == voter_after(w, before.score(w))(before.voters[i]));
            }
        }
        assert forall|i: int| 0 <= i < e.voters.len() implies (#[trigger] after.voters[i]).edges.len()
            == e.voters[i].edges.len() by {
            assert(after.voters[i].edges.len() == before.voters[i].edges.len());
        }
    }
}

/// The winners of `k` rounds are candidates, at most `k` of them.
pub proof fn lemma_winners_shape(e: Election, k: nat)
    requires
        e.wf(),
    ensures
        e.winners(k).len() <= k,
        forall|j: int|
            0 <= j < e.winners(k).len() ==> exists|i: int|
                0 <= i < e.seats.len() && e.seats[i].who == (#[trigger] e.winners(k)[j]).who,
    decreases k,
{
    if k > 0 {
        let before = e.rounds((k - 1) as nat);
        lemma_winners_shape(e, (k - 1) as nat);
        lemma_rounds_shape(e, (k - 1) as nat);
        lemma_best_bounds(before, before.seats.len() as int);
        let w = before.winner();
        let ws = e.winners(k);
        assert forall|j: int| 0 <= j < ws.len() implies exists|i: int|
            0 <= i < e.seats.len() && e.seats[i].who == (#[trigger] ws[j]).who by {
            if j < e.winners((k - 1) as nat).len() {
                assert(ws[j] == e.winners((k - 1) as nat)[j]);
            } else {
                assert(before.seats[w].who == e.seats[w].who);
            }
        }
    }
}

/// A voter has at most one share for each of its votes.
pub proof fn lemma_raw_shares_len(v: VoterView, seats: Seq<Seat>, upto: int)
    ensures
        raw_shares(v, seats, upto).len() <= if upto < 0 {
            0
        } else {
            upto
        },
    decreases upto,
{
    if upto > 0 {
        lemma_raw_shares_len(v, seats, upto - 1);
    }
}

/// No assignment has more shares than its voter has votes.
pub proof fn lemma_assignments_shape(e: Election, upto: int, most: int)
    requires
        0 <= upto <= e.voters.len(),
        forall|i: int| 0 <= i < e.voters.len() ==> (#[trigger] e.voters[i]).edges.len() <= most,
    ensures
        assignments_of(e, upto).len() <= upto,
        forall|j: int|
            0 <= j < assignments_of(e, upto).len() ==> 1 <= (#[trigger] assignments_of(
                e,
                upto,
            )[j]).shares.len() <= most,
    decreases upto,
{
    if upto > 0 {
        lemma_assignments_shape(e, upto - 1, most);
        let v = e.voters[upto - 1];
        lemma_raw_shares_len(v, e.seats, v.edges.len() as int);
    }
}

/// The shape of an election's result: no more winners than were asked for or
/// stood, each winner a candidate, and each assignment with one share at
/// least and no more shares than its nominator named candidates.
pub proof fn lemma_elect_shape(
    validator_count: usize,
    minimum_validator_count: usize,
    candidates: Seq<Staked>,
    nominations: Seq<NominationView>,
    most: int,
)
    requires
        1 <= most,
        forall|i: int| 0 <= i < nominations.len() ==> (#[trigger] nominations[i]).targets.len() <= most,
    ensures
        match spec_elect(validator_count, minimum_validator_count, candidates, nominations) {
            Some(result) => {
                &&& result.winners.len() <= candidates.len()
                &&& result.winners.len() <= validator_count
                &&& result.assignments.len() <= candidates.len() + nominations.len()
                &&& forall|j: int|
                    0 <= j < result.winners.len() ==> exists|i: int|
                        0 <= i < candidates.len() && candidates[i].who == (
                        #[trigger] result.winners[j]).who
                &&& forall|j: int|
                    0 <= j < result.assignments.len() ==> 1 <= (
                    #[trigger] result.assignments[j]).shares.len() <= most
            },
            None => candidates.len() < minimum_validator_count,
        },
{
    if candidates.len() >= minimum_validator_count {
        let start = initial_election(candidates, nominations);
        let k = min_count(validator_count as int, candidates.len() as int) as nat;
        let end = start.rounds(k);
        lemma_initial_wf(candidates, nominations);
        lemma_rounds_shape(start, k);
        lemma_winners_shape(start, k);
        assert forall|i: int| 0 <= i < end.voters.len() implies (#[trigger] end.voters[i]).edges.len()
            <= most by {
            assert(end.voters[i].edges.len() == start.voters[i].edges.len());
            if i < candidates.len() {
                assert(start.voters[i] == own_voter(candidates, i));
            } else {
                let n = nominations[i - candidates.len()];
                assert(start.voters[i] == nominating_voter(n, candidates));
                lemma_edges_of_bounds(n.targets, candidates);
            }
        }
        lemma_assignments_shape(end, end.voters.len() as int, most);
        let ws = start.winners(k);
        assert forall|j: int| 0 <= j < ws.len() implies exists|i: int|
            0 <= i < candidates.len() && candidates[i].who == (#[trigger] ws[j]).who by {
            let i = choose|i: int| 0 <= i < start.seats.len() && start.seats[i].who == ws[j].who;
            assert(candidates[i].who == ws[j].who);
        }
    }
}

} // verus!
