//! The proportional election: sequential Phragmén over candidates and voters
//! with loads kept as fixed-point numbers.
//!
//! Every candidate votes for itself with its own stake. A round gives each
//! candidate that is not yet elected a score, elects the candidate with the
//! least score (the first of them in the candidates' order, where several
//! have it), and moves the load of each voter behind the winner up to the
//! winner's score. Loads and scores are numerators over [`DEN`]; sums that do
//! not fit stay at the largest number.

use crate::per_things::{spec_mul_div, BILLION};
use crate::sums::sum_of;
use crate::types::{AccountId, ExtendedBalance};
use vstd::prelude::*;

verus! {

/// The denominator of loads and scores.
pub const DEN: u128 = u128::MAX;

/// The largest score of a candidate with approval.
pub const LARGEST_SCORE: u128 = u128::MAX - 1;

/// An account and a stake: a candidate with its own stake, or a winner with
/// the stake that approved of it.
#[derive(Clone, Copy, Debug, PartialEq, Eq)]
pub struct Staked {
    pub who: AccountId,
    pub stake: ExtendedBalance,
}

/// A nominator, its stake and the candidates that it names.
#[derive(Clone, Debug, PartialEq, Eq)]
pub struct Nomination {
    pub who: AccountId,
    pub stake: ExtendedBalance,
    pub targets: Vec<AccountId>,
}

/// The mathematical value of a nomination.
pub struct NominationView {
    pub who: AccountId,
    pub stake: ExtendedBalance,
    pub targets: Seq<AccountId>,
}

impl View for Nomination {
    type V = NominationView;

    open spec fn view(&self) -> NominationView {
        NominationView { who: self.who, stake: self.stake, targets: self.targets@ }
    }
}

/// The part of a nominator's stake that backs one winner, in parts per
/// billion.
#[derive(Clone, Copy, Debug, PartialEq, Eq)]
pub struct Share {
    pub who: AccountId,
    pub parts: u32,
}

/// How a nominator's stake is split over the winners that it named.
#[derive(Clone, Debug, PartialEq, Eq)]
pub struct Assignment {
    pub who: AccountId,
    pub shares: Vec<Share>,
}

/// The mathematical value of an assignment.
pub struct AssignmentView {
    pub who: AccountId,
    pub shares: Seq<Share>,
}

impl View for Assignment {
    type V = AssignmentView;

    open spec fn view(&self) -> AssignmentView {
        AssignmentView { who: self.who, shares: self.shares@ }
    }
}

/// What an election gives: the winners in the order of their election, each
/// with the stake that approved of it, and the assignment of each nominator
/// that named a winner.
#[derive(Clone, Debug, PartialEq, Eq)]
pub struct PhragmenResult {
    pub winners: Vec<Staked>,
    pub assignments: Vec<Assignment>,
}

/// The mathematical value of an election's result.
pub struct PhragmenResultView {
    pub winners: Seq<Staked>,
    pub assignments: Seq<AssignmentView>,
}

impl View for PhragmenResult {
    type V = PhragmenResultView;

    open spec fn view(&self) -> PhragmenResultView {
        PhragmenResultView {
            winners: self.winners@,
            assignments: self.assignments@.map_values(|a: Assignment| a@),
        }
    }
}

/// A vote: the place of the candidate among the candidates, and the load that
/// the vote carries.
#[derive(Clone, Copy, Debug, PartialEq, Eq)]
pub struct Edge {
    pub index: usize,
    pub load: u128,
}

/// A candidate during the election.
#[derive(Clone, Copy, Debug, PartialEq, Eq)]
pub struct Seat {
    pub who: AccountId,
    /// The stake of all voters that vote for the candidate.
    pub approval: u128,
    pub elected: bool,
}

/// A voter during the election.
#[derive(Clone, Debug, PartialEq, Eq)]
pub struct Voter {
    pub who: AccountId,
    pub budget: u128,
    pub load: u128,
    pub edges: Vec<Edge>,
    /// Whether this is the vote of a candidate for itself.
    pub own: bool,
}

/// The mathematical value of a voter.
pub struct VoterView {
    pub who: AccountId,
    pub budget: u128,
    pub load: u128,
    pub edges: Seq<Edge>,
    pub own: bool,
}

impl View for Voter {
    type V = VoterView;

    open spec fn view(&self) -> VoterView {
        VoterView {
            who: self.who,
            budget: self.budget,
            load: self.load,
            edges: self.edges@,
            own: self.own,
        }
    }
}

/// The state of an election between two rounds.
pub struct Election {
    pub seats: Seq<Seat>,
    pub voters: Seq<VoterView>,
}

/// The values of a sequence of voters.
pub open spec fn voter_views(voters: Seq<Voter>) -> Seq<VoterView> {
    voters.map_values(|v: Voter| v@)
}

/// A number, or the largest 128-bit number where it is larger.
pub open spec fn clip(x: int) -> u128 {
    if x > u128::MAX {
        u128::MAX
    } else {
        x as u128
    }
}

/// The first place at which `who` stands among the candidates, or -1.
pub open spec fn first_index(candidates: Seq<Staked>, who: AccountId) -> int
    decreases candidates.len(),
{
    if candidates.len() == 0 {
        -1
    } else {
        let before = first_index(candidates.drop_last(), who);
        if before >= 0 {
            before
        } else if candidates.last().who == who {
            candidates.len() - 1
        } else {
            -1
        }
    }
}

/// Whether one of the votes goes to the candidate at place `index`.
pub open spec fn has_edge(edges: Seq<Edge>, index: int) -> bool {
    exists|i: int| 0 <= i < edges.len() && (#[trigger] edges[i]).index == index
}

/// The votes of a nominator: one for each candidate that it names, in the
/// order of their first naming. A name that is no candidate's gives no vote.
pub open spec fn edges_of(targets: Seq<AccountId>, candidates: Seq<Staked>) -> Seq<Edge>
    decreases targets.len(),
{
    if targets.len() == 0 {
        Seq::empty()
    } else {
        let before = edges_of(targets.drop_last(), candidates);
        let place = first_index(candidates, targets.last());
        if place >= 0 && !has_edge(before, place) {
            before.push(Edge { index: place as usize, load: 0 })
        } else {
            before
        }
    }
}

/// The vote of the candidate at place `index` for itself.
pub open spec fn own_voter(candidates: Seq<Staked>, index: int) -> VoterView {
    VoterView {
        who: candidates[index].who,
        budget: candidates[index].stake,
        load: 0,
        edges: seq![Edge { index: index as usize, load: 0 }],
        own: true,
    }
}

/// A nominator as a voter.
pub open spec fn nominating_voter(n: NominationView, candidates: Seq<Staked>) -> VoterView {
    VoterView {
        who: n.who,
        budget: n.stake,
        load: 0,
        edges: edges_of(n.targets, candidates),
        own: false,
    }
}

/// The voters of an election: the candidates, each for itself, then the
/// nominators.
pub open spec fn initial_voters(candidates: Seq<Staked>, nominations: Seq<NominationView>) -> Seq<
    VoterView,
> {
    Seq::new(candidates.len(), |i: int| own_voter(candidates, i)) + Seq::new(
        nominations.len(),
        |i: int| nominating_voter(nominations[i], candidates),
    )
}

/// `amount` for a vote that goes to the candidate at place `index`, nothing
/// for another vote.
pub open spec fn edge_share(index: int, amount: int) -> spec_fn(Edge) -> int {
    |e: Edge|
        if e.index == index {
            amount
        } else {
            0int
        }
}

/// The budget that a voter puts behind the candidate at place `index`.
pub open spec fn voter_backing(index: int) -> spec_fn(VoterView) -> int {
    |v: VoterView| sum_of(v.edges, edge_share(index, v.budget as int))
}

/// The stake of all voters that vote for the candidate at place `index`.
pub open spec fn approval_of(voters: Seq<VoterView>, index: int) -> u128 {
    clip(sum_of(voters, voter_backing(index)))
}

/// The seats at the start of an election.
pub open spec fn initial_seats(candidates: Seq<Staked>, voters: Seq<VoterView>) -> Seq<Seat> {
    Seq::new(
        candidates.len(),
        |i: int| Seat { who: candidates[i].who, approval: approval_of(voters, i), elected: false },
    )
}

/// The election before its first round.
pub open spec fn initial_election(
    candidates: Seq<Staked>,
    nominations: Seq<NominationView>,
) -> Election {
    let voters = initial_voters(candidates, nominations);
    Election { seats: initial_seats(candidates, voters), voters }
}

/// The load that a voter brings to a candidate with approval stake
/// `approval`: its own load times its budget over the approval stake.
pub open spec fn carried_load(v: VoterView, approval: u128) -> u128 {
    match spec_mul_div(v.load, v.budget, approval) {
        Some(x) => x,
        None => u128::MAX,
    }
}

/// What a voter adds to the score of the candidate at place `index`.
pub open spec fn voter_load(index: int, approval: u128) -> spec_fn(VoterView) -> int {
    |v: VoterView| sum_of(v.edges, edge_share(index, carried_load(v, approval) as int))
}

impl Election {
    /// Every vote goes to a candidate.
    pub open spec fn wf(self) -> bool {
        forall|i: int, j: int|
            0 <= i < self.voters.len() && 0 <= j < self.voters[i].edges.len() ==> (
            #[trigger] self.voters[i].edges[j]).index < self.seats.len()
    }

    /// The score of the candidate at place `index`: one over its approval
    /// stake, plus the loads that its voters bring, at most
    /// [`LARGEST_SCORE`]. A candidate without approval has a score above
    /// that of every candidate with approval.
    pub open spec fn score(self, index: int) -> u128 {
        let approval = self.seats[index].approval;
        if approval == 0 {
            u128::MAX
        } else if DEN / approval + sum_of(self.voters, voter_load(index, approval))
            > LARGEST_SCORE {
            LARGEST_SCORE
        } else {
            (DEN / approval + sum_of(self.voters, voter_load(index, approval))) as u128
        }
    }

    /// The place of the best candidate among the first `upto`: one that is
    /// not elected and has the least score, the first of them. -1 where all
    /// are elected.
    pub open spec fn best(self, upto: int) -> int
        decreases upto,
    {
        if upto <= 0 {
            -1
        } else {
            let before = self.best(upto - 1);
            if self.seats[upto - 1].elected {
                before
            } else if before < 0 || self.score(upto - 1) < self.score(before) {
                upto - 1
            } else {
                before
            }
        }
    }

    /// The place of the candidate that the next round elects, or -1.
    pub open spec fn winner(self) -> int {
        self.best(self.seats.len() as int)
    }

    /// The election after one more round.
    pub open spec fn round(self) -> Election {
        let w = self.winner();
        if w < 0 {
            self
        } else {
            Election {
                seats: self.seats.update(w, Seat { elected: true, ..self.seats[w] }),
                voters: self.voters.map_values(voter_after(w, self.score(w))),
            }
        }
    }

    /// The election after `k` rounds.
    pub open spec fn rounds(self, k: nat) -> Election
        decreases k,
    {
        if k == 0 {
            self
        } else {
            self.rounds((k - 1) as nat).round()
        }
    }

    /// The winners of the first `k` rounds, in the order of their election.
    pub open spec fn winners(self, k: nat) -> Seq<Staked>
        decreases k,
    {
        if k == 0 {
            Seq::empty()
        } else {
            let before = self.rounds((k - 1) as nat);
            let w = before.winner();
            if w < 0 {
                self.winners((k - 1) as nat)
            } else {
                self.winners((k - 1) as nat).push(
                    Staked { who: before.seats[w].who, stake: before.seats[w].approval },
                )
            }
        }
    }
}

/// A vote after the candidate at place `winner` is elected with `score`: a
/// vote for the winner carries the score less the voter's load so far.
pub open spec fn edge_after(winner: int, score: u128, load: u128) -> spec_fn(Edge) -> Edge {
    |e: Edge|
        if e.index == winner {
            Edge {
                load: if score >= load {
                    (score - load) as u128
                } else {
                    0
                },
                ..e
            }
        } else {
            e
        }
}

/// A voter after the candidate at place `winner` is elected with `score`: a
/// voter behind the winner has the winner's score as its load.
pub open spec fn voter_after(winner: int, score: u128) -> spec_fn(VoterView) -> VoterView {
    |v: VoterView|
        if has_edge(v.edges, winner) {
            VoterView {
                load: score,
                edges: v.edges.map_values(edge_after(winner, score, v.load)),
                ..v
            }
        } else {
            v
        }
}

/// The part of a voter's load that one of its votes carries, in parts per
/// billion, rounded down.
pub open spec fn raw_parts(v: VoterView, e: Edge) -> u32 {
    if v.load == e.load {
        BILLION
    } else {
        match spec_mul_div(BILLION as u128, e.load, v.load) {
            Some(x) => if x > BILLION {
                BILLION
            } else {
                x as u32
            },
            None => BILLION,
        }
    }
}

/// The shares of a voter before they are made to add up to one whole: one for
/// each of its votes that went to a winner.
pub open spec fn raw_shares(v: VoterView, seats: Seq<Seat>, upto: int) -> Seq<Share>
    decreases upto,
{
    if upto <= 0 {
        Seq::empty()
    } else {
        let before = raw_shares(v, seats, upto - 1);
        let e = v.edges[upto - 1];
        if seats[e.index as int].elected {
            before.push(Share { who: seats[e.index as int].who, parts: raw_parts(v, e) })
        } else {
            before
        }
    }
}

/// The parts of a share.
pub open spec fn share_parts() -> spec_fn(Share) -> int {
    |s: Share| s.parts as int
}

/// A number of parts, at most one billion.
pub open spec fn at_most_whole(parts: int) -> u32 {
    if parts > BILLION {
        BILLION
    } else {
        parts as u32
    }
}

/// The shares made to add up to one whole: what is missing is split evenly
/// over the shares, and what is left of that goes part by part to the first
/// shares. Shares that add up to more than one whole stay as they are.
pub open spec fn normalized(raw: Seq<Share>) -> Seq<Share> {
    let sum = sum_of(raw, share_parts());
    let missing = if sum > BILLION {
        0
    } else {
        BILLION - sum
    };
    let each = if raw.len() == 0 {
        0
    } else {
        missing / (raw.len() as int)
    };
    let left = missing - each * raw.len();
    Seq::new(
        raw.len(),
        |i: int|
            Share {
                who: raw[i].who,
                parts: at_most_whole(
                    at_most_whole(raw[i].parts + each) + if i < left {
                        1int
                    } else {
                        0int
                    },
                ),
            },
    )
}

/// The assignments of the first `upto` voters: one for each nominator with a
/// vote that went to a winner.
pub open spec fn assignments_of(e: Election, upto: int) -> Seq<AssignmentView>
    decreases upto,
{
    if upto <= 0 {
        Seq::empty()
    } else {
        let before = assignments_of(e, upto - 1);
        let v = e.voters[upto - 1];
        let raw = raw_shares(v, e.seats, v.edges.len() as int);
        if !v.own && raw.len() > 0 {
            before.push(AssignmentView { who: v.who, shares: normalized(raw) })
        } else {
            before
        }
    }
}

/// The smaller of two counts.
pub open spec fn min_count(a: int, b: int) -> int {
    if a <= b {
        a
    } else {
        b
    }
}

/// The result of the election of up to `validator_count` of the candidates:
/// none where there are fewer candidates than `minimum_validator_count`.
pub open spec fn spec_elect(
    validator_count: usize,
    minimum_validator_count: usize,
    candidates: Seq<Staked>,
    nominations: Seq<NominationView>,
) -> Option<PhragmenResultView> {
    if candidates.len() < minimum_validator_count {
        None
    } else {
        let start = initial_election(candidates, nominations);
        let k = min_count(validator_count as int, candidates.len() as int) as nat;
        let end = start.rounds(k);
        Some(
            PhragmenResultView {
                winners: start.winners(k),
                assignments: assignments_of(end, end.voters.len() as int),
            },
        )
    }
}

} // verus!
