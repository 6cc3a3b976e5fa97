//! Choosing the validators of an era: the election over the module's
//! validators and nominators, weighted by power, the optional equalizing of
//! the winners' supports, and the exposure of each winner.

use crate::assoc::{all_values, lemma_del_all_values, lemma_put_all_values, Assoc};
use crate::elect::{
    elect, find_candidate, lemma_elect_shape, lemma_first_index_bounds, nomination_views,
};
use crate::election_laws::lemma_winners_are_stored;
use crate::equalize::{
    edges_wf, equalize, equalized_staked, lemma_equalized, same_shape, staked_views, staked_wf,
    StakedAssignment, StakedEdge, StakedView, EQUALIZE_ITERATIONS, EQUALIZE_TOLERANCE,
};
use crate::exposure::{copy_vec, exposed_value, Exposure, ExposureView, IndividualExposure};
use crate::linked_map::LinkedMap;
use crate::module::{exposure_wf, Module, ModuleView};
use crate::per_things::{perbill_mul, spec_perbill_mul};
use crate::phragmen::{
    clip, first_index, spec_elect, Assignment, AssignmentView, Nomination, NominationView,
    PhragmenResult, PhragmenResultView, Staked,
};
use crate::power::POWER_COUNT;
use crate::sums::{
    lemma_sum_concat, lemma_sum_empty, lemma_sum_nonneg, lemma_sum_push, lemma_sum_take_step,
    sum_of,
};
use crate::types::{AccountId, ExtendedBalance, MAX_NOMINATIONS};
use vstd::prelude::*;

verus! {

/// The account of a winner.
pub open spec fn winner_account() -> spec_fn(Staked) -> AccountId {
    |w: Staked| w.who
}

/// The least total of the first `upto` exposures; the largest number where
/// there is none.
pub open spec fn least_total(exposures: Seq<ExposureView>, upto: int) -> ExtendedBalance
    decreases upto,
{
    if upto <= 0 {
        u128::MAX
    } else {
        let before = least_total(exposures, upto - 1);
        if exposures[upto - 1].total < before {
            exposures[upto - 1].total
        } else {
            before
        }
    }
}

/// The map without the first `upto` of the keys.
pub open spec fn remove_keys(a: Assoc<ExposureView>, keys: Seq<AccountId>, upto: int) -> Assoc<
    ExposureView,
>
    decreases upto,
{
    if upto <= 0 {
        a
    } else {
        remove_keys(a, keys, upto - 1).del(keys[upto - 1])
    }
}

/// The map with the first `upto` winners bound to their exposures.
pub open spec fn put_exposures(
    a: Assoc<ExposureView>,
    winners: Seq<Staked>,
    exposures: Seq<ExposureView>,
    upto: int,
) -> Assoc<ExposureView>
    decreases upto,
{
    if upto <= 0 {
        a
    } else {
        put_exposures(a, winners, exposures, upto - 1).put(
            winners[upto - 1].who,
            exposures[upto - 1],
        )
    }
}

/// The least total is the total of one of the exposures and no exposure has
/// less.
pub proof fn lemma_least_total(exposures: Seq<ExposureView>, upto: int)
    requires
        0 <= upto <= exposures.len(),
    ensures
        forall|k: int| 0 <= k < upto ==> least_total(exposures, upto) <= (#[trigger] exposures[k]).total,
        upto > 0 ==> exists|k: int|
            0 <= k < upto && (#[trigger] exposures[k]).total == least_total(exposures, upto),
    decreases upto,
{
    if upto > 0 {
        lemma_least_total(exposures, upto - 1);
        if upto > 1 {
            let k = choose|k: int|
                0 <= k < upto - 1 && (#[trigger] exposures[k]).total == least_total(
                    exposures,
                    upto - 1,
                );
            if !(exposures[upto - 1].total < least_total(exposures, upto - 1)) {
                assert(exposures[k].total == least_total(exposures, upto));
            } else {
                assert(exposures[upto - 1].total == least_total(exposures, upto));
            }
        } else {
            assert(exposures[0].total == least_total(exposures, upto));
        }
    }
}

/// The stake of an edge that goes to the winner at place `k`, nothing of
/// another edge.
pub open spec fn edge_stake(k: int) -> spec_fn(StakedEdge) -> int {
    |e: StakedEdge|
        if e.index == k {
            e.stake as int
        } else {
            0int
        }
}

/// The stake that a nominator gives the winner at place `k`.
pub open spec fn assignment_stake(k: int) -> spec_fn(StakedView) -> int {
    |a: StakedView| sum_of(a.edges, edge_stake(k))
}

/// The support of the winner at place `k`: its own stake and what the
/// nominators give it.
pub open spec fn support(own: ExtendedBalance, staked: Seq<StakedView>, k: int) -> ExtendedBalance {
    clip(own + sum_of(staked, assignment_stake(k)))
}

/// What an edge exposes of its nominator: the stake that it gives, and no
/// more than the nominator has.
pub open spec fn exposed(a: StakedView, e: StakedEdge) -> IndividualExposure {
    IndividualExposure {
        who: a.who,
        value: if e.stake <= a.budget {
            e.stake
        } else {
            a.budget
        },
    }
}

/// What the first `upto` edges of a nominator expose to the winner at place
/// `k`: one entry for each listed edge that goes to the winner.
pub open spec fn edge_backers(a: StakedView, k: int, upto: int) -> Seq<IndividualExposure>
    decreases upto,
{
    if upto <= 0 {
        Seq::empty()
    } else {
        let before = edge_backers(a, k, upto - 1);
        let e = a.edges[upto - 1];
        if e.listed && e.index == k {
            before.push(exposed(a, e))
        } else {
            before
        }
    }
}

/// What the first `upto` nominators expose to the winner at place `k`.
pub open spec fn backers(staked: Seq<StakedView>, k: int, upto: int) -> Seq<IndividualExposure>
    decreases upto,
{
    if upto <= 0 {
        Seq::empty()
    } else {
        backers(staked, k, upto - 1) + edge_backers(
            staked[upto - 1],
            k,
            staked[upto - 1].edges.len() as int,
        )
    }
}

/// Every nominator has at most the power count and at most 16 edges.
pub open spec fn staked_bounded(staked: Seq<StakedView>) -> bool {
    forall|i: int|
        0 <= i < staked.len() ==> (#[trigger] staked[i]).budget <= POWER_COUNT
            && staked[i].edges.len() <= MAX_NOMINATIONS
}

/// Nominators of bounded stake expose a bounded stake: at most the power
/// count for each of their edges.
pub proof fn lemma_backers_bounded(staked: Seq<StakedView>, k: int, upto: int)
    requires
        staked_bounded(staked),
        0 <= upto <= staked.len(),
    ensures
        0 <= sum_of(backers(staked, k, upto), exposed_value()) <= 16 * upto * POWER_COUNT,
    decreases upto,
{
    if upto == 0 {
        lemma_sum_empty::<IndividualExposure>(exposed_value());
        assert(16 * 0 * POWER_COUNT == 0) by (nonlinear_arith);
    } else {
        let a = staked[upto - 1];
        lemma_backers_bounded(staked, k, upto - 1);
        lemma_edge_backers_bounded(a, k, a.edges.len() as int);
        lemma_sum_concat(
            backers(staked, k, upto - 1),
            edge_backers(a, k, a.edges.len() as int),
            exposed_value(),
        );
        assert(16 * upto * POWER_COUNT == 16 * (upto - 1) * POWER_COUNT + 16 * POWER_COUNT)
            by (nonlinear_arith);
        assert(a.edges.len() * POWER_COUNT <= 16 * POWER_COUNT) by (nonlinear_arith)
            requires
                a.edges.len() <= 16,
        ;
    }
}

/// A nominator of bounded stake exposes at most its stake for each edge.
pub proof fn lemma_edge_backers_bounded(a: StakedView, k: int, upto: int)
    requires
        a.budget <= POWER_COUNT,
        0 <= upto <= a.edges.len(),
    ensures
        0 <= sum_of(edge_backers(a, k, upto), exposed_value()) <= upto * POWER_COUNT,
    decreases upto,
{
    if upto == 0 {
        lemma_sum_empty::<IndividualExposure>(exposed_value());
        assert(0 * POWER_COUNT == 0) by (nonlinear_arith);
    } else {
        lemma_edge_backers_bounded(a, k, upto - 1);
        let e = a.edges[upto - 1];
        lemma_sum_push(edge_backers(a, k, upto - 1), exposed(a, e), exposed_value());
        assert(upto * POWER_COUNT == (upto - 1) * POWER_COUNT + POWER_COUNT) by (nonlinear_arith);
    }
}

impl ModuleView {
    /// The candidates of the election: the validators in the order of the
    /// map, each with its power.
    pub open spec fn candidates(self) -> Seq<Staked> {
        Seq::new(
            self.validators.keys.len(),
            |i: int| Staked { who: self.validators.keys[i], stake: self.power_of(self.validators.keys[i]) },
        )
    }

    /// The nominators in the order of the map, each with its power and its
    /// targets.
    pub open spec fn nominations(self) -> Seq<NominationView> {
        Seq::new(
            self.nominators.keys.len(),
            |i: int|
                NominationView {
                    who: self.nominators.keys[i],
                    stake: self.power_of(self.nominators.keys[i]),
                    targets: self.nominators.vals[i],
                },
        )
    }

    /// The number of candidates under which there is no election: the
    /// minimum validator count, and one where that is zero.
    pub open spec fn minimum_candidates(self) -> usize {
        if self.minimum_validator_count < 1 {
            1
        } else {
            self.minimum_validator_count as usize
        }
    }

    /// The result of the election in this state.
    pub open spec fn election(self) -> Option<PhragmenResultView> {
        spec_elect(
            self.validator_count as usize,
            self.minimum_candidates(),
            self.candidates(),
            self.nominations(),
        )
    }

    /// The edges that the first `upto` shares of an assignment make: each
    /// share gives its part of the nominator's power to its winner.
    pub open spec fn staked_edges(self, a: AssignmentView, winners: Seq<Staked>, upto: int) -> Seq<
        StakedEdge,
    >
        decreases upto,
    {
        if upto <= 0 {
            Seq::empty()
        } else {
            let before = self.staked_edges(a, winners, upto - 1);
            let share = a.shares[upto - 1];
            let place = first_index(winners, share.who);
            if place >= 0 {
                before.push(
                    StakedEdge {
                        index: place as usize,
                        stake: spec_perbill_mul(share.parts, self.power_of(a.who)) as u128,
                        listed: true,
                    },
                )
            } else {
                before
            }
        }
    }

    /// The assignments of an election with the nominators' power as stake.
    pub open spec fn staked(self, result: PhragmenResultView) -> Seq<StakedView> {
        Seq::new(
            result.assignments.len(),
            |i: int|
                StakedView {
                    who: result.assignments[i].who,
                    budget: self.power_of(result.assignments[i].who),
                    edges: self.staked_edges(
                        result.assignments[i],
                        result.winners,
                        result.assignments[i].shares.len() as int,
                    ),
                },
        )
    }

    /// The support of each winner of an election.
    pub open spec fn supports(self, result: PhragmenResultView) -> Seq<ExtendedBalance> {
        Seq::new(
            result.winners.len(),
            |k: int| support(self.power_of(result.winners[k].who), self.staked(result), k),
        )
    }

    /// The staked assignments that the exposures are made of: equalized where
    /// the module equalizes.
    pub open spec fn final_staked(self, result: PhragmenResultView) -> Seq<StakedView> {
        if self.equalize {
            equalized_staked(
                self.staked(result),
                self.supports(result),
                EQUALIZE_TOLERANCE,
                EQUALIZE_ITERATIONS as nat,
            )
        } else {
            self.staked(result)
        }
    }

    /// The exposure of the winner at place `k`: its own power, and the stake
    /// of each nominator that backs it.
    pub open spec fn exposure_at(self, result: PhragmenResultView, k: int) -> ExposureView {
        let staked = self.final_staked(result);
        let others = backers(staked, k, staked.len() as int);
        ExposureView {
            own: self.power_of(result.winners[k].who),
            total: (self.power_of(result.winners[k].who) + sum_of(others, exposed_value()))
                as ExtendedBalance,
            others,
        }
    }

    /// The exposures of the winners, in their order.
    pub open spec fn exposures(self, result: PhragmenResultView) -> Seq<ExposureView> {
        Seq::new(result.winners.len(), |k: int| self.exposure_at(result, k))
    }

    /// The state after the validators are chosen. Where the election has a
    /// result, the exposures of the validators elected before go, those of the
    /// winners come, the slot stake is the least total among them, and the
    /// winners are the elected set. Where it has none, nothing changes.
    pub open spec fn select_validators(self) -> ModuleView {
        match self.election() {
            None => self,
            Some(result) => {
                let exposures = self.exposures(result);
                ModuleView {
                    stakers: put_exposures(
                        remove_keys(
                            self.stakers,
                            self.current_elected,
                            self.current_elected.len() as int,
                        ),
                        result.winners,
                        exposures,
                        result.winners.len() as int,
                    ),
                    slot_stake: least_total(exposures, exposures.len() as int),
                    current_elected: result.winners.map_values(winner_account()),
                    ..self
                }
            },
        }
    }

    /// The winners of the election in this state, if it has a result.
    pub open spec fn elected(self) -> Option<Seq<AccountId>> {
        match self.election() {
            None => None,
            Some(result) => Some(result.winners.map_values(winner_account())),
        }
    }
}

/// Takes the exposures of `keys` out of the map.
pub fn clear_stakers(stakers: &mut LinkedMap<Exposure>, keys: &Vec<AccountId>)
    requires
        old(stakers)@.wf(),
        all_values(old(stakers)@, exposure_wf()),
    ensures
        final(stakers)@ == remove_keys(old(stakers)@, keys@, keys@.len() as int),
        final(stakers)@.wf(),
        all_values(final(stakers)@, exposure_wf()),
{
    let n: usize = keys.len();
    let mut i: usize = 0;
    while i < n
        invariant
            n == keys@.len(),
            0 <= i <= n,
            stakers@ == remove_keys(old(stakers)@, keys@, i as int),
            stakers@.wf(),
            all_values(stakers@, exposure_wf()),
        decreases n - i,
    {
        proof {
            lemma_del_all_values(stakers@, keys@[i as int], exposure_wf());
        }
        let _ = stakers.remove(keys[i]);
        i += 1;
    }
}

/// Binds each winner to its exposure.
pub fn put_stakers(
    stakers: &mut LinkedMap<Exposure>,
    winners: &Vec<Staked>,
    exposures: &Vec<Exposure>,
)
    requires
        old(stakers)@.wf(),
        all_values(old(stakers)@, exposure_wf()),
        winners@.len() == exposures@.len(),
        forall|k: int| 0 <= k < exposures@.len() ==> (#[trigger] exposures@[k])@.wf(),
    ensures
        final(stakers)@ == put_exposures(
            old(stakers)@,
            winners@,
            exposures@.map_values(|e: Exposure| e@),
            winners@.len() as int,
        ),
        final(stakers)@.wf(),
        all_values(final(stakers)@, exposure_wf()),
{
    let n: usize = winners.len();
    let ghost views = exposures@.map_values(|e: Exposure| e@);
    let mut i: usize = 0;
    while i < n
        invariant
            n == winners@.len(),
            n == exposures@.len(),
            views == exposures@.map_values(|e: Exposure| e@),
            forall|k: int| 0 <= k < exposures@.len() ==> (#[trigger] exposures@[k])@.wf(),
            0 <= i <= n,
            stakers@ == put_exposures(old(stakers)@, winners@, views, i as int),
            stakers@.wf(),
            all_values(stakers@, exposure_wf()),
        decreases n - i,
    {
        let e = exposures[i].copy();
        proof {
            assert(exposures@[i as int]@.wf());
            lemma_put_all_values(stakers@, winners@[i as int].who, e@, exposure_wf());
        }
        stakers.insert(winners[i].who, e);
        i += 1;
    }
}

impl ModuleView {
    /// No share gives more than the nominator's power, and no assignment has
    /// more edges than shares.
    pub proof fn lemma_staked_edges(self, a: AssignmentView, winners: Seq<Staked>, upto: int)
        requires
            0 <= upto <= a.shares.len(),
        ensures
            self.staked_edges(a, winners, upto).len() <= upto,
            edges_wf(self.staked_edges(a, winners, upto), winners.len()),
        decreases upto,
    {
        if upto > 0 {
            self.lemma_staked_edges(a, winners, upto - 1);
            lemma_first_index_bounds(winners, a.shares[upto - 1].who);
        }
    }

    /// The staked assignments of an election whose assignments have at most
    /// 16 shares are bounded, and their edges go to winners.
    pub proof fn lemma_staked_bounded(self, result: PhragmenResultView)
        requires
            forall|j: int|
                0 <= j < result.assignments.len() ==> (#[trigger] result.assignments[j]).shares.len()
                    <= MAX_NOMINATIONS,
        ensures
            staked_bounded(self.staked(result)),
            staked_wf(self.staked(result), result.winners.len()),
    {
        let staked = self.staked(result);
        assert forall|i: int| 0 <= i < staked.len() implies (#[trigger] staked[i]).budget
            <= POWER_COUNT && staked[i].edges.len() <= MAX_NOMINATIONS && edges_wf(
            staked[i].edges,
            result.winners.len(),
        ) by {
            let a = result.assignments[i];
            self.lemma_power_bounded(a.who);
            self.lemma_staked_edges(a, result.winners, a.shares.len() as int);
        }
    }

    /// The staked assignments that the exposures are made of are bounded.
    pub proof fn lemma_final_staked_bounded(self, result: PhragmenResultView)
        requires
            forall|j: int|
                0 <= j < result.assignments.len() ==> (#[trigger] result.assignments[j]).shares.len()
                    <= MAX_NOMINATIONS,
        ensures
            staked_bounded(self.final_staked(result)),
            self.final_staked(result).len() == result.assignments.len(),
    {
        self.lemma_staked_bounded(result);
        if self.equalize {
            let staked = self.staked(result);
            lemma_equalized(
                staked,
                self.supports(result),
                EQUALIZE_TOLERANCE,
                EQUALIZE_ITERATIONS as nat,
            );
            let last = self.final_staked(result);
            assert forall|i: int| 0 <= i < last.len() implies (#[trigger] last[i]).budget
                <= POWER_COUNT && last[i].edges.len() <= MAX_NOMINATIONS by {
                assert(same_shape(last[i], staked[i]));
            }
        }
    }
}

/// The stake that the edges give the winner at place `k`, kept at the largest
/// number where it does not fit.
pub fn edges_stake(edges: &Vec<StakedEdge>, k: usize) -> (r: ExtendedBalance)
    ensures
        r == clip(sum_of(edges@, edge_stake(k as int))),
{
    let n: usize = edges.len();
    let mut acc: u128 = 0;
    let ghost mut exact: int = 0;
    let mut i: usize = 0;
    proof {
        assert(edges@.take(0) =~= Seq::<StakedEdge>::empty());
    }
    while i < n
        invariant
            n == edges@.len(),
            0 <= i <= n,
            exact == sum_of(edges@.take(i as int), edge_stake(k as int)),
            exact >= 0,
            acc == clip(exact),
        decreases n - i,
    {
        proof {
            lemma_sum_take_step(edges@, i as int, edge_stake(k as int));
        }
        if edges[i].index == k {
            acc = acc.saturating_add(edges[i].stake);
            proof {
                exact = exact + edges[i as int].stake;
            }
        }
        i += 1;
    }
    proof {
        assert(edges@.take(n as int) =~= edges@);
    }
    acc
}

/// The support of the winner at place `k` with `own` as its own stake.
pub fn support_of(own: ExtendedBalance, staked: &Vec<StakedAssignment>, k: usize) -> (r:
    ExtendedBalance)
    ensures
        r == support(own, staked_views(staked@), k as int),
{
    let ghost views = staked_views(staked@);
    let n: usize = staked.len();
    let mut acc: u128 = own;
    let ghost mut exact: int = own as int;
    let mut i: usize = 0;
    proof {
        assert(views.take(0) =~= Seq::<StakedView>::empty());
    }
    while i < n
        invariant
            views == staked_views(staked@),
            n == staked@.len(),
            0 <= i <= n,
            exact == own + sum_of(views.take(i as int), assignment_stake(k as int)),
            exact >= 0,
            acc == clip(exact),
        decreases n - i,
    {
        let part: u128 = edges_stake(&staked[i].edges, k);
        proof {
            lemma_sum_take_step(views, i as int, assignment_stake(k as int));
            assert(views[i as int] == staked@[i as int]@);
            assert forall|j: int| 0 <= j < staked@[i as int]@.edges.len() implies edge_stake(
                k as int,
            )(#[trigger] staked@[i as int]@.edges[j]) >= 0 by {}
            lemma_sum_nonneg(staked@[i as int]@.edges, edge_stake(k as int));
            exact = exact + sum_of(staked@[i as int]@.edges, edge_stake(k as int));
        }
        acc = acc.saturating_add(part);
        i += 1;
    }
    proof {
        assert(views.take(n as int) =~= views);
    }
    acc
}

/// The exposure of the winner at place `k` with `own` as its own power.
pub fn exposure_from(own: ExtendedBalance, staked: &Vec<StakedAssignment>, k: usize) -> (r: Exposure)
    requires
        own <= POWER_COUNT,
        staked_bounded(staked_views(staked@)),
    ensures
        r@.own == own,
        r@.others == backers(staked_views(staked@), k as int, staked@.len() as int),
        r@.wf(),
{
    let ghost views = staked_views(staked@);
    let n: usize = staked.len();
    let mut total: ExtendedBalance = own;
    let mut others: Vec<IndividualExposure> = Vec::new();
    let mut i: usize = 0;
    proof {
        lemma_sum_empty::<IndividualExposure>(exposed_value());
        assert(others@ =~= Seq::<IndividualExposure>::empty());
    }
    while i < n
        invariant
            views == staked_views(staked@),
            staked_bounded(views),
            n == staked@.len(),
            0 <= i <= n,
            own <= POWER_COUNT,
            others@ == backers(views, k as int, i as int),
            total == own + sum_of(others@, exposed_value()),
        decreases n - i,
    {
        let a = &staked[i];
        let m: usize = a.edges.len();
        let ghost before = others@;
        let mut j: usize = 0;
        proof {
            assert(views[i as int] == a@);
            assert(a@.budget <= POWER_COUNT && a@.edges.len() <= MAX_NOMINATIONS);
            assert(before + Seq::<IndividualExposure>::empty() =~= before);
            lemma_backers_bounded(views, k as int, i as int);
            assert(16 * i * POWER_COUNT <= 16 * 0xffff_ffff_ffff_ffff * POWER_COUNT)
                by (nonlinear_arith)
                requires
                    i <= 0xffff_ffff_ffff_ffff,
            ;
        }
        while j < m
            invariant
                m == a@.edges.len(),
                m <= 16,
                0 <= j <= m,
                a@.budget <= POWER_COUNT,
                own <= POWER_COUNT,
                sum_of(before, exposed_value()) <= 16 * 0xffff_ffff_ffff_ffff * POWER_COUNT,
                others@ == before + edge_backers(a@, k as int, j as int),
                total == own + sum_of(others@, exposed_value()),
            decreases m - j,
        {
            let e = a.edges[j];
            proof {
                lemma_edge_backers_bounded(a@, k as int, j as int);
                lemma_sum_concat(before, edge_backers(a@, k as int, j as int), exposed_value());
                assert(j * POWER_COUNT <= 16 * POWER_COUNT) by (nonlinear_arith)
                    requires
                        j <= 16,
                ;
            }
            if e.listed && e.index == k {
                let value: ExtendedBalance = if e.stake <= a.budget {
                    e.stake
                } else {
                    a.budget
                };
                let entry = IndividualExposure { who: a.who, value };
                proof {
                    lemma_sum_push(others@, entry, exposed_value());
                    let tail = edge_backers(a@, k as int, j as int);
                    assert(others@.push(entry) =~= before + tail.push(entry));
                }
                total = total + value;
                others.push(entry);
            }
            j += 1;
        }
        i += 1;
    }
    Exposure { total, own, others }
}

impl Module {
    /// The candidates of the election, each with its power.
    pub fn candidates(&self) -> (r: Vec<Staked>)
        requires
            self@.wf(),
        ensures
            r@ == self@.candidates(),
    {
        let n: usize = self.validators.keys.len();
        let mut out: Vec<Staked> = Vec::new();
        let mut i: usize = 0;
        while i < n
            invariant
                self@.wf(),
                n == self@.validators.keys.len(),
                0 <= i <= n,
                out@.len() == i,
                forall|k: int| 0 <= k < i ==> #[trigger] out@[k] == self@.candidates()[k],
            decreases n - i,
        {
            let who: AccountId = self.validators.keys[i];
            out.push(Staked { who, stake: self.power_of(who) });
            i += 1;
        }
        proof {
            assert(out@ =~= self@.candidates());
        }
        out
    }

    /// The nominators, each with its power and its targets.
    pub fn nominations(&self) -> (r: Vec<Nomination>)
        requires
            self@.wf(),
        ensures
            nomination_views(r@) == self@.nominations(),
    {
        let n: usize = self.nominators.keys.len();
        let mut out: Vec<Nomination> = Vec::new();
        let mut i: usize = 0;
        while i < n
            invariant
                self@.wf(),
                n == self@.nominators.keys.len(),
                0 <= i <= n,
                out@.len() == i,
                forall|k: int| 0 <= k < i ==> (#[trigger] out@[k])@ == self@.nominations()[k],
            decreases n - i,
        {
            let who: AccountId = self.nominators.keys[i];
            let targets = copy_vec(&self.nominators.vals[i]);
            out.push(Nomination { who, stake: self.power_of(who), targets });
            i += 1;
        }
        proof {
            assert(nomination_views(out@) =~= self@.nominations());
        }
        out
    }

    /// The assignments of an election with the nominators' power as stake.
    pub fn staked(&self, result: &PhragmenResult) -> (r: Vec<StakedAssignment>)
        requires
            self@.wf(),
        ensures
            staked_views(r@) == self@.staked(result@),
            staked_wf(staked_views(r@), result@.winners.len()),
    {
        let ghost views = result.assignments@.map_values(|a: Assignment| a@);
        let n: usize = result.assignments.len();
        let mut out: Vec<StakedAssignment> = Vec::new();
        let mut i: usize = 0;
        while i < n
            invariant
                self@.wf(),
                n == result.assignments@.len(),
                views == result@.assignments,
                0 <= i <= n,
                out@.len() == i,
                forall|k: int| 0 <= k < i ==> (#[trigger] out@[k])@ == self@.staked(result@)[k],
                forall|k: int|
                    0 <= k < i ==> edges_wf((#[trigger] out@[k])@.edges, result@.winners.len()),
            decreases n - i,
        {
            let a = &result.assignments[i];
            let budget: ExtendedBalance = self.power_of(a.who);
            let m: usize = a.shares.len();
            let mut edges: Vec<StakedEdge> = Vec::new();
            let mut j: usize = 0;
            proof {
                assert(views[i as int] == a@);
            }
            while j < m
                invariant
                    self@.wf(),
                    m == a@.shares.len(),
                    0 <= j <= m,
                    budget == self@.power_of(a@.who),
                    edges@ == self@.staked_edges(a@, result@.winners, j as int),
                    edges_wf(edges@, result@.winners.len()),
                decreases m - j,
            {
                let share = a.shares[j];
                match find_candidate(&result.winners, share.who) {
                    Some(place) => {
                        edges.push(
                            StakedEdge {
                                index: place,
                                stake: perbill_mul(share.parts, budget),
                                listed: true,
                            },
                        );
                    },
                    None => {},
                }
                j += 1;
            }
            out.push(StakedAssignment { who: a.who, budget, edges });
            i += 1;
        }
        proof {
            assert(staked_views(out@) =~= self@.staked(result@));
        }
        out
    }

    /// The exposures of the winners of an election, in their order. Where the
    /// module equalizes, the nominators' stake is spread over their winners
    /// first.
    pub fn exposures(&self, result: &PhragmenResult) -> (r: Vec<Exposure>)
        requires
            self@.wf(),
            forall|j: int|
                0 <= j < result.assignments@.len() ==> (
                #[trigger] result.assignments@[j])@.shares.len() <= MAX_NOMINATIONS,
        ensures
            r@.map_values(|e: Exposure| e@) == self@.exposures(result@),
            forall|k: int| 0 <= k < r@.len() ==> (#[trigger] r@[k])@.wf(),
    {
        let mut staked = self.staked(result);
        let n: usize = result.winners.len();
        proof {
            self@.lemma_staked_bounded(result@);
        }
        if self.equalize {
            let mut totals: Vec<ExtendedBalance> = Vec::new();
            let mut k: usize = 0;
            while k < n
                invariant
                    self@.wf(),
                    n == result.winners@.len(),
                    staked_views(staked@) == self@.staked(result@),
                    0 <= k <= n,
                    totals@.len() == k,
                    forall|i: int| 0 <= i < k ==> #[trigger] totals@[i] == self@.supports(result@)[i],
                decreases n - k,
            {
                let own: ExtendedBalance = self.power_of(result.winners[k].who);
                totals.push(support_of(own, &staked, k));
                k += 1;
            }
            proof {
                assert(totals@ =~= self@.supports(result@));
                lemma_equalized(
                    self@.staked(result@),
                    self@.supports(result@),
                    EQUALIZE_TOLERANCE,
                    EQUALIZE_ITERATIONS as nat,
                );
            }
            equalize(&mut staked, &mut totals, EQUALIZE_TOLERANCE, EQUALIZE_ITERATIONS);
        }
        proof {
            self@.lemma_final_staked_bounded(result@);
        }
        let mut out: Vec<Exposure> = Vec::new();
        let mut k: usize = 0;
        while k < n
            invariant
                self@.wf(),
                n == result.winners@.len(),
                staked_views(staked@) == self@.final_staked(result@),
                staked_bounded(staked_views(staked@)),
                0 <= k <= n,
                out@.len() == k,
                forall|i: int| 0 <= i < k ==> (#[trigger] out@[i])@ == self@.exposures(result@)[i],
                forall|i: int| 0 <= i < k ==> (#[trigger] out@[i])@.wf(),
            decreases n - k,
        {
            let own: ExtendedBalance = self.power_of(result.winners[k].who);
            out.push(exposure_from(own, &staked, k));
            k += 1;
        }
        proof {
            assert(out@.map_values(|e: Exposure| e@) =~= self@.exposures(result@));
        }
        out
    }

    /// Select a new validator set from the assembled stakers and their role
    /// preferences. Returns the slot stake and, where the election had a
    /// result, the new validator set.
    pub fn select_validators(&mut self) -> (r: (ExtendedBalance, Option<Vec<AccountId>>))
        requires
            old(self)@.wf(),
        ensures
            final(self)@ == old(self)@.select_validators(),
            final(self)@.wf(),
            r.0 == final(self)@.slot_stake,
            match r.1 {
                Some(elected) => old(self)@.elected() == Some(elected@) && elected@ == final(self)@.current_elected,
                None => old(self)@.elected().is_none(),
            },
    {
        let candidates = self.candidates();
        let nominations = self.nominations();
        let minimum: usize = if self.minimum_validator_count < 1 {
            1
        } else {
            self.minimum_validator_count as usize
        };
        proof {
            assert forall|i: int| 0 <= i < self@.nominations().len() implies (
            #[trigger] self@.nominations()[i]).targets.len() <= 16 by {
                assert(self@.nominators.vals[i].len() <= MAX_NOMINATIONS);
            }
            lemma_elect_shape(
                self.validator_count as usize,
                minimum,
                self@.candidates(),
                self@.nominations(),
                16,
            );
        }
        match elect(self.validator_count as usize, minimum, &candidates, &nominations) {
            None => (self.slot_stake, None),
            Some(result) => {
                proof {
                    assert forall|j: int| 0 <= j < result.assignments@.len() implies (
                    #[trigger] result.assignments@[j])@.shares.len() <= MAX_NOMINATIONS by {
                        assert(result@.assignments[j] == result.assignments@[j]@);
                    }
                }
                let exposures = self.exposures(&result);
                let ghost views = exposures@.map_values(|e: Exposure| e@);
                clear_stakers(&mut self.stakers, &self.current_elected);
                put_stakers(&mut self.stakers, &result.winners, &exposures);
                let n: usize = exposures.len();
                let mut slot_stake: ExtendedBalance = u128::MAX;
                let mut elected: Vec<AccountId> = Vec::new();
                let mut i: usize = 0;
                while i < n
                    invariant
                        n == exposures@.len(),
                        n == result.winners@.len(),
                        views == exposures@.map_values(|e: Exposure| e@),
                        0 <= i <= n,
                        slot_stake == least_total(views, i as int),
                        elected@ == result.winners@.take(i as int).map_values(winner_account()),
                    decreases n - i,
                {
                    if exposures[i].total < slot_stake {
                        slot_stake = exposures[i].total;
                    }
                    elected.push(result.winners[i].who);
                    proof {
                        assert(views[i as int] == exposures@[i as int]@);
                        assert(result.winners@.take(i + 1).map_values(winner_account())
                            =~= result.winners@.take(i as int).map_values(winner_account()).push(
                            result.winners@[i as int].who,
                        ));
                    }
                    i += 1;
                }
                proof {
                    assert(result.winners@.take(n as int) =~= result.winners@);
                    lemma_winners_are_stored(old(self)@);
                    lemma_least_total(views, n as int);
                }
                self.slot_stake = slot_stake;
                self.current_elected = copy_vec(&elected);
                proof {
                    let after = self@;
                    let winners = old(self)@.election().unwrap().winners;
                    assert forall|k: int| 0 <= k < after.current_elected.len() implies (
                    #[trigger] after.stakers.get(after.current_elected[k])) == Some(views[k]) by {
                        assert(after.current_elected[k] == winners[k].who);
                    }
                    if n > 0 {
                        let k = choose|k: int|
                            0 <= k < n && (#[trigger] views[k]).total == least_total(
                                views,
                                n as int,
                            );
                        assert(after.stakers.get(after.current_elected[k]) == Some(views[k]));
                    }
                }
                (slot_stake, Some(elected))
            },
        }
    }

    /// The validators of the first session: those that the election gives.
    pub fn select_initial_validators(&mut self) -> (r: Option<Vec<AccountId>>)
        requires
            old(self)@.wf(),
        ensures
            final(self)@ == old(self)@.select_validators(),
            final(self)@.wf(),
            match r {
                Some(elected) => old(self)@.elected() == Some(elected@),
                None => old(self)@.elected().is_none(),
            },
    {
        self.select_validators().1
    }
}

} // verus!
