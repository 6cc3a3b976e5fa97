use staking::equalize::{equalize, rebalance, StakedAssignment, StakedEdge};
use staking::{
    Exposure, GenesisConfig, IndividualExposure, Module, Origin, RewardDestination,
    StakingBalance,
};

fn edge(index: usize, stake: u128) -> StakedEdge {
    StakedEdge { index, stake, listed: true }
}

#[test]
fn a_nominator_fills_the_least_support_first() {
    // Two winners with 100 of their own; the nominator gave 38 and 12.
    let mut a = StakedAssignment { who: 3, budget: 50, edges: vec![edge(0, 38), edge(1, 12)] };
    let mut totals = vec![138u128, 112];
    assert_eq!(rebalance(&mut a, &mut totals, 0), 26);
    assert_eq!(a.edges, vec![edge(0, 25), edge(1, 25)]);
    assert_eq!(totals, vec![125, 125]);
}

#[test]
fn a_budget_that_does_not_reach_a_winner_leaves_it_out() {
    // Without the nominator the supports are 10, 40 and 500: 60 lift the
    // first two to 55 and do not reach the third.
    let mut a = StakedAssignment {
        who: 3,
        budget: 60,
        edges: vec![edge(2, 20), edge(0, 0), edge(1, 40)],
    };
    let mut totals = vec![10u128, 80, 520];
    let difference = rebalance(&mut a, &mut totals, 0);
    // The most backed support is 520, the least of all is 10, and all the
    // stake is given.
    assert_eq!(difference, 510);
    assert_eq!(
        a.edges,
        vec![edge(0, 45), edge(1, 15), StakedEdge { index: 2, stake: 0, listed: false }]
    );
    assert_eq!(totals, vec![55, 55, 500]);
}

#[test]
fn a_settled_nominator_is_left_as_it_is() {
    let mut a = StakedAssignment { who: 3, budget: 50, edges: vec![edge(0, 38), edge(1, 12)] };
    let mut totals = vec![138u128, 112];
    // The difference of 26 is under the tolerance.
    assert_eq!(rebalance(&mut a, &mut totals, 27), 26);
    assert_eq!(a.edges, vec![edge(0, 38), edge(1, 12)]);
    assert_eq!(totals, vec![138, 112]);
    // A nominator without edges has no difference.
    let mut none = StakedAssignment { who: 4, budget: 50, edges: Vec::new() };
    assert_eq!(rebalance(&mut none, &mut totals, 0), 0);
    assert_eq!(totals, vec![138, 112]);
    // A nominator that gave nothing yet gives all it has.
    let mut fresh = StakedAssignment { who: 5, budget: 30, edges: vec![edge(0, 0), edge(1, 0)] };
    assert_eq!(rebalance(&mut fresh, &mut totals, 1000), 30);
    assert_eq!(fresh.edges, vec![edge(1, 28), edge(0, 2)]);
    assert_eq!(totals, vec![140, 140]);
}

#[test]
fn passes_bring_the_supports_together() {
    let mut staked = vec![
        StakedAssignment { who: 3, budget: 30, edges: vec![edge(0, 30), edge(1, 0)] },
        StakedAssignment { who: 4, budget: 30, edges: vec![edge(0, 30), edge(1, 0)] },
    ];
    let mut totals = vec![100u128 + 60, 100];
    equalize(&mut staked, &mut totals, 0, 2);
    assert_eq!(totals, vec![130, 130]);
    let given: u128 = staked.iter().map(|a| a.edges.iter().map(|e| e.stake).sum::<u128>()).sum();
    assert_eq!(given, 60);
    // No pass at all changes nothing.
    let before = (staked.clone(), totals.clone());
    equalize(&mut staked, &mut totals, 0, 0);
    assert_eq!((staked, totals), before);
}

fn module(equalize: bool) -> Module {
    let mut m = Module::with_constants(
        GenesisConfig { validator_count: 2, minimum_validator_count: 1, equalize, ..Default::default() },
        3,
        3,
        10,
    )
    .unwrap();
    for (stash, ring) in [(1u64, 2u128), (2, 2), (3, 1), (4, 9_999_995)] {
        m.bond(
            Origin::Signed(stash),
            100 + stash,
            StakingBalance::Ring(ring),
            RewardDestination::Stash,
            0,
            0,
            ring,
        )
        .unwrap();
    }
    m.validate(Origin::Signed(101), Vec::new(), 0, 3).unwrap();
    m.validate(Origin::Signed(102), Vec::new(), 0, 3).unwrap();
    m.nominate(Origin::Signed(103), vec![1, 2]).unwrap();
    m
}

#[test]
fn an_election_that_equalizes_evens_the_exposures() {
    let mut plain = module(false);
    plain.select_validators();
    assert_eq!((plain.stakers(1).total, plain.stakers(2).total), (138, 112));
    let mut m = module(true);
    let (slot_stake, elected) = m.select_validators();
    assert_eq!(elected, Some(vec![1, 2]));
    assert_eq!(
        m.stakers(1),
        Exposure { total: 125, own: 100, others: vec![IndividualExposure { who: 3, value: 25 }] }
    );
    assert_eq!(
        m.stakers(2),
        Exposure { total: 125, own: 100, others: vec![IndividualExposure { who: 3, value: 25 }] }
    );
    assert_eq!(slot_stake, 125);
}
