use staking::{
    elect, Exposure, ExposureOf, Forcing, GenesisConfig, IndividualExposure, Module, Nomination,
    Origin, RewardDestination, Staked, StakingBalance,
};

const T: u64 = 1_000_000;

fn module(validator_count: u32, minimum_validator_count: u32) -> Module {
    let mut m = Module::with_constants(
        GenesisConfig {
            validator_count,
            minimum_validator_count,
            invulnerables: Vec::new(),
            session_reward: 600_000_000,
            current_era: 0,
            force_era: Forcing::NotForcing,
            slash_reward_fraction: 100_000_000,
            current_era_total_reward: 0,
            equalize: false,
        },
        3,
        3,
        10,
    )
    .unwrap();
    // Of a pool of ten million Ring, two Ring give a power of 100.
    for (stash, ring) in [(1u64, 2u128), (2, 2), (3, 1), (4, 9_999_995)] {
        m.bond(
            Origin::Signed(stash),
            100 + stash,
            StakingBalance::Ring(ring),
            RewardDestination::Stash,
            0,
            T,
            ring,
        )
        .unwrap();
    }
    m.validate(Origin::Signed(101), Vec::new(), 0, 3).unwrap();
    m.validate(Origin::Signed(102), Vec::new(), 0, 3).unwrap();
    m.nominate(Origin::Signed(103), vec![1, 2]).unwrap();
    m
}

#[test]
fn power_is_the_share_of_the_pools() {
    let mut m = module(2, 1);
    assert_eq!(m.power_of(1), 100);
    assert_eq!(m.power_of(3), 50);
    assert_eq!(m.power_of(4), 499_999_750);
    // A stash without a ledger has no power.
    assert_eq!(m.power_of(99), 0);
    // Kton counts for the other half.
    m.bond_extra(Origin::Signed(3), StakingBalance::Kton(5), 0, T, 5).unwrap();
    assert_eq!(m.power_of(3), 500_000_050);
}

#[test]
fn election_with_two_candidates() {
    let mut m = module(2, 1);
    let (slot_stake, elected) = m.select_validators();
    assert_eq!(elected, Some(vec![1, 2]));
    assert_eq!(m.current_elected, vec![1, 2]);
    let first = m.stakers(1);
    let second = m.stakers(2);
    assert_eq!(first.own, 100);
    assert_eq!(second.own, 100);
    assert_eq!(first.total + second.total, 200 + 50);
    assert_eq!(
        first,
        Exposure { total: 138, own: 100, others: vec![IndividualExposure { who: 3, value: 38 }] }
    );
    assert_eq!(
        second,
        Exposure { total: 112, own: 100, others: vec![IndividualExposure { who: 3, value: 12 }] }
    );
    assert_eq!(slot_stake, 112);
    assert_eq!(m.slot_stake, 112);
    assert_eq!(ExposureOf::convert(&m, 2), Some(second));
    assert_eq!(ExposureOf::convert(&m, 9), Some(Exposure::default()));
}

#[test]
fn election_is_the_same_on_every_run() {
    let mut a = module(2, 1);
    let mut b = module(2, 1);
    // What the election does not look at differs.
    b.current_era = 9;
    b.set_payee(Origin::Signed(101), RewardDestination::Controller).unwrap();
    assert_eq!(a.select_validators(), b.select_validators());
    assert_eq!(a.stakers, b.stakers);
    let again = a.clone().select_validators();
    assert_eq!(again, (112, Some(vec![1, 2])));
}

#[test]
fn election_with_too_few_candidates_keeps_what_was() {
    let mut m = module(2, 1);
    m.select_validators();
    m.minimum_validator_count = 3;
    m.chill(Origin::Signed(103)).unwrap();
    let before = m.clone();
    assert_eq!(m.select_validators(), (112, None));
    assert_eq!(m, before);
    // A minimum of zero counts as one.
    m.minimum_validator_count = 0;
    m.chill(Origin::Signed(101)).unwrap();
    m.chill(Origin::Signed(102)).unwrap();
    let before = m.clone();
    assert_eq!(m.select_validators(), (112, None));
    assert_eq!(m, before);
}

#[test]
fn election_replaces_the_exposures_of_the_last_era() {
    let mut m = module(1, 1);
    let (slot_stake, elected) = m.select_validators();
    // One seat: the first candidate of equal score wins and has all of the
    // nominator's stake.
    assert_eq!(elected, Some(vec![1]));
    assert_eq!(slot_stake, 150);
    assert_eq!(m.stakers.keys, vec![1]);
    m.chill(Origin::Signed(101)).unwrap();
    let (slot_stake, elected) = m.select_validators();
    assert_eq!(elected, Some(vec![2]));
    assert_eq!(slot_stake, 150);
    assert_eq!(m.stakers.keys, vec![2]);
    assert_eq!(
        m.stakers(2),
        Exposure { total: 150, own: 100, others: vec![IndividualExposure { who: 3, value: 50 }] }
    );
}

#[test]
fn election_without_seats_has_no_winner() {
    let mut m = module(0, 1);
    assert_eq!(m.select_validators(), (u128::MAX, Some(Vec::new())));
    assert!(m.stakers.keys.is_empty());
}

#[test]
fn the_stronger_candidate_wins_first() {
    let candidates = vec![
        Staked { who: 1, stake: 10 },
        Staked { who: 2, stake: 30 },
        Staked { who: 3, stake: 20 },
    ];
    let nominations = vec![
        Nomination { who: 10, stake: 15, targets: vec![3, 3, 77] },
        Nomination { who: 11, stake: 5, targets: vec![77] },
    ];
    let result = elect(2, 1, &candidates, &nominations).unwrap();
    assert_eq!(result.winners, vec![Staked { who: 3, stake: 35 }, Staked { who: 2, stake: 30 }]);
    // A target that is named twice counts once, one that is no candidate not
    // at all, and a nominator without a winner has no assignment.
    assert_eq!(result.assignments.len(), 1);
    assert_eq!(result.assignments[0].who, 10);
    assert_eq!(result.assignments[0].shares.len(), 1);
    assert_eq!(result.assignments[0].shares[0].who, 3);
    assert_eq!(result.assignments[0].shares[0].parts, 1_000_000_000);
}

#[test]
fn a_candidate_without_stake_wins_last() {
    let candidates = vec![Staked { who: 1, stake: 0 }, Staked { who: 2, stake: 1 }];
    let result = elect(5, 2, &candidates, &Vec::new()).unwrap();
    assert_eq!(result.winners, vec![Staked { who: 2, stake: 1 }, Staked { who: 1, stake: 0 }]);
    assert!(result.assignments.is_empty());
    assert!(elect(5, 3, &candidates, &Vec::new()).is_none());
}

#[test]
fn the_first_validators_are_those_elected() {
    let mut m = module(2, 1);
    assert_eq!(m.select_initial_validators(), Some(vec![1, 2]));
    assert_eq!(m.current_elected, vec![1, 2]);
    let mut few = module(2, 3);
    assert_eq!(few.select_initial_validators(), None);
    assert!(few.current_elected.is_empty());
}
