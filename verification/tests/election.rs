use staking::elect::{elect, score};
use staking::phragmen::{Edge, Nomination, Seat, Staked, Voter};

#[test]
fn two_candidates_and_one_nominator_share_the_stake() {
    let candidates = vec![Staked { who: 1, stake: 100 }, Staked { who: 2, stake: 100 }];
    let nominations = vec![Nomination { who: 10, stake: 50, targets: vec![1, 2] }];
    let result = elect(2, 1, &candidates, &nominations).expect("two candidates are enough");
    assert_eq!(
        result.winners,
        vec![Staked { who: 1, stake: 150 }, Staked { who: 2, stake: 150 }]
    );
    assert_eq!(result.assignments.len(), 1);
    let a = &result.assignments[0];
    assert_eq!(a.who, 10);
    assert_eq!(a.shares.len(), 2);
    assert_eq!(a.shares[0].who, 1);
    assert_eq!(a.shares[1].who, 2);
    assert_eq!(a.shares[0].parts, 750_000_001);
    assert_eq!(a.shares[1].parts, 249_999_999);
}

#[test]
fn too_few_candidates_give_no_result() {
    let candidates = vec![Staked { who: 1, stake: 100 }];
    let nominations: Vec<Nomination> = Vec::new();
    assert!(elect(2, 2, &candidates, &nominations).is_none());
}

#[test]
fn a_score_is_one_over_the_approval_plus_the_loads_brought() {
    let approval: u128 = (1 << 100) + 7;
    let times: u128 = (1 << 20) + 3;
    let budget: u128 = 1 << 90;
    let seats = vec![
        Seat { who: 1, approval, elected: false },
        Seat { who: 2, approval: 0, elected: false },
        Seat { who: 3, approval: 1, elected: false },
    ];
    let voters = vec![
        // The load times the budget takes more than 128 bits; over the
        // approval it is the budget a whole number of times.
        Voter {
            who: 9,
            budget,
            load: times * approval,
            edges: vec![Edge { index: 0, load: 0 }],
            own: false,
        },
        // A vote for another candidate brings this one nothing.
        Voter { who: 8, budget: 5, load: 5, edges: vec![Edge { index: 1, load: 0 }], own: false },
    ];
    assert_eq!(score(&seats, &voters, 0), u128::MAX / approval + times * budget);
    // A candidate without approval has the largest score of all, and one
    // with approval stays under it.
    assert_eq!(score(&seats, &voters, 1), u128::MAX);
    assert_eq!(score(&seats, &voters, 2), u128::MAX - 1);
    let heavy = vec![Voter {
        who: 9,
        budget: u128::MAX,
        load: u128::MAX,
        edges: vec![Edge { index: 0, load: 0 }],
        own: false,
    }];
    let light = vec![Seat { who: 1, approval: 2, elected: false }];
    assert_eq!(score(&light, &heavy, 0), u128::MAX - 1);
}
