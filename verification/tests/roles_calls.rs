use staking::{
    Action, Error, Event, Forcing, GenesisConfig, Module, Origin, RewardDestination, StakerStatus,
    StakingBalance, ValidatorPrefs,
};

const T: u64 = 1_000_000;

fn module() -> Module {
    let mut m = Module::with_constants(
        GenesisConfig {
            validator_count: 2,
            minimum_validator_count: 4,
            invulnerables: Vec::new(),
            session_reward: 600_000_000,
            current_era: 0,
            force_era: Forcing::NotForcing,
            slash_reward_fraction: 100_000_000,
            current_era_total_reward: 0,
            equalize: false,
        },
        3,
        3,
        10,
    )
    .unwrap();
    for stash in 1..=3u64 {
        m.bond(
            Origin::Signed(stash),
            100 + stash,
            StakingBalance::Ring(100),
            RewardDestination::Stash,
            0,
            T,
            100,
        )
        .unwrap();
    }
    m
}

#[test]
fn default_values() {
    assert_eq!(
        ValidatorPrefs::default(),
        ValidatorPrefs { unstake_threshold: 3, validator_payment_ratio: 0 }
    );
    assert_eq!(StakingBalance::default(), StakingBalance::Ring(0));
    assert_eq!(RewardDestination::default(), RewardDestination::Stash);
    assert_eq!(Forcing::default(), Forcing::NotForcing);
    let e = staking::Exposure::default();
    assert_eq!((e.total, e.own, e.others.len()), (0, 0, 0));
    assert_eq!(staking::StakingLedgers::default(), staking::StakingLedgers::new(0));
    assert_eq!(
        staking::SlashJournalEntry::default(),
        staking::SlashJournalEntry { who: 0, amount: 0, own_slash: 0 }
    );
}

#[test]
fn validate_records_preferences_and_the_first_node_name() {
    let mut m = module();
    let actions = m.validate(Origin::Signed(101), vec![7, 8], 25, 10).unwrap();
    assert_eq!(actions, vec![Action::Deposit { event: Event::NodeNameUpdated }]);
    assert_eq!(
        m.validators(1),
        ValidatorPrefs { unstake_threshold: 10, validator_payment_ratio: 250_000_000 }
    );
    assert_eq!(m.node_name(101), vec![7, 8]);
    // A second call replaces the preferences and keeps the name.
    let actions = m.validate(Origin::Signed(101), vec![9], 250, 0).unwrap();
    assert!(actions.is_empty());
    assert_eq!(
        m.validators(1),
        ValidatorPrefs { unstake_threshold: 0, validator_payment_ratio: 1_000_000_000 }
    );
    assert_eq!(m.node_name(101), vec![7, 8]);
    assert_eq!(m.validators.keys, vec![1]);
}

#[test]
fn validate_is_refused() {
    let mut m = module();
    let before = m.clone();
    assert_eq!(m.validate(Origin::Root, vec![], 0, 3), Err(Error::BadOrigin));
    assert_eq!(m.validate(Origin::Signed(1), vec![], 0, 3), Err(Error::NotController));
    assert_eq!(
        m.validate(Origin::Signed(101), vec![], 0, 11),
        Err(Error::UnstakeThresholdTooLarge)
    );
    assert_eq!(m, before);
}

#[test]
fn a_stash_validates_or_nominates() {
    let mut m = module();
    m.validate(Origin::Signed(101), vec![], 0, 3).unwrap();
    m.nominate(Origin::Signed(101), vec![2, 3]).unwrap();
    assert!(m.validators.keys.is_empty());
    assert_eq!(m.nominators(1), vec![2, 3]);
    m.validate(Origin::Signed(101), vec![], 0, 3).unwrap();
    assert_eq!(m.validators.keys, vec![1]);
    assert!(m.nominators.keys.is_empty());
    assert!(m.nominators(1).is_empty());
    m.chill(Origin::Signed(101)).unwrap();
    assert!(m.validators.keys.is_empty());
    assert!(m.nominators.keys.is_empty());
    assert_eq!(m.chill(Origin::Root), Err(Error::BadOrigin));
    assert_eq!(m.chill(Origin::Signed(1)), Err(Error::NotController));
}

#[test]
fn nominate_keeps_the_first_sixteen_targets() {
    let mut m = module();
    let targets: Vec<u64> = (1..=20).collect();
    m.nominate(Origin::Signed(102), targets).unwrap();
    assert_eq!(m.nominators(2), (1..=16).collect::<Vec<u64>>());
    let before = m.clone();
    assert_eq!(m.nominate(Origin::Signed(102), Vec::new()), Err(Error::EmptyTargets));
    assert_eq!(m.nominate(Origin::Root, vec![1]), Err(Error::BadOrigin));
    assert_eq!(m.nominate(Origin::Signed(2), vec![1]), Err(Error::NotController));
    assert_eq!(m, before);
}

#[test]
fn set_payee_names_the_destination() {
    let mut m = module();
    assert_eq!(m.payee(1), RewardDestination::Stash);
    m.set_payee(Origin::Signed(101), RewardDestination::Controller).unwrap();
    assert_eq!(m.payee(1), RewardDestination::Controller);
    assert_eq!(m.payee(2), RewardDestination::Stash);
    assert_eq!(m.set_payee(Origin::Root, RewardDestination::Stash), Err(Error::BadOrigin));
    assert_eq!(
        m.set_payee(Origin::Signed(1), RewardDestination::Stash),
        Err(Error::NotController)
    );
}

#[test]
fn set_controller_moves_the_ledger() {
    let mut m = module();
    let ledger = m.ledger(101).unwrap();
    m.set_controller(Origin::Signed(1), 201).unwrap();
    assert_eq!(m.bonded(1), Some(201));
    assert!(m.ledger(101).is_none());
    assert_eq!(m.ledger(201), Some(ledger));
    assert_eq!(m.ring_pool, 300);
    assert_eq!(staking::StashOf::convert(&m, 201), Some(1));
    assert_eq!(staking::StashOf::convert(&m, 101), None);
    let before = m.clone();
    assert_eq!(m.set_controller(Origin::Root, 5), Err(Error::BadOrigin));
    assert_eq!(m.set_controller(Origin::Signed(201), 5), Err(Error::NotStash));
    assert_eq!(m.set_controller(Origin::Signed(1), 102), Err(Error::AlreadyPaired));
    assert_eq!(m.set_controller(Origin::Signed(1), 201), Err(Error::AlreadyPaired));
    assert_eq!(m, before);
}

#[test]
fn root_calls() {
    let mut m = module();
    m.set_validator_count(Origin::Root, 7).unwrap();
    assert_eq!(m.validator_count, 7);
    m.set_invulnerables(Origin::Root, vec![1, 2]).unwrap();
    assert_eq!(m.invulnerables, vec![1, 2]);
    m.force_new_era(Origin::Root).unwrap();
    assert_eq!(m.force_era, Forcing::ForceNew);
    let before = m.clone();
    assert_eq!(m.set_validator_count(Origin::Signed(1), 1), Err(Error::BadOrigin));
    assert_eq!(m.set_invulnerables(Origin::Signed(1), Vec::new()), Err(Error::BadOrigin));
    assert_eq!(m.force_new_era(Origin::Signed(1)), Err(Error::BadOrigin));
    assert_eq!(m, before);
}

#[test]
fn ensure_new_era_keeps_a_mode_that_forces() {
    let mut m = module();
    m.ensure_new_era();
    assert_eq!(m.force_era, Forcing::ForceNew);
    m.ensure_new_era();
    assert_eq!(m.force_era, Forcing::ForceNew);
    m.force_era = Forcing::ForceAlways;
    m.ensure_new_era();
    assert_eq!(m.force_era, Forcing::ForceAlways);
    m.force_era = Forcing::ForceNone;
    m.ensure_new_era();
    assert_eq!(m.force_era, Forcing::ForceNew);
}

#[test]
fn genesis_stakers_bond_for_twelve_months() {
    let mut m = Module::with_constants(
        GenesisConfig {
            validator_count: 2,
            minimum_validator_count: staking::types::DEFAULT_MINIMUM_VALIDATOR_COUNT,
            invulnerables: Vec::new(),
            session_reward: 600_000_000,
            current_era: 0,
            force_era: Forcing::NotForcing,
            slash_reward_fraction: 0,
            current_era_total_reward: 0,
            equalize: false,
        },
        3,
        3,
        10,
    )
    .unwrap();
    let actions = m.genesis_staker(1, 101, 2400, StakerStatus::Validator, T, 3000);
    assert_eq!(
        actions,
        vec![
            Action::MintKton { who: 1, amount: 24 },
            Action::SetRingLock { who: 1, amount: 2400 },
            Action::Deposit { event: Event::NodeNameUpdated },
        ]
    );
    m.genesis_staker(2, 102, 100, StakerStatus::Nominator(vec![1]), T, 100);
    m.genesis_staker(3, 103, 100, StakerStatus::Idle, T, 100);
    assert_eq!(m.validators.keys, vec![1]);
    assert_eq!(m.validators(1), ValidatorPrefs::default());
    assert_eq!(m.node_name(101), vec![0; 8]);
    assert_eq!(m.nominators(2), vec![1]);
    assert_eq!(m.ledger(103).unwrap().active_deposit_ring, 100);
    assert_eq!(m.minimum_validator_count, 4);
    assert_eq!(m.ring_pool, 2600);
}
