use staking::{
    Action, Event, Exposure, Forcing, GenesisConfig, IndividualExposure, Module, Origin,
    RewardDestination, SessionInterface, StakingBalance,
};

const T: u64 = 1_000_000;

struct Session;

impl SessionInterface<u64> for Session {
    fn disable_validator(_validator: &u64) -> Result<bool, ()> {
        Ok(false)
    }
    fn validators() -> Vec<u64> {
        vec![2, 9]
    }
    fn prune_historical_up_to(_up_to: u32) {}
}

fn module() -> Module {
    let mut m = Module::with_constants(
        GenesisConfig {
            validator_count: 2,
            minimum_validator_count: 1,
            invulnerables: Vec::new(),
            session_reward: 600_000_000,
            current_era: 0,
            force_era: Forcing::NotForcing,
            slash_reward_fraction: 100_000_000,
            current_era_total_reward: 1000,
            equalize: false,
        },
        3,
        3,
        2,
    )
    .unwrap();
    for (stash, ring) in [(1u64, 2u128), (2, 2), (3, 1), (4, 9_999_995)] {
        m.bond(
            Origin::Signed(stash),
            100 + stash,
            StakingBalance::Ring(ring),
            RewardDestination::Stash,
            0,
            T,
            ring,
        )
        .unwrap();
    }
    m.validate(Origin::Signed(101), Vec::new(), 10, 3).unwrap();
    m.validate(Origin::Signed(102), Vec::new(), 0, 3).unwrap();
    m.nominate(Origin::Signed(103), vec![1, 2]).unwrap();
    m.set_payee(Origin::Signed(102), RewardDestination::Controller).unwrap();
    m
}

#[test]
fn a_session_in_the_middle_of_an_era_changes_nothing() {
    let mut m = module();
    let before = m.clone();
    // Sessions 1 and 2 are no multiples of the three sessions of an era.
    for start_session in [2u32, 3] {
        let (new, prior, actions) =
            m.on_session_ending::<Session>(start_session - 1, start_session, 0);
        assert_eq!(new, None);
        assert!(actions.is_empty());
        assert!(prior.is_empty());
        assert_eq!(m, before);
    }
}

#[test]
fn the_first_era_pays_nobody_and_elects() {
    let mut m = module();
    let (new, prior, actions) = m.on_session_ending::<Session>(0, 1, 0);
    assert_eq!(new, Some(vec![1, 2]));
    assert_eq!(prior, vec![(2, Exposure::default()), (9, Exposure::default())]);
    // Nobody was elected yet: the reward of 600 is announced and not paid.
    assert_eq!(actions, vec![Action::Deposit { event: Event::Reward(600) }]);
    assert_eq!(m.current_era, 1);
    assert_eq!(m.epoch_index, 0);
    assert_eq!(m.current_era_total_reward, 1000);
    assert_eq!(m.slot_stake, 112);
}

#[test]
fn an_era_pays_the_elected_and_their_nominators() {
    let mut m = module();
    m.on_session_ending::<Session>(0, 1, 0);
    let (new, prior, actions) = m.on_session_ending::<Session>(3, 4, 5000);
    assert_eq!(new, Some(vec![1, 2]));
    assert_eq!(
        prior,
        vec![
            (
                2,
                Exposure {
                    total: 112,
                    own: 100,
                    others: vec![IndividualExposure { who: 3, value: 12 }],
                }
            ),
            (9, Exposure::default()),
        ]
    );
    // Each validator has 300. The first takes a tenth up-front and splits 270
    // by exposure; the second splits all of it and is paid at its controller.
    assert_eq!(
        actions,
        vec![
            Action::PayRing { who: 3, amount: 74 },
            Action::PayRing { who: 1, amount: 196 + 30 },
            Action::PayRing { who: 3, amount: 32 },
            Action::PayRing { who: 102, amount: 268 },
            Action::Deposit { event: Event::Reward(300) },
        ]
    );
    // The second era is a multiple of the two eras of an epoch.
    assert_eq!(m.current_era, 2);
    assert_eq!(m.epoch_index, 1);
    assert_eq!(m.current_era_total_reward, 5000);
}

#[test]
fn a_new_epoch_takes_the_reward_that_the_schedule_gives() {
    let mut m = module();
    m.current_era = 1;
    m.new_epoch(7);
    assert_eq!((m.epoch_index, m.current_era_total_reward), (1, 7));
    // Also where the schedule gives nothing.
    m.new_epoch(0);
    assert_eq!((m.epoch_index, m.current_era_total_reward), (2, 0));
    assert_eq!(m.current_era, 1);
}

#[test]
fn forcing_modes() {
    // A forced era begins at any session, and the forcing is used up.
    let mut m = module();
    m.force_new_era(Origin::Root).unwrap();
    let (new, _) = m.new_session(1, 0);
    assert_eq!(new, Some(vec![1, 2]));
    assert_eq!(m.force_era, Forcing::NotForcing);
    assert_eq!(m.current_era, 1);
    let (new, _) = m.new_session(2, 0);
    assert_eq!(new, None);
    assert_eq!(m.current_era, 1);

    // Forcing always begins an era at every session.
    m.force_era = Forcing::ForceAlways;
    m.new_session(4, 0);
    m.new_session(5, 0);
    assert_eq!(m.current_era, 3);
    assert_eq!(m.force_era, Forcing::ForceAlways);

    // Forcing none holds the eras back, also where the session index would
    // begin one.
    m.force_era = Forcing::ForceNone;
    let before = m.clone();
    let (new, actions) = m.new_session(6, 0);
    assert_eq!(new, None);
    assert!(actions.is_empty());
    assert_eq!(m, before);
}

#[test]
fn a_new_era_without_enough_candidates_keeps_the_validators() {
    let mut m = module();
    m.new_session(0, 0);
    m.minimum_validator_count = 3;
    let (new, actions) = m.new_era(0);
    assert_eq!(new, None);
    assert_eq!(actions.len(), 5);
    assert_eq!(m.current_era, 2);
    assert_eq!(m.current_elected, vec![1, 2]);
    assert_eq!(m.slot_stake, 112);
}

#[test]
fn no_reward_no_payment() {
    let mut m = module();
    m.new_session(0, 0);
    m.current_era_total_reward = 0;
    assert!(m.era_payouts().is_empty());
    m.current_era_total_reward = 1;
    // 60 % of one, rounded to the nearest, is one; each of two has none of it.
    assert_eq!(
        m.era_payouts(),
        vec![
            Action::PayRing { who: 1, amount: 0 },
            Action::PayRing { who: 102, amount: 0 },
            Action::Deposit { event: Event::Reward(0) },
        ]
    );
}

#[test]
fn payout_goes_to_the_payee() {
    let mut m = module();
    assert_eq!(m.make_payout(1, 5), vec![Action::PayRing { who: 1, amount: 5 }]);
    assert_eq!(m.make_payout(2, 5), vec![Action::PayRing { who: 102, amount: 5 }]);
    // A stash that nobody knows is paid itself.
    assert_eq!(m.make_payout(50, 5), vec![Action::PayRing { who: 50, amount: 5 }]);
    // A stash that is to be paid at a controller that it no longer has is
    // not paid.
    m.payee.insert(60, RewardDestination::Controller);
    assert!(m.make_payout(60, 5).is_empty());
}

#[test]
fn a_validator_that_takes_all_leaves_nothing_to_split() {
    let mut m = module();
    m.new_session(0, 0);
    m.validate(Origin::Signed(101), Vec::new(), 100, 3).unwrap();
    assert_eq!(m.reward_validator(1, 300), vec![Action::PayRing { who: 1, amount: 300 }]);
    // A stash without an exposure splits with nobody and has no part itself.
    assert_eq!(m.reward_validator(4, 300), vec![Action::PayRing { who: 4, amount: 0 }]);
}

#[test]
fn reward_points_count_for_the_elected_only() {
    let mut m = module();
    m.new_session(0, 0);
    m.reward_by_ids(&vec![(2, 5), (7, 100), (1, 1), (2, 1)]);
    let points = m.current_era_reward();
    assert_eq!(points.total, 7);
    assert_eq!(points.individual, vec![1, 6]);
    m.note_author(1);
    m.note_uncle(2, 1);
    m.note_author(77);
    let points = m.current_era_reward();
    assert_eq!(points.total, 7 + 20 + 2 + 1);
    assert_eq!(points.individual, vec![22, 8]);
}
