use staking::{
    Action, Event, Exposure, FilterHistoricalOffences, Forcing, GenesisConfig, IndividualExposure,
    Module, OffenceDetails, Origin, RewardDestination, SessionInterface, Settlement,
    SlashJournalEntry, StakingBalance, TimeDepositItem,
};

const MONTH: u64 = 2_592_000;
const T: u64 = 1_000_000;

struct Calm;

impl SessionInterface<u64> for Calm {
    fn disable_validator(_validator: &u64) -> Result<bool, ()> {
        Ok(false)
    }
    fn validators() -> Vec<u64> {
        Vec::new()
    }
    fn prune_historical_up_to(_up_to: u32) {}
}

struct Stalling;

impl SessionInterface<u64> for Stalling {
    fn disable_validator(_validator: &u64) -> Result<bool, ()> {
        Ok(true)
    }
    fn validators() -> Vec<u64> {
        Vec::new()
    }
    fn prune_historical_up_to(_up_to: u32) {}
}

struct Broken;

impl SessionInterface<u64> for Broken {
    fn disable_validator(_validator: &u64) -> Result<bool, ()> {
        Err(())
    }
    fn validators() -> Vec<u64> {
        Vec::new()
    }
    fn prune_historical_up_to(_up_to: u32) {}
}

fn module() -> Module {
    let mut m = Module::with_constants(
        GenesisConfig {
            validator_count: 2,
            minimum_validator_count: 1,
            invulnerables: vec![8],
            session_reward: 600_000_000,
            current_era: 4,
            force_era: Forcing::NotForcing,
            slash_reward_fraction: 100_000_000,
            current_era_total_reward: 0,
            equalize: false,
        },
        3,
        3,
        10,
    )
    .unwrap();
    // The validator: 30 normal Ring and two deposits.
    m.bond(Origin::Signed(1), 101, StakingBalance::Ring(30), RewardDestination::Stash, 0, T, 100)
        .unwrap();
    m.bond_extra(Origin::Signed(1), StakingBalance::Ring(30), 3, T, 100).unwrap();
    m.bond_extra(Origin::Signed(1), StakingBalance::Ring(40), 12, T, 100).unwrap();
    m.validate(Origin::Signed(101), Vec::new(), 0, 3).unwrap();
    // The nominator: 100 normal Ring.
    m.bond(Origin::Signed(3), 103, StakingBalance::Ring(100), RewardDestination::Stash, 0, T, 100)
        .unwrap();
    m.nominate(Origin::Signed(103), vec![1]).unwrap();
    // A validator that is never slashed.
    m.bond(Origin::Signed(8), 108, StakingBalance::Ring(100), RewardDestination::Stash, 0, T, 100)
        .unwrap();
    m.validate(Origin::Signed(108), Vec::new(), 0, 3).unwrap();
    m
}

fn offence(offender: u64) -> OffenceDetails {
    OffenceDetails {
        offender,
        exposure: Exposure {
            total: 200,
            own: 100,
            others: vec![IndividualExposure { who: 3, value: 100 }],
        },
        reporters: vec![20, 21],
    }
}

#[test]
fn offence_slashes_the_validator_and_its_nominators() {
    let mut m = module();
    let actions = m.on_offence::<Calm>(&vec![offence(1)], &vec![500_000_000]);
    assert_eq!(
        actions,
        vec![
            Action::SetRingLock { who: 1, amount: 50 },
            Action::SlashRing { who: 1, amount: 50 },
            Action::SetRingLock { who: 3, amount: 50 },
            Action::SlashRing { who: 3, amount: 50 },
            Action::SettleSlash { offender: 1 },
        ]
    );
    // Of the validator's 50, 30 came from the normal Ring and 20 from the
    // deposit that expires last.
    let l = m.ledger(101).unwrap();
    assert_eq!(l.total_ring, 50);
    assert_eq!(l.active_ring, 50);
    assert_eq!(l.active_deposit_ring, 50);
    assert_eq!(
        l.deposit_items,
        vec![
            TimeDepositItem { value: 20, start_time: T, expire_time: T + 12 * MONTH },
            TimeDepositItem { value: 30, start_time: T, expire_time: T + 3 * MONTH },
        ]
    );
    let l = m.ledger(103).unwrap();
    assert_eq!((l.total_ring, l.active_ring, l.active_deposit_ring), (50, 50, 0));
    assert_eq!(m.ring_pool, 200);
    assert!(!m.validators.keys.contains(&1));
    assert_eq!(m.force_era, Forcing::ForceNew);
    assert_eq!(
        m.era_slash_journal(4),
        vec![SlashJournalEntry { who: 1, amount: 100, own_slash: 50 }]
    );
    // The reporters share a tenth of the 100 Ring that were taken.
    assert_eq!(m.slash_reward_split(100, 2), (5, 90));
}

#[test]
fn a_slash_takes_the_fraction_of_what_was_exposed() {
    // The ledgers hold ten times what they exposed: each loses half of what
    // it exposed, not half of what it holds.
    let mut m = module();
    m.bond(Origin::Signed(5), 105, StakingBalance::Ring(1000), RewardDestination::Stash, 0, T, 1000)
        .unwrap();
    m.bond(Origin::Signed(6), 106, StakingBalance::Ring(1000), RewardDestination::Stash, 0, T, 1000)
        .unwrap();
    let exposure = Exposure {
        total: 200,
        own: 100,
        others: vec![
            IndividualExposure { who: 6, value: 100 },
            // A nominator that is bonded no more loses nothing.
            IndividualExposure { who: 77, value: 100 },
        ],
    };
    let unlocking = m.ledger(106).unwrap().unlocking;
    let (actions, entry) = m.slash_validator(5, 500_000_000, &exposure);
    assert_eq!(
        actions,
        vec![
            Action::SetRingLock { who: 5, amount: 950 },
            Action::SlashRing { who: 5, amount: 50 },
            Action::SetRingLock { who: 6, amount: 950 },
            Action::SlashRing { who: 6, amount: 50 },
        ]
    );
    assert_eq!(entry, SlashJournalEntry { who: 5, amount: 100, own_slash: 50 });
    assert_eq!(m.ledger(105).unwrap().active_ring, 950);
    assert_eq!(m.ledger(106).unwrap().active_ring, 950);
    assert_eq!(m.ledger(106).unwrap().unlocking, unlocking);
    assert_eq!(m.ring_pool, 300 + 1900);
    // The whole fraction takes all that was exposed, and no more.
    let (_, entry) = m.slash_validator(5, 1_000_000_000, &exposure);
    assert_eq!(entry, SlashJournalEntry { who: 5, amount: 200, own_slash: 100 });
    assert_eq!(m.ledger(105).unwrap().active_ring, 850);
    assert_eq!(m.ledger(106).unwrap().active_ring, 850);
}

#[test]
fn the_journal_records_what_the_ledgers_lost() {
    // The validator exposed 100 and holds 100; its nominator exposed 100 and
    // has 30 left active.
    let mut m = module();
    m.unbond(Origin::Signed(103), StakingBalance::Ring(70), T).unwrap();
    m.on_offence::<Calm>(&vec![offence(1)], &vec![1_000_000_000]);
    assert_eq!(
        m.era_slash_journal(4),
        vec![SlashJournalEntry { who: 1, amount: 130, own_slash: 100 }]
    );
    let l = m.ledger(103).unwrap();
    assert_eq!((l.active_ring, l.total_ring), (0, 70));
}

#[test]
fn settlements_name_the_reporters_of_the_offences_that_are_slashed() {
    let m = module();
    let mut other = offence(3);
    other.reporters = vec![30];
    let offences = vec![offence(1), offence(8), other, offence(1), offence(1)];
    // The second offender is never slashed, the fourth offence has the
    // fraction zero, and the fifth has no fraction.
    let fractions = vec![500_000_000, 500_000_000, 1_000_000_000, 0];
    let settlements = m.settlements(&offences, &fractions);
    assert_eq!(
        settlements,
        vec![
            Settlement { offender: 1, reporters: vec![20, 21] },
            Settlement { offender: 3, reporters: vec![30] },
        ]
    );
    let mut slashed = m.clone();
    let actions = slashed.on_offence::<Calm>(&offences, &fractions);
    let settled: Vec<u64> = actions
        .iter()
        .filter_map(|a| match a {
            Action::SettleSlash { offender } => Some(*offender),
            _ => None,
        })
        .collect();
    assert_eq!(settled, vec![1, 3]);
    // A fraction so small that it takes nothing of the exposure settles
    // nothing.
    assert!(m.settlements(&offences, &vec![1]).is_empty());
}

#[test]
fn slash_reward_is_split_evenly() {
    let m = module();
    assert_eq!(m.slash_reward_split(100, 0), (0, 100));
    assert_eq!(m.slash_reward_split(100, 3), (3, 91));
    assert_eq!(m.slash_reward_split(0, 3), (0, 0));
    assert_eq!(m.slash_reward_split(4, 1), (0, 4));
    assert_eq!(m.slash_reward_split(u128::MAX, 1), (u128::MAX / 10, u128::MAX - u128::MAX / 10));
}

#[test]
fn an_invulnerable_validator_is_not_slashed() {
    let mut m = module();
    let before = m.clone();
    let actions = m.on_offence::<Stalling>(&vec![offence(8)], &vec![1_000_000_000]);
    assert!(actions.is_empty());
    assert_eq!(m, before);
}

#[test]
fn an_offence_of_fraction_zero_deselects_the_validator_only() {
    let mut m = module();
    let pool = m.ring_pool;
    let ledgers = m.ledger.clone();
    let actions = m.on_offence::<Stalling>(&vec![offence(1)], &vec![0]);
    assert!(actions.is_empty());
    assert_eq!(m.ledger, ledgers);
    assert_eq!(m.ring_pool, pool);
    assert!(!m.validators.keys.contains(&1));
    assert_eq!(m.force_era, Forcing::ForceNew);
    assert!(m.era_slash_journal(4).is_empty());
}

#[test]
fn a_stalling_session_forces_a_new_era() {
    // The offender validates no more: only the session's answer can ask for
    // a new era.
    let mut m = module();
    m.chill(Origin::Signed(101)).unwrap();
    let mut calm = m.clone();
    let mut broken = m.clone();
    m.on_offence::<Stalling>(&vec![offence(1)], &vec![500_000_000]);
    assert_eq!(m.force_era, Forcing::ForceNew);
    calm.on_offence::<Calm>(&vec![offence(1)], &vec![500_000_000]);
    assert_eq!(calm.force_era, Forcing::NotForcing);
    broken.on_offence::<Broken>(&vec![offence(1)], &vec![500_000_000]);
    assert_eq!(broken.force_era, Forcing::NotForcing);
    assert_eq!(calm.ledger, m.ledger);
}

#[test]
fn offences_are_handled_in_order() {
    let mut m = module();
    let offences = vec![offence(1), offence(8), offence(1), offence(3)];
    // The last offence has no fraction and is left out.
    let actions = m.on_offence::<Calm>(&offences, &vec![500_000_000, 500_000_000, 1_000_000_000]);
    assert_eq!(actions.len(), 10);
    assert_eq!(actions[4], Action::SettleSlash { offender: 1 });
    assert_eq!(actions[5], Action::SetRingLock { who: 1, amount: 0 });
    assert_eq!(actions[6], Action::SlashRing { who: 1, amount: 50 });
    assert_eq!(actions[9], Action::SettleSlash { offender: 1 });
    assert_eq!(m.ledger(101).unwrap().active_ring, 0);
    assert!(m.ledger(101).unwrap().deposit_items.is_empty());
    assert_eq!(m.ledger(103).unwrap().active_ring, 0);
    assert_eq!(m.ledger(108).unwrap().active_ring, 100);
    assert_eq!(m.ring_pool, 100);
    // The second slash asks for 100 of each and finds 50 in each ledger.
    assert_eq!(
        m.era_slash_journal(4),
        vec![
            SlashJournalEntry { who: 1, amount: 100, own_slash: 50 },
            SlashJournalEntry { who: 1, amount: 100, own_slash: 50 },
        ]
    );
}

#[test]
fn slashing_leaves_unlocking_chunks_alone() {
    let mut m = module();
    m.unbond(Origin::Signed(103), StakingBalance::Ring(60), T).unwrap();
    let unlocking = m.ledger(103).unwrap().unlocking;
    // 100 are asked for; the 40 that are active go.
    let (actions, taken) = m.slash_individual(3, 100);
    assert_eq!(taken, 40);
    assert_eq!(
        actions,
        vec![
            Action::SetRingLock { who: 3, amount: 60 },
            Action::SlashRing { who: 3, amount: 40 },
        ]
    );
    let l = m.ledger(103).unwrap();
    assert_eq!((l.total_ring, l.active_ring), (60, 0));
    assert_eq!(l.unlocking, unlocking);
    // A stash without a ledger is left out.
    let before = m.clone();
    let (actions, taken) = m.slash_individual(77, 100);
    assert!(actions.is_empty());
    assert_eq!(taken, 0);
    assert_eq!(m, before);
    // A slash of nothing changes nothing.
    let (actions, taken) = m.slash_individual(1, 0);
    assert!(actions.is_empty());
    assert_eq!(taken, 0);
    assert_eq!(m, before);
}

#[test]
fn kton_pays_what_the_ring_does_not_cover() {
    let mut m = module();
    m.bond_extra(Origin::Signed(3), StakingBalance::Kton(40), 0, T, 40).unwrap();
    m.unbond(Origin::Signed(103), StakingBalance::Kton(30), T).unwrap();
    assert_eq!(m.kton_pool, 10);
    let (actions, taken) = m.slash_individual(3, 105);
    assert_eq!(taken, 105);
    assert_eq!(
        actions,
        vec![
            Action::SetRingLock { who: 3, amount: 0 },
            Action::SlashRing { who: 3, amount: 100 },
            Action::SetKtonLock { who: 3, amount: 35 },
            Action::SlashKton { who: 3, amount: 5 },
        ]
    );
    let l = m.ledger(103).unwrap();
    assert_eq!((l.total_kton, l.active_kton), (35, 5));
    assert_eq!(m.kton_pool, 5);
    assert_eq!(m.ring_pool, 200);
}

#[test]
fn old_offences_are_dropped() {
    let mut m = module();
    m.current_era_start_session_index = 12;
    assert_eq!(FilterHistoricalOffences::report_offence(&m, 12), Ok(()));
    assert_eq!(FilterHistoricalOffences::report_offence(&m, 40), Ok(()));
    assert_eq!(
        FilterHistoricalOffences::report_offence(&m, 11),
        Err(Event::OldSlashingReportDiscarded(11))
    );
}
