use staking::types::{ensure_root, ensure_signed};
use staking::{Error, LinkedMap, Origin};

#[test]
fn a_map_keeps_the_order_of_its_keys() {
    let mut m: LinkedMap<u32> = LinkedMap::new();
    assert_eq!(m.len(), 0);
    m.insert(7, 70);
    m.insert(3, 30);
    m.insert(9, 90);
    // A key that is held keeps its place.
    m.insert(3, 31);
    assert_eq!(m.keys, vec![7, 3, 9]);
    assert_eq!(m.vals, vec![70, 31, 90]);
    assert_eq!(m.len(), 3);
    assert_eq!(m.position(9), Some(2));
    assert_eq!(m.position(4), None);
    assert_eq!(m.get(3), Some(&31));
    assert_eq!(m.get(4), None);
    assert!(m.contains_key(7));
    assert!(!m.contains_key(8));
    assert_eq!(m.remove(7), Some(70));
    assert_eq!(m.remove(7), None);
    assert_eq!(m.keys, vec![3, 9]);
    assert_eq!(m.vals, vec![31, 90]);
    // A key that comes back comes last.
    m.insert(7, 71);
    assert_eq!(m.keys, vec![3, 9, 7]);
}

#[test]
fn origins() {
    assert_eq!(ensure_signed(Origin::Signed(5)), Ok(5));
    assert_eq!(ensure_signed(Origin::Root), Err(Error::BadOrigin));
    assert_eq!(ensure_root(Origin::Root), Ok(()));
    assert_eq!(ensure_root(Origin::Signed(5)), Err(Error::BadOrigin));
}

struct Session;

impl staking::SessionInterface<u64> for Session {
    fn disable_validator(_validator: &u64) -> Result<bool, ()> {
        Ok(false)
    }
    fn validators() -> Vec<u64> {
        Vec::new()
    }
    fn prune_historical_up_to(_up_to: u32) {}
}

struct Runtime;

impl staking::Trait for Runtime {
    type SessionInterface = Session;
    fn sessions_per_era() -> u32 {
        6
    }
    fn bonding_duration() -> u32 {
        28
    }
    fn eras_per_epoch() -> u32 {
        100
    }
}

struct Timeless;

impl staking::Trait for Timeless {
    type SessionInterface = Session;
    fn sessions_per_era() -> u32 {
        0
    }
    fn bonding_duration() -> u32 {
        28
    }
    fn eras_per_epoch() -> u32 {
        100
    }
}

#[test]
fn the_module_starts_with_the_values_of_genesis() {
    let config = staking::GenesisConfig {
        validator_count: 5,
        invulnerables: vec![4],
        current_era: 2,
        current_era_total_reward: 77,
        ..Default::default()
    };
    let m = staking::Module::new::<Runtime>(config.clone()).unwrap();
    assert_eq!((m.sessions_per_era, m.bonding_duration, m.eras_per_epoch), (6, 28, 100));
    assert_eq!(m.validator_count, 5);
    assert_eq!(m.minimum_validator_count, 4);
    assert_eq!(m.invulnerables, vec![4]);
    assert_eq!(m.session_reward, 600_000_000);
    assert_eq!(m.slash_reward_fraction, 0);
    assert_eq!(m.current_era, 2);
    assert_eq!(m.force_era, staking::Forcing::NotForcing);
    assert_eq!(m.current_era_total_reward, 77);
    assert_eq!((m.ring_pool, m.kton_pool, m.slot_stake, m.epoch_index), (0, 0, 0, 0));
    assert!(m.ledger.keys.is_empty() && m.bonded.keys.is_empty() && m.current_elected.is_empty());
    assert_eq!(staking::Module::with_constants(config.clone(), 6, 28, 100), Some(m));
}

#[test]
fn no_module_without_eras_or_with_a_fraction_over_one() {
    let config = staking::GenesisConfig::default();
    assert!(staking::Module::new::<Timeless>(config.clone()).is_none());
    assert!(staking::Module::with_constants(config.clone(), 0, 1, 1).is_none());
    assert!(staking::Module::with_constants(config.clone(), 1, 1, 0).is_none());
    assert!(staking::Module::with_constants(config.clone(), 1, 0, 1).is_some());
    let mut over = config.clone();
    over.session_reward = 1_000_000_001;
    assert!(staking::Module::new::<Runtime>(over).is_none());
    let mut over = config.clone();
    over.slash_reward_fraction = 1_000_000_001;
    assert!(staking::Module::new::<Runtime>(over).is_none());
    let mut whole = config;
    whole.slash_reward_fraction = 1_000_000_000;
    assert!(staking::Module::new::<Runtime>(whole).is_some());
}
