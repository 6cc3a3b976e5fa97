use staking::{
    Action, Error, Forcing, GenesisConfig, Module, Origin, RewardDestination, StakingBalance,
    TimeDepositItem, UnlockChunk,
};

const MONTH: u64 = 2_592_000;
const T: u64 = 1_000_000;
const A: u64 = 1;
const CA: u64 = 101;

fn module() -> Module {
    Module::with_constants(
        GenesisConfig {
            validator_count: 2,
            minimum_validator_count: 1,
            invulnerables: Vec::new(),
            session_reward: 600_000_000,
            current_era: 0,
            force_era: Forcing::NotForcing,
            slash_reward_fraction: 100_000_000,
            current_era_total_reward: 0,
            equalize: false,
        },
        3,
        3,
        10,
    )
    .unwrap()
}

fn pool_sums_hold(m: &Module) {
    let ring: u128 = m.ledger.vals.iter().map(|l| l.active_ring).sum();
    let kton: u128 = m.ledger.vals.iter().map(|l| l.active_kton).sum();
    assert_eq!(m.ring_pool, ring);
    assert_eq!(m.kton_pool, kton);
    for l in m.ledger.vals.iter() {
        assert!(l.active_deposit_ring <= l.active_ring);
        assert!(l.active_ring <= l.total_ring);
        assert!(l.active_kton <= l.total_kton);
        let deposits: u128 = l.deposit_items.iter().map(|i| i.value).sum();
        assert_eq!(deposits, l.active_deposit_ring);
        let mut ring_out: u128 = 0;
        let mut kton_out: u128 = 0;
        for c in l.unlocking.iter() {
            match c.value {
                StakingBalance::Ring(r) => ring_out += r,
                StakingBalance::Kton(k) => kton_out += k,
            }
        }
        assert_eq!(l.total_ring, l.active_ring + ring_out);
        assert_eq!(l.total_kton, l.active_kton + kton_out);
    }
}

#[test]
fn bond_with_no_promise() {
    let mut m = module();
    let actions = m
        .bond(Origin::Signed(A), CA, StakingBalance::Ring(1000), RewardDestination::Stash, 0, T, 5000)
        .unwrap();
    let l = m.ledger(CA).unwrap();
    assert_eq!(l.stash, A);
    assert_eq!(l.total_ring, 1000);
    assert_eq!(l.active_ring, 1000);
    assert_eq!(l.active_deposit_ring, 0);
    assert!(l.deposit_items.is_empty());
    assert!(l.unlocking.is_empty());
    assert_eq!(m.ring_pool, 1000);
    assert_eq!(m.kton_pool, 0);
    assert_eq!(actions, vec![Action::SetRingLock { who: A, amount: 1000 }]);
    assert_eq!(m.bonded(A), Some(CA));
    assert_eq!(m.payee(A), RewardDestination::Stash);
    pool_sums_hold(&m);
}

#[test]
fn bond_with_twelve_month_promise() {
    let mut m = module();
    let actions = m
        .bond(Origin::Signed(A), CA, StakingBalance::Ring(1000), RewardDestination::Stash, 12, T, 5000)
        .unwrap();
    let l = m.ledger(CA).unwrap();
    assert_eq!(l.active_deposit_ring, 1000);
    assert_eq!(l.active_ring, 1000);
    assert_eq!(
        l.deposit_items,
        vec![TimeDepositItem { value: 1000, start_time: T, expire_time: T + 12 * MONTH }]
    );
    assert!(staking::kton_return(1000, 12) > 0);
    assert_eq!(
        actions,
        vec![
            Action::MintKton { who: A, amount: staking::kton_return(1000, 12) },
            Action::SetRingLock { who: A, amount: 1000 },
        ]
    );
    pool_sums_hold(&m);
}

#[test]
fn bond_takes_at_most_the_free_balance() {
    let mut m = module();
    m.bond(Origin::Signed(A), CA, StakingBalance::Ring(1000), RewardDestination::Controller, 0, T, 300)
        .unwrap();
    assert_eq!(m.ledger(CA).unwrap().total_ring, 300);
    assert_eq!(m.ring_pool, 300);
    assert_eq!(m.payee(A), RewardDestination::Controller);
}

#[test]
fn bond_kton_locks_kton() {
    let mut m = module();
    let actions = m
        .bond(Origin::Signed(A), CA, StakingBalance::Kton(70), RewardDestination::Stash, 12, T, 100)
        .unwrap();
    let l = m.ledger(CA).unwrap();
    assert_eq!(l.total_kton, 70);
    assert_eq!(l.active_kton, 70);
    assert_eq!(l.total_ring, 0);
    assert!(l.deposit_items.is_empty());
    assert_eq!(m.kton_pool, 70);
    assert_eq!(actions, vec![Action::SetKtonLock { who: A, amount: 70 }]);
    pool_sums_hold(&m);
}

#[test]
fn bond_is_refused() {
    let mut m = module();
    let ring = StakingBalance::Ring(10);
    let stash = RewardDestination::Stash;
    assert_eq!(m.bond(Origin::Root, CA, ring, stash, 0, T, 100), Err(Error::BadOrigin));
    assert_eq!(m.bond(Origin::Signed(A), CA, ring, stash, 37, T, 100), Err(Error::MonthsTooLong));
    m.bond(Origin::Signed(A), CA, ring, stash, 36, T, 100).unwrap();
    assert_eq!(m.bond(Origin::Signed(A), 102, ring, stash, 0, T, 100), Err(Error::AlreadyBonded));
    assert_eq!(m.bond(Origin::Signed(2), CA, ring, stash, 0, T, 100), Err(Error::AlreadyPaired));
    assert_eq!(m.ledger.keys, vec![CA]);
    assert_eq!(m.ring_pool, 10);
}

#[test]
fn early_unlock_with_penalty() {
    let mut m = module();
    m.bond(Origin::Signed(A), CA, StakingBalance::Ring(1000), RewardDestination::Stash, 12, T, 5000)
        .unwrap();
    let now = T + 6 * MONTH;
    let expire = T + 12 * MONTH;
    let penalty = 3 * staking::kton_return(1000, 6);
    assert_eq!(staking::deposits::months_left(expire, now), 6);
    assert_eq!(penalty, 15);

    // The free Kton does not pay the penalty: nothing changes.
    let before = m.clone();
    let actions = m.claim_deposits_with_punish(Origin::Signed(CA), expire, now, 14, 0).unwrap();
    assert!(actions.is_empty());
    assert_eq!(m, before);

    // The penalty can be paid, but a lock keeps it in the account.
    let actions = m.claim_deposits_with_punish(Origin::Signed(CA), expire, now, 20, 6).unwrap();
    assert!(actions.is_empty());
    assert_eq!(m, before);

    // The free Kton pays the penalty.
    let actions = m.claim_deposits_with_punish(Origin::Signed(CA), expire, now, 15, 0).unwrap();
    assert_eq!(actions, vec![Action::SlashKton { who: A, amount: 15 }]);
    let l = m.ledger(CA).unwrap();
    assert!(l.deposit_items.is_empty());
    assert_eq!(l.active_deposit_ring, 0);
    assert_eq!(l.active_ring, 1000);
    assert_eq!(l.total_ring, 1000);
    pool_sums_hold(&m);
}

#[test]
fn punished_claim_pays_one_deposit_after_the_other() {
    let mut m = module();
    m.bond(Origin::Signed(A), CA, StakingBalance::Ring(1200), RewardDestination::Stash, 12, T, 9000)
        .unwrap();
    m.bond_extra(Origin::Signed(A), StakingBalance::Ring(2400), 12, T, 9000).unwrap();
    m.bond_extra(Origin::Signed(A), StakingBalance::Ring(400), 12, T + 1, 9000).unwrap();
    let expire = T + 12 * MONTH;
    // One month is left: the fines are 3 and 6. 8 Kton pay the first only.
    let actions = m
        .claim_deposits_with_punish(Origin::Signed(CA), expire, expire - MONTH, 8, 0)
        .unwrap();
    assert_eq!(actions, vec![Action::SlashKton { who: A, amount: 3 }]);
    let l = m.ledger(CA).unwrap();
    assert_eq!(
        l.deposit_items,
        vec![
            TimeDepositItem { value: 2400, start_time: T, expire_time: expire },
            TimeDepositItem { value: 400, start_time: T + 1, expire_time: expire + 1 },
        ]
    );
    assert_eq!(l.active_deposit_ring, 2800);
    pool_sums_hold(&m);
}

#[test]
fn punished_claim_is_refused() {
    let mut m = module();
    m.bond(Origin::Signed(A), CA, StakingBalance::Ring(1000), RewardDestination::Stash, 12, T, 5000)
        .unwrap();
    assert_eq!(m.claim_deposits_with_punish(Origin::Root, T + 5, T, 0, 0), Err(Error::BadOrigin));
    assert_eq!(
        m.claim_deposits_with_punish(Origin::Signed(A), T + 5, T, 0, 0),
        Err(Error::NotController)
    );
    assert_eq!(
        m.claim_deposits_with_punish(Origin::Signed(CA), T, T, 0, 0),
        Err(Error::DepositExpired)
    );
}

#[test]
fn unbond_and_withdraw() {
    let mut m = module();
    m.bond(Origin::Signed(A), CA, StakingBalance::Ring(1000), RewardDestination::Stash, 0, T, 5000)
        .unwrap();
    m.current_era = 10;
    let actions = m.unbond(Origin::Signed(CA), StakingBalance::Ring(400), T).unwrap();
    assert_eq!(actions, vec![Action::SetRingLock { who: A, amount: 1000 }]);
    let l = m.ledger(CA).unwrap();
    assert_eq!(l.active_ring, 600);
    assert_eq!(l.total_ring, 1000);
    assert_eq!(l.unlocking, vec![UnlockChunk { value: StakingBalance::Ring(400), era: 13 }]);
    assert_eq!(m.ring_pool, 600);
    pool_sums_hold(&m);

    // Nothing is due before era 13.
    m.current_era = 12;
    assert!(m.withdraw_unbonded(Origin::Signed(CA)).unwrap().is_empty());
    assert_eq!(m.ledger(CA).unwrap().total_ring, 1000);

    m.current_era = 13;
    let actions = m.withdraw_unbonded(Origin::Signed(CA)).unwrap();
    assert_eq!(actions, vec![Action::SetRingLock { who: A, amount: 600 }]);
    let l = m.ledger(CA).unwrap();
    assert_eq!(l.total_ring, 600);
    assert_eq!(l.active_ring, 600);
    assert!(l.unlocking.is_empty());
    pool_sums_hold(&m);
}

#[test]
fn unbond_leaves_deposits_bonded() {
    let mut m = module();
    m.bond(Origin::Signed(A), CA, StakingBalance::Ring(700), RewardDestination::Stash, 6, T, 5000)
        .unwrap();
    m.bond_extra(Origin::Signed(A), StakingBalance::Ring(300), 0, T, 5000).unwrap();
    // Only the 300 normal Ring can be unbonded.
    m.unbond(Origin::Signed(CA), StakingBalance::Ring(1000), T).unwrap();
    let l = m.ledger(CA).unwrap();
    assert_eq!(l.active_ring, 700);
    assert_eq!(l.active_deposit_ring, 700);
    assert_eq!(l.unlocking, vec![UnlockChunk { value: StakingBalance::Ring(300), era: 3 }]);
    // Once the deposit is mature it is cleared, and its Ring can go too.
    m.unbond(Origin::Signed(CA), StakingBalance::Ring(1000), T + 6 * MONTH).unwrap();
    let l = m.ledger(CA).unwrap();
    assert_eq!(l.active_ring, 0);
    assert_eq!(l.active_deposit_ring, 0);
    assert!(l.deposit_items.is_empty());
    assert_eq!(l.unlocking.len(), 2);
    assert_eq!(m.ring_pool, 0);
    pool_sums_hold(&m);
}

#[test]
fn unbond_kton() {
    let mut m = module();
    m.bond(Origin::Signed(A), CA, StakingBalance::Kton(50), RewardDestination::Stash, 0, T, 50)
        .unwrap();
    let actions = m.unbond(Origin::Signed(CA), StakingBalance::Kton(80), T).unwrap();
    assert_eq!(actions, vec![Action::SetKtonLock { who: A, amount: 50 }]);
    let l = m.ledger(CA).unwrap();
    assert_eq!(l.active_kton, 0);
    assert_eq!(l.unlocking, vec![UnlockChunk { value: StakingBalance::Kton(50), era: 3 }]);
    assert_eq!(m.kton_pool, 0);
    // Nothing is left to unbond: nothing changes and nothing is asked.
    let before = m.clone();
    assert!(m.unbond(Origin::Signed(CA), StakingBalance::Kton(1), T).unwrap().is_empty());
    assert_eq!(m, before);
}

#[test]
fn unbond_is_refused() {
    let mut m = module();
    assert_eq!(m.unbond(Origin::Root, StakingBalance::Ring(1), T), Err(Error::BadOrigin));
    assert_eq!(m.unbond(Origin::Signed(CA), StakingBalance::Ring(1), T), Err(Error::NotController));
    m.bond(Origin::Signed(A), CA, StakingBalance::Ring(1000), RewardDestination::Stash, 0, T, 5000)
        .unwrap();
    for _ in 0..32 {
        m.unbond(Origin::Signed(CA), StakingBalance::Ring(1), T).unwrap();
    }
    assert_eq!(m.ledger(CA).unwrap().unlocking.len(), 32);
    let before = m.clone();
    assert_eq!(m.unbond(Origin::Signed(CA), StakingBalance::Ring(1), T), Err(Error::NoMoreChunks));
    assert_eq!(m, before);
}

#[test]
fn round_trip_restores_the_state() {
    let mut m = module();
    m.bond(Origin::Signed(9), 109, StakingBalance::Ring(77), RewardDestination::Stash, 0, T, 77)
        .unwrap();
    let before = m.clone();
    m.bond(Origin::Signed(A), CA, StakingBalance::Ring(1000), RewardDestination::Stash, 0, T, 5000)
        .unwrap();
    m.unbond(Origin::Signed(CA), StakingBalance::Ring(1000), T).unwrap();
    m.current_era += m.bonding_duration;
    let actions = m.withdraw_unbonded(Origin::Signed(CA)).unwrap();
    assert_eq!(
        actions,
        vec![Action::RemoveRingLock { who: A }, Action::RemoveKtonLock { who: A }]
    );
    assert_eq!(m.bonded(A), None);
    assert!(m.ledger(CA).is_none());
    assert_eq!(m.bonded, before.bonded);
    assert_eq!(m.ledger, before.ledger);
    assert_eq!(m.payee, before.payee);
    assert_eq!(m.ring_pool, before.ring_pool);
    pool_sums_hold(&m);
}

#[test]
fn withdraw_both_currencies() {
    let mut m = module();
    m.bond(Origin::Signed(A), CA, StakingBalance::Ring(100), RewardDestination::Stash, 0, T, 100)
        .unwrap();
    m.bond_extra(Origin::Signed(A), StakingBalance::Kton(40), 0, T, 40).unwrap();
    m.unbond(Origin::Signed(CA), StakingBalance::Ring(10), T).unwrap();
    m.unbond(Origin::Signed(CA), StakingBalance::Kton(4), T).unwrap();
    m.current_era = 3;
    let actions = m.withdraw_unbonded(Origin::Signed(CA)).unwrap();
    assert_eq!(
        actions,
        vec![
            Action::SetRingLock { who: A, amount: 90 },
            Action::SetKtonLock { who: A, amount: 36 },
        ]
    );
    assert_eq!(m.withdraw_unbonded(Origin::Root), Err(Error::BadOrigin));
    assert_eq!(m.withdraw_unbonded(Origin::Signed(A)), Err(Error::NotController));
    pool_sums_hold(&m);
}

#[test]
fn bond_extra_adds_what_the_stash_has_beyond_the_ledger() {
    let mut m = module();
    m.bond(Origin::Signed(A), CA, StakingBalance::Ring(1000), RewardDestination::Stash, 0, T, 1000)
        .unwrap();
    // The stash has 1500 now: 500 can be added.
    let actions = m.bond_extra(Origin::Signed(A), StakingBalance::Ring(800), 3, T, 1500).unwrap();
    assert_eq!(
        actions,
        vec![
            Action::MintKton { who: A, amount: 1 },
            Action::SetRingLock { who: A, amount: 1500 },
        ]
    );
    let l = m.ledger(CA).unwrap();
    assert_eq!(l.total_ring, 1500);
    assert_eq!(l.active_deposit_ring, 500);
    assert_eq!(m.ring_pool, 1500);
    // The stash has less than the ledger holds: nothing happens.
    let before = m.clone();
    assert!(m.bond_extra(Origin::Signed(A), StakingBalance::Ring(1), 0, T, 1499).unwrap().is_empty());
    assert_eq!(m, before);
    assert_eq!(m.bond_extra(Origin::Root, StakingBalance::Ring(1), 0, T, 0), Err(Error::BadOrigin));
    assert_eq!(
        m.bond_extra(Origin::Signed(A), StakingBalance::Ring(1), 37, T, 0),
        Err(Error::MonthsTooLong)
    );
    assert_eq!(
        m.bond_extra(Origin::Signed(CA), StakingBalance::Ring(1), 0, T, 0),
        Err(Error::NotStash)
    );
    pool_sums_hold(&m);
}

#[test]
fn deposit_extra_turns_normal_ring_into_a_deposit() {
    let mut m = module();
    m.bond(Origin::Signed(A), CA, StakingBalance::Ring(1000), RewardDestination::Stash, 3, T, 5000)
        .unwrap();
    m.bond_extra(Origin::Signed(A), StakingBalance::Ring(600), 0, T, 5000).unwrap();
    // At T + 3 months the first deposit is mature and is cleared first.
    let now = T + 3 * MONTH;
    let actions = m.deposit_extra(Origin::Signed(CA), 2000, 36, now).unwrap();
    assert_eq!(actions, vec![Action::MintKton { who: A, amount: 48 }]);
    let l = m.ledger(CA).unwrap();
    assert_eq!(l.active_deposit_ring, 1600);
    assert_eq!(
        l.deposit_items,
        vec![TimeDepositItem { value: 1600, start_time: now, expire_time: now + 36 * MONTH }]
    );
    assert_eq!(l.active_ring, 1600);
    // A promise under three months makes no deposit.
    assert!(m.deposit_extra(Origin::Signed(CA), 10, 2, now).unwrap().is_empty());
    assert_eq!(m.ledger(CA).unwrap().deposit_items.len(), 1);
    assert_eq!(m.deposit_extra(Origin::Root, 1, 3, now), Err(Error::BadOrigin));
    assert_eq!(m.deposit_extra(Origin::Signed(CA), 1, 37, now), Err(Error::MonthsTooLong));
    assert_eq!(m.deposit_extra(Origin::Signed(A), 1, 3, now), Err(Error::NotController));
    pool_sums_hold(&m);
}

#[test]
fn claiming_mature_deposits_twice_is_claiming_once() {
    let mut m = module();
    m.bond(Origin::Signed(A), CA, StakingBalance::Ring(1000), RewardDestination::Stash, 3, T, 5000)
        .unwrap();
    m.bond_extra(Origin::Signed(A), StakingBalance::Ring(500), 6, T, 5000).unwrap();
    // Just before expiry nothing is mature.
    let before = m.clone();
    m.claim_mature_deposits(Origin::Signed(CA), T + 3 * MONTH - 1).unwrap();
    assert_eq!(m, before);
    // At expiry the first deposit goes.
    m.claim_mature_deposits(Origin::Signed(CA), T + 3 * MONTH).unwrap();
    let once = m.clone();
    let l = m.ledger(CA).unwrap();
    assert_eq!(l.active_deposit_ring, 500);
    assert_eq!(
        l.deposit_items,
        vec![TimeDepositItem { value: 500, start_time: T, expire_time: T + 6 * MONTH }]
    );
    assert_eq!(l.active_ring, 1500);
    m.claim_mature_deposits(Origin::Signed(CA), T + 3 * MONTH).unwrap();
    assert_eq!(m, once);
    // An account without a ledger changes nothing; the root origin is refused.
    m.claim_mature_deposits(Origin::Signed(55), T + 3 * MONTH).unwrap();
    assert_eq!(m, once);
    assert_eq!(m.claim_mature_deposits(Origin::Root, T), Err(Error::BadOrigin));
    pool_sums_hold(&m);
}

#[test]
fn killing_a_stash_takes_its_stake_out_of_the_pools() {
    let mut m = module();
    m.bond(Origin::Signed(A), CA, StakingBalance::Ring(1000), RewardDestination::Stash, 0, T, 5000)
        .unwrap();
    m.bond(Origin::Signed(2), 102, StakingBalance::Kton(30), RewardDestination::Stash, 0, T, 30)
        .unwrap();
    m.bond_extra(Origin::Signed(A), StakingBalance::Kton(5), 0, T, 5).unwrap();
    m.validate(Origin::Signed(CA), vec![1, 2], 10, 3).unwrap();
    m.on_free_balance_zero(A);
    assert_eq!(m.bonded(A), None);
    assert!(m.ledger(CA).is_none());
    assert!(!m.validators.keys.contains(&A));
    assert_eq!(m.ring_pool, 0);
    assert_eq!(m.kton_pool, 30);
    pool_sums_hold(&m);
    // A stash that is not bonded changes nothing.
    let before = m.clone();
    m.kill_stash(77);
    assert_eq!(m, before);
}
