use staking::deposits::{fine, months_left};
use staking::ledger_slash::{sort_deposits, sweep_deposits};
use staking::{half_power, kton_return, EraPoints, StakingLedgers, TimeDepositItem};

const MONTH: u64 = 2_592_000;

#[test]
fn kton_return_values() {
    assert_eq!(kton_return(1000, 12), 10);
    assert_eq!(kton_return(1000, 6), 5);
    assert_eq!(kton_return(1199, 1), 0);
    assert_eq!(kton_return(1200, 1), 1);
    assert_eq!(kton_return(1600, 36), 48);
    assert_eq!(kton_return(1_000_000, 0), 0);
    assert_eq!(kton_return(0, 36), 0);
}

#[test]
fn kton_return_of_the_largest_deposit() {
    // 36 / 1200 of the largest balance fits; 1201 / 1200 of it does not.
    assert_eq!(kton_return(u128::MAX, 36), u128::MAX / 1200 * 36 + (u128::MAX % 1200) * 36 / 1200);
    assert_eq!(kton_return(u128::MAX, 1201), u128::MAX);
    assert_eq!(kton_return(u128::MAX, u32::MAX), u128::MAX);
}

#[test]
fn kton_return_grows_with_both_arguments() {
    let values = [0u128, 1, 1199, 1200, 5000, 1 << 100, u128::MAX];
    let months = [0u32, 1, 3, 12, 36, 1000, u32::MAX];
    for (i, v1) in values.iter().enumerate() {
        for v2 in values[i..].iter() {
            for (j, m1) in months.iter().enumerate() {
                for m2 in months[j..].iter() {
                    assert!(kton_return(*v1, *m1) <= kton_return(*v2, *m2));
                }
            }
        }
    }
}

#[test]
fn months_left_is_at_least_one() {
    assert_eq!(months_left(10 + 6 * MONTH, 10), 6);
    assert_eq!(months_left(10 + 6 * MONTH - 1, 10), 5);
    assert_eq!(months_left(11, 10), 1);
    assert_eq!(months_left(10 + MONTH, 10), 1);
    assert_eq!(months_left(4000 * MONTH, 0), 4000);
    // No more months are counted than 32 bits hold.
    assert_eq!(months_left(u64::MAX, 0), u32::MAX);
}

#[test]
fn fine_is_three_times_the_return() {
    assert_eq!(fine(1000, 6), 15);
    assert_eq!(fine(1000, 1), 0);
    assert_eq!(fine(u128::MAX, 1000), u128::MAX);
}

#[test]
fn half_power_values() {
    assert_eq!(half_power(2, 10_000_000), 100);
    assert_eq!(half_power(1, 10_000_000), 50);
    assert_eq!(half_power(1, 3), 166_666_667);
    assert_eq!(half_power(7, 7), 500_000_000);
    assert_eq!(half_power(0, 100), 0);
    // An empty pool counts as a pool of one.
    assert_eq!(half_power(0, 0), 0);
    assert_eq!(half_power(5, 0), 500_000_000);
    assert_eq!(half_power(u128::MAX, u128::MAX), 500_000_000);
    assert_eq!(half_power(u128::MAX / 2, u128::MAX), 250_000_000);
}

fn item(value: u128, expire_time: u64) -> TimeDepositItem {
    TimeDepositItem { value, start_time: 0, expire_time }
}

#[test]
fn deposits_are_ordered_from_the_farthest_expiry() {
    let items = vec![item(1, 3 * MONTH), item(2, 12 * MONTH), item(3, 3 * MONTH), item(4, 6 * MONTH)];
    assert_eq!(
        sort_deposits(&items),
        vec![item(2, 12 * MONTH), item(4, 6 * MONTH), item(1, 3 * MONTH), item(3, 3 * MONTH)]
    );
    assert_eq!(sort_deposits(&Vec::new()), Vec::new());
}

#[test]
fn sweeping_takes_from_the_front() {
    let items = vec![item(5, 3), item(0, 2), item(7, 1)];
    assert_eq!(sweep_deposits(&items, 0), items);
    assert_eq!(sweep_deposits(&items, 4), vec![item(1, 3), item(0, 2), item(7, 1)]);
    assert_eq!(sweep_deposits(&items, 5), vec![item(0, 2), item(7, 1)]);
    assert_eq!(sweep_deposits(&items, 6), vec![item(6, 1)]);
    assert_eq!(sweep_deposits(&items, 12), Vec::new());
    assert_eq!(sweep_deposits(&items, 100), Vec::new());
}

fn ledger() -> StakingLedgers {
    let mut l = StakingLedgers::new(1);
    l.bond_ring(30, 0, 0);
    l.bond_ring(30, 3, 0);
    l.bond_ring(40, 12, 0);
    l.bond_kton(9);
    l.unbond(staking::StakingBalance::Ring(10), 5);
    l.unbond(staking::StakingBalance::Kton(3), 5);
    l
}

#[test]
fn slashing_nothing_changes_nothing() {
    let mut l = ledger();
    let before = l.clone();
    let (actions, taken) = l.slash(0);
    assert_eq!(l, before);
    assert!(actions.is_empty());
    assert_eq!(taken, 0);
}

#[test]
fn slashing_all_that_is_active_leaves_what_is_unlocking() {
    // 90 Ring and 6 Kton are active; 10 Ring and 3 Kton are unlocking.
    for amount in [96u128, 97, 1000, u128::MAX] {
        let mut l = ledger();
        let unlocking = l.unlocking.clone();
        let (actions, taken) = l.slash(amount);
        assert_eq!(taken, 96);
        assert_eq!(l.active_ring, 0);
        assert_eq!(l.active_deposit_ring, 0);
        assert_eq!(l.active_kton, 0);
        assert!(l.deposit_items.is_empty());
        assert_eq!(l.unlocking, unlocking);
        assert_eq!(l.total_ring, 10);
        assert_eq!(l.total_kton, 3);
        assert_eq!(
            actions,
            vec![
                staking::Action::SetRingLock { who: 1, amount: 10 },
                staking::Action::SlashRing { who: 1, amount: 90 },
                staking::Action::SetKtonLock { who: 1, amount: 3 },
                staking::Action::SlashKton { who: 1, amount: 6 },
            ]
        );
    }
}

#[test]
fn slashing_takes_normal_ring_first_then_the_farthest_deposit() {
    let mut l = ledger();
    // Of 50, 20 are normal Ring and 30 come from the deposit that expires
    // last. The Ring covers the amount: no Kton is taken.
    let (actions, taken) = l.slash(50);
    assert_eq!(taken, 50);
    assert_eq!(l.active_ring, 40);
    assert_eq!(l.active_deposit_ring, 40);
    assert_eq!(l.total_ring, 50);
    assert_eq!(
        l.deposit_items,
        vec![
            TimeDepositItem { value: 10, start_time: 0, expire_time: 12 * MONTH },
            TimeDepositItem { value: 30, start_time: 0, expire_time: 3 * MONTH },
        ]
    );
    assert_eq!((l.active_kton, l.total_kton), (6, 9));
    assert_eq!(
        actions,
        vec![
            staking::Action::SetRingLock { who: 1, amount: 50 },
            staking::Action::SlashRing { who: 1, amount: 50 },
        ]
    );
}

#[test]
fn slashing_takes_kton_for_what_the_ring_does_not_cover() {
    let mut l = ledger();
    // 90 Ring are active: of 94, four are taken from the six active Kton.
    let (actions, taken) = l.slash(94);
    assert_eq!(taken, 94);
    assert_eq!((l.active_ring, l.total_ring), (0, 10));
    assert_eq!((l.active_kton, l.total_kton), (2, 5));
    assert_eq!(
        actions,
        vec![
            staking::Action::SetRingLock { who: 1, amount: 10 },
            staking::Action::SlashRing { who: 1, amount: 90 },
            staking::Action::SetKtonLock { who: 1, amount: 5 },
            staking::Action::SlashKton { who: 1, amount: 4 },
        ]
    );
    // A ledger without active Ring pays in Kton alone.
    let mut k = StakingLedgers::new(2);
    k.bond_kton(10);
    let (actions, taken) = k.slash(3);
    assert_eq!(taken, 3);
    assert_eq!((k.active_kton, k.total_kton), (7, 7));
    assert_eq!(
        actions,
        vec![
            staking::Action::SetKtonLock { who: 2, amount: 7 },
            staking::Action::SlashKton { who: 2, amount: 3 },
        ]
    );
}

#[test]
fn a_deposit_of_nothing_that_the_slash_does_not_reach_stays() {
    let mut l = StakingLedgers::new(1);
    l.bond_ring(0, 3, 0);
    l.bond_ring(5, 12, 0);
    // The five come from the deposit that expires last; the slash is met
    // before it reaches the other.
    l.slash(5);
    assert_eq!(l.active_ring, 0);
    assert_eq!(l.active_deposit_ring, 0);
    assert_eq!(
        l.deposit_items,
        vec![TimeDepositItem { value: 0, start_time: 0, expire_time: 3 * MONTH }]
    );
}

#[test]
fn era_points_grow_by_index() {
    let mut p = EraPoints::new();
    p.add_points_to_index(2, 20);
    assert_eq!(p.total, 20);
    assert_eq!(p.individual, vec![0, 0, 20]);
    p.add_points_to_index(0, 1);
    p.add_points_to_index(2, 2);
    assert_eq!(p.total, 23);
    assert_eq!(p.individual, vec![1, 0, 22]);
    // Points that would take the total over the largest number are dropped.
    p.add_points_to_index(5, u32::MAX - 22);
    assert_eq!(p.total, 23);
    assert_eq!(p.individual, vec![1, 0, 22]);
}
