use staking::{
    half_power, Action, Exposure, IndividualExposure, Module, Origin, RewardDestination,
    StakingBalance,
};

const BILLION: u128 = 1_000_000_000;
const QUINTILLION: u128 = 1_000_000_000_000_000_000;

/// A fixed sequence of numbers that looks random.
struct Numbers(u64);

impl Numbers {
    fn next(&mut self) -> u64 {
        self.0 = self.0.wrapping_mul(6364136223846793005).wrapping_add(1442695040888963407);
        self.0 ^ (self.0 >> 29)
    }

    /// A number of up to `bits` bits, often a small or a large one.
    fn sized(&mut self, bits: u32) -> u128 {
        let wide = ((self.next() as u128) << 64) | self.next() as u128;
        let keep = (self.next() % (bits as u64 + 1)) as u32;
        if keep == 0 {
            0
        } else {
            wide >> (128 - keep)
        }
    }
}

fn times_nearest(parts: u128, x: u128, accuracy: u128) -> u128 {
    let low = (x % accuracy) * parts;
    (x / accuracy) * parts + low / accuracy + if low % accuracy > accuracy / 2 { 1 } else { 0 }
}

fn exposing(own: u128) -> Exposure {
    Exposure { total: own, own, others: Vec::new() }
}

#[test]
fn a_slash_takes_the_fraction_rounded_to_the_nearest() {
    let mut n = Numbers(1);
    let edges = [0u128, 1, BILLION - 1, BILLION, BILLION + 1, u128::MAX - 1, u128::MAX];
    let fractions = [0u32, 1, 499_999_999, 500_000_000, 500_000_001, 999_999_999, 1_000_000_000];
    let mut cases: Vec<(u32, u128)> = Vec::new();
    for f in fractions {
        for e in edges {
            cases.push((f, e));
        }
    }
    for _ in 0..3000 {
        cases.push(((n.next() % 1_000_000_001) as u32, n.sized(128)));
    }
    // A ledger that can pay any slash.
    let mut rich = Module::with_constants(Default::default(), 1, 1, 1).unwrap();
    rich.bond(
        Origin::Signed(1),
        101,
        StakingBalance::Ring(u128::MAX),
        RewardDestination::Stash,
        0,
        0,
        u128::MAX,
    )
    .unwrap();
    for (fraction, exposed) in cases {
        let mut m = rich.clone();
        let (actions, entry) = m.slash_validator(1, fraction, &exposing(exposed));
        let expected = times_nearest(fraction as u128, exposed, BILLION);
        assert!(expected <= exposed);
        assert_eq!(m.ledger(101).unwrap().active_ring, u128::MAX - expected);
        assert_eq!(m.ring_pool, u128::MAX - expected);
        assert_eq!((entry.amount, entry.own_slash), (expected, expected));
        if expected == 0 {
            assert!(actions.is_empty());
            assert_eq!(m, rich);
        } else {
            assert_eq!(actions[1], Action::SlashRing { who: 1, amount: expected });
        }
    }
}

#[test]
fn a_fraction_over_one_whole_counts_as_one_whole() {
    let mut m = Module::with_constants(Default::default(), 1, 1, 1).unwrap();
    m.bond(Origin::Signed(1), 101, StakingBalance::Kton(12345), RewardDestination::Stash, 0, 0, 12345)
        .unwrap();
    for fraction in [1_000_000_001u32, 2_000_000_000, u32::MAX] {
        let mut slashed = m.clone();
        let (_, entry) = slashed.slash_validator(1, fraction, &exposing(345));
        assert_eq!(entry.amount, 345);
        assert_eq!(slashed.ledger(101).unwrap().active_kton, 12000);
    }
}

#[test]
fn half_power_is_the_share_of_the_pool_times_half_the_power_count() {
    let mut n = Numbers(2);
    for _ in 0..3000 {
        // An active balance of up to 68 bits times one quintillion fits 128
        // bits.
        let pool = n.sized(128);
        let active = n.sized(68);
        let divisor = pool.max(1);
        let share = if active > divisor { QUINTILLION } else { active * QUINTILLION / divisor };
        let expected = times_nearest(share, 500_000_000, QUINTILLION);
        assert_eq!(half_power(active, pool), expected, "{} of {}", active, pool);
    }
    // Balances of any size: the whole pool, and halves and thirds of it.
    for _ in 0..300 {
        let pool = n.sized(128).max(3);
        assert_eq!(half_power(pool, pool), 500_000_000);
        assert_eq!(half_power(pool / 2 * 2, pool / 2 * 4), 250_000_000);
        assert_eq!(half_power(pool / 3, pool / 3 * 3), 166_666_667);
        assert_eq!(half_power(pool, pool - 1), 500_000_000);
    }
}

#[test]
fn a_reward_is_cut_by_the_part_of_the_exposure() {
    let mut n = Numbers(3);
    let mut m = Module::with_constants(Default::default(), 1, 1, 1).unwrap();
    m.bond(Origin::Signed(1), 101, StakingBalance::Ring(1), RewardDestination::Stash, 0, 0, 1)
        .unwrap();
    for _ in 0..2000 {
        // A value of up to 98 bits times one billion fits 128 bits.
        let total = n.sized(98);
        let value = n.sized(98);
        let reward = n.sized(128);
        m.stakers.insert(
            1,
            Exposure {
                total,
                own: 0,
                others: vec![IndividualExposure { who: 7, value }],
            },
        );
        let divisor = total.max(1);
        let per = if value > divisor { BILLION } else { value * BILLION / divisor };
        let expected = times_nearest(per, reward, BILLION);
        let actions = m.reward_validator(1, reward);
        if reward == 0 {
            assert_eq!(actions, vec![Action::PayRing { who: 1, amount: 0 }]);
        } else {
            assert_eq!(actions[0], Action::PayRing { who: 7, amount: expected });
            assert_eq!(actions[1], Action::PayRing { who: 1, amount: 0 });
        }
    }
}

#[test]
fn validators_take_hundredths_of_the_reward() {
    let mut m = Module::with_constants(Default::default(), 1, 1, 1).unwrap();
    m.bond(Origin::Signed(1), 101, StakingBalance::Ring(1), RewardDestination::Stash, 0, 0, 1)
        .unwrap();
    for ratio in [0u32, 1, 33, 99, 100, 101, 1000, u32::MAX] {
        m.validate(Origin::Signed(101), Vec::new(), ratio, 0).unwrap();
        assert_eq!(m.validators(1).validator_payment_ratio, ratio.min(100) * 10_000_000);
    }
}
