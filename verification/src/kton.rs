//! The Kton return: how much Kton a time-locked Ring deposit earns.

use vstd::prelude::*;

verus! {

/// A deposit of this many Ring for one month earns one Kton.
pub const RING_MONTHS_PER_KTON: u128 = 1200;

/// The Kton earned by `value` Ring locked for `months` months:
/// `value * months / 1200` rounded down, and the largest balance where that
/// does not fit.
pub open spec fn spec_kton_return(value: u128, months: u32) -> u128 {
    let exact = (value as int) * (months as int) / (RING_MONTHS_PER_KTON as int);
    if exact > u128::MAX as int {
        u128::MAX
    } else {
        exact as u128
    }
}

/// Computes the Kton earned by `value` Ring locked for `months` months.
pub fn kton_return(value: u128, months: u32) -> (r: u128)
    ensures
        r == spec_kton_return(value, months),
{
    let whole: u128 = value / RING_MONTHS_PER_KTON;
    let rest: u128 = value % RING_MONTHS_PER_KTON;
    let m: u128 = months as u128;
    assert(rest * m <= 1200 * 0xffff_ffff) by (nonlinear_arith)
        requires
            rest < 1200,
            m <= 0xffff_ffff,
    ;
    let low: u128 = rest * m / RING_MONTHS_PER_KTON;
    proof {
        let v = value as int;
        let mi = months as int;
        let d = RING_MONTHS_PER_KTON as int;
        assert(v == (v / d) * d + v % d);
        assert(v * mi == (v / d) * mi * d + (v % d) * mi) by (nonlinear_arith)
            requires
                v == (v / d) * d + v % d,
        ;
        assert(((v / d) * mi * d + (v % d) * mi) / d == (v / d) * mi + ((v % d) * mi) / d)
            by (nonlinear_arith)
            requires
                d == 1200,
        ;
    }
    match whole.checked_mul(m) {
        Some(high) => high.saturating_add(low),
        None => {
            proof {
                assert(0 <= (rest as int) * (m as int)) by (nonlinear_arith);
            }
            u128::MAX
        },
    }
}

/// The Kton return never falls when the deposit or the months grow.
pub proof fn lemma_kton_return_monotonic(v1: u128, m1: u32, v2: u128, m2: u32)
    requires
        v1 <= v2,
        m1 <= m2,
    ensures
        spec_kton_return(v1, m1) <= spec_kton_return(v2, m2),
{
    let d = RING_MONTHS_PER_KTON as int;
    assert((v1 as int) * (m1 as int) <= (v2 as int) * (m2 as int)) by (nonlinear_arith)
        requires
            0 <= v1 <= v2,
            0 <= m1 <= m2,
    ;
    assert((v1 as int) * (m1 as int) / d <= (v2 as int) * (m2 as int) / d) by (nonlinear_arith)
        requires
            (v1 as int) * (m1 as int) <= (v2 as int) * (m2 as int),
            d == 1200,
    ;
    assert(0 <= (v1 as int) * (m1 as int) / d) by (nonlinear_arith)
        requires
            0 <= (v1 as int) * (m1 as int),
            d == 1200,
    ;
    assert(0 <= (v1 as int) * (m1 as int)) by (nonlinear_arith);
}

/// A promise of no months earns nothing.
pub proof fn lemma_kton_return_zero_months(value: u128)
    ensures
        spec_kton_return(value, 0) == 0,
{
    assert((value as int) * 0 / (RING_MONTHS_PER_KTON as int) == 0) by (nonlinear_arith);
}

} // verus!
