//! Fixed-point fractions: parts per billion and parts per quintillion.
//!
//! A fraction is held as its number of parts. The arithmetic on fractions is
//! that of `sp_arithmetic`, reached through the functions of this file whose
//! contracts are not proved here: each one states what the source of
//! `sp_arithmetic` computes.

use sp_arithmetic::helpers_128bit::multiply_by_rational_with_rounding;
use sp_arithmetic::{Perbill, Perquintill, Rounding};
use vstd::prelude::*;

verus! {

/// The number of parts that make one whole in a per-billion fraction.
pub const BILLION: u32 = 1_000_000_000;

/// The number of parts that make one whole in a per-quintillion fraction.
pub const QUINTILLION: u64 = 1_000_000_000_000_000_000;

/// `x` times `parts / accuracy`, rounded to the nearest whole number, down when
/// the two nearest are equally far.
pub open spec fn spec_mul_nearest(parts: int, x: int, accuracy: int) -> int {
    let low = (x % accuracy) * parts;
    (x / accuracy) * parts + low / accuracy + if low % accuracy > accuracy / 2 {
        1int
    } else {
        0int
    }
}

/// The fraction `p / q` in parts of `accuracy`, rounded down; one whole where
/// `q` is zero or `p` exceeds `q`.
pub open spec fn spec_ratio(p: int, q: int, accuracy: int) -> int {
    if q == 0 || p > q {
        accuracy
    } else {
        p * accuracy / q
    }
}

/// The smaller of two numbers.
pub open spec fn spec_min(a: int, b: int) -> int {
    if a <= b {
        a
    } else {
        b
    }
}

/// The product of a per-billion fraction and a balance.
pub open spec fn spec_perbill_mul(parts: u32, x: u128) -> int {
    spec_mul_nearest(spec_min(parts as int, BILLION as int), x as int, BILLION as int)
}

/// The product of a per-quintillion fraction and a balance.
pub open spec fn spec_perquintill_mul(parts: u64, x: u128) -> int {
    spec_mul_nearest(spec_min(parts as int, QUINTILLION as int), x as int, QUINTILLION as int)
}

/// `a * b / c` rounded down, where it is defined and fits 128 bits.
pub open spec fn spec_mul_div(a: u128, b: u128, c: u128) -> Option<u128> {
    if c == 0 || (a as int) * (b as int) / (c as int) > u128::MAX as int {
        None
    } else {
        Some(((a as int) * (b as int) / (c as int)) as u128)
    }
}

/// A fraction of a number is at most the number.
pub proof fn lemma_mul_nearest_bounded(parts: int, x: int, accuracy: int)
    requires
        0 <= parts <= accuracy,
        0 <= x,
        2 <= accuracy,
    ensures
        0 <= spec_mul_nearest(parts, x, accuracy) <= x,
        parts == 0 ==> spec_mul_nearest(parts, x, accuracy) == 0,
        parts == accuracy ==> spec_mul_nearest(parts, x, accuracy) == x,
        x == 0 ==> spec_mul_nearest(parts, x, accuracy) == 0,
{
    let q = x / accuracy;
    let r = x % accuracy;
    let low = r * parts;
    assert(x == q * accuracy + r && 0 <= r < accuracy && 0 <= q) by (nonlinear_arith)
        requires
            q == x / accuracy,
            r == x % accuracy,
            0 <= x,
            2 <= accuracy,
    ;
    assert(0 <= q * parts <= q * accuracy) by (nonlinear_arith)
        requires
            0 <= q,
            0 <= parts <= accuracy,
    ;
    assert(0 <= low <= r * accuracy) by (nonlinear_arith)
        requires
            low == r * parts,
            0 <= r,
            0 <= parts <= accuracy,
    ;
    assert(0 <= low / accuracy <= r && (low / accuracy < r || low % accuracy == 0)) by (nonlinear_arith)
        requires
            0 <= low <= r * accuracy,
            2 <= accuracy,
    ;
    assert(!(low % accuracy > accuracy / 2) || low / accuracy < r);
    if parts == 0 {
        assert(q * parts == 0) by (nonlinear_arith)
            requires
                parts == 0,
        ;
        assert(low == 0) by (nonlinear_arith)
            requires
                low == r * parts,
                parts == 0,
        ;
    }
    if parts == accuracy {
        assert(low / accuracy == r && low % accuracy == 0) by (nonlinear_arith)
            requires
                low == r * accuracy,
                2 <= accuracy,
                0 <= r,
        ;
    }
    if x == 0 {
        assert(q * parts == 0) by (nonlinear_arith)
            requires
                q == 0,
        ;
        assert(low == 0) by (nonlinear_arith)
            requires
                low == r * parts,
                r == 0,
        ;
    }
}

/// A ratio is at most one whole.
pub proof fn lemma_ratio_bounded(p: int, q: int, accuracy: int)
    requires
        0 <= p,
        0 <= q,
        0 < accuracy,
    ensures
        0 <= spec_ratio(p, q, accuracy) <= accuracy,
        p == 0 && q != 0 ==> spec_ratio(p, q, accuracy) == 0,
{
    if !(q == 0 || p > q) {
        assert(0 <= p * accuracy / q <= accuracy) by (nonlinear_arith)
            requires
                0 <= p <= q,
                0 < q,
                0 < accuracy,
        ;
        if p == 0 {
            assert(p * accuracy / q == 0) by (nonlinear_arith)
                requires
                    p == 0,
                    0 < q,
            ;
        }
    }
}

/// Calls `Perbill::from_parts(parts) * x` of `sp_arithmetic`. `from_parts`
/// takes at most one billion parts; the product is the whole billions of `x`
/// times the parts, plus the rest of `x` times the parts over one billion,
/// rounded to the nearest and down on a tie.
#[verifier::external_body]
pub(crate) fn perbill_mul(parts: u32, x: u128) -> (r: u128)
    ensures
        r == spec_perbill_mul(parts, x),
{
    Perbill::from_parts(parts) * x
}

/// Calls `Perbill::from_percent(x)` of `sp_arithmetic` and takes the result's
/// parts: `x` hundredths of one billion, with `x` taken as 100 where it is
/// larger.
#[verifier::external_body]
pub(crate) fn perbill_from_percent(x: u32) -> (r: u32)
    ensures
        r == spec_min(x as int, 100) * 10_000_000,
{
    Perbill::from_percent(x).deconstruct()
}

/// Calls `Perbill::from_rational(p, q)` of `sp_arithmetic` and takes the
/// result's parts: `p / q` of one billion rounded down, or one billion where
/// `q` is zero or `p` exceeds `q`.
#[verifier::external_body]
pub(crate) fn perbill_from_rational(p: u128, q: u128) -> (r: u32)
    ensures
        r == spec_ratio(p as int, q as int, BILLION as int),
{
    Perbill::from_rational(p, q).deconstruct()
}

/// Calls `Perquintill::from_parts(parts) * x` of `sp_arithmetic`: as for the
/// per-billion product, with one quintillion for one billion.
#[verifier::external_body]
pub(crate) fn perquintill_mul(parts: u64, x: u128) -> (r: u128)
    ensures
        r == spec_perquintill_mul(parts, x),
{
    Perquintill::from_parts(parts) * x
}

/// Calls `Perquintill::from_rational(p, q)` of `sp_arithmetic` and takes the
/// result's parts: `p / q` of one quintillion rounded down, or one quintillion
/// where `q` is zero or `p` exceeds `q`.
#[verifier::external_body]
pub(crate) fn perquintill_from_rational(p: u128, q: u128) -> (r: u64)
    ensures
        r == spec_ratio(p as int, q as int, QUINTILLION as int),
{
    Perquintill::from_rational(p, q).deconstruct()
}

/// Calls `multiply_by_rational_with_rounding(a, b, c, Rounding::Down)` of
/// `sp_arithmetic`: `a * b / c` computed in 256 bits and rounded down, `None`
/// where `c` is zero or the quotient does not fit 128 bits.
#[verifier::external_body]
pub(crate) fn mul_div(a: u128, b: u128, c: u128) -> (r: Option<u128>)
    ensures
        r == spec_mul_div(a, b, c),
{
    multiply_by_rational_with_rounding(a, b, c, Rounding::Down)
}

} // verus!
