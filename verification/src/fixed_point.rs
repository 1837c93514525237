//! Fixed-point building blocks of the exponential retargeting step.
//!
//! An exponent is held as an integer scaled by `RADIX = 2^RBITS`. Raising two
//! to such an exponent splits into a whole power of two, applied as a shift,
//! and a factor between one and two, approximated by a cubic polynomial.

use vstd::arithmetic::div_mod::{lemma_div_is_ordered, lemma_fundamental_div_mod, lemma_mod_bound};
use vstd::prelude::*;

verus! {

/// The number of fractional bits in a fixed-point exponent.
pub const RBITS: u32 = 16;

/// The fixed-point scaling factor, `2^RBITS`.
pub const RADIX: u128 = 65_536;

/// The coefficient of the linear term of the polynomial.
pub const LINEAR_COEFFICIENT: u128 = 195_766_423_245_049;

/// The coefficient of the quadratic term of the polynomial.
pub const QUADRATIC_COEFFICIENT: u128 = 971_821_376;

/// The coefficient of the cubic term of the polynomial.
pub const CUBIC_COEFFICIENT: u128 = 5_127;

/// Half of the polynomial's divisor, added so that the division rounds to nearest.
pub const ROUNDING_TERM: u128 = 140_737_488_355_328;

/// The polynomial's divisor, `2^(3 * RBITS)`.
pub const POLYNOMIAL_DIVISOR: u128 = 281_474_976_710_656;

/// The cubic polynomial in the fractional part of an exponent, before its
/// division by `2^(3 * RBITS)`.
pub open spec fn polynomial(fractional: int) -> int {
    LINEAR_COEFFICIENT * fractional + QUADRATIC_COEFFICIENT * (fractional * fractional)
        + CUBIC_COEFFICIENT * (fractional * fractional * fractional) + ROUNDING_TERM
}

/// The approximation of `RADIX * 2^(fractional / RADIX)`.
pub open spec fn fractional_multiplier_spec(fractional: int) -> int {
    RADIX + polynomial(fractional) / (POLYNOMIAL_DIVISOR as int)
}

/// The polynomial grows with its argument, and stays below
/// `(RADIX + 1) * 2^(3 * RBITS)` for every fractional part.
pub proof fn lemma_polynomial_bounds(smaller: int, larger: int)
    requires
        0 <= smaller <= larger < RADIX,
    ensures
        ROUNDING_TERM <= polynomial(smaller) <= polynomial(larger),
        polynomial(larger) < (RADIX + 1) * POLYNOMIAL_DIVISOR,
{
    assert(0 <= smaller * smaller <= larger * larger <= 4_294_836_225) by (nonlinear_arith)
        requires
            0 <= smaller <= larger <= 65_535,
    ;
    assert(0 <= smaller * smaller * smaller <= larger * larger * larger <= 281_462_092_005_375)
        by (nonlinear_arith)
        requires
            0 <= smaller <= larger <= 65_535,
    ;
}

/// The multiplier is `RADIX` at a fractional part of zero, grows with the
/// fractional part, and never exceeds `2 * RADIX`.
pub proof fn lemma_fractional_multiplier_bounds(smaller: int, larger: int)
    requires
        0 <= smaller <= larger < RADIX,
    ensures
        fractional_multiplier_spec(0) == RADIX,
        RADIX <= fractional_multiplier_spec(smaller) <= fractional_multiplier_spec(larger) <= 2
            * RADIX,
{
    lemma_polynomial_bounds(smaller, larger);
}

/// Above a fractional part of zero the multiplier lies strictly between
/// `RADIX` and `2 * RADIX`.
pub proof fn lemma_fractional_multiplier_strict_bounds(fractional: int)
    requires
        0 < fractional < RADIX,
    ensures
        RADIX < fractional_multiplier_spec(fractional) < 2 * RADIX,
{
    lemma_polynomial_bounds(1, fractional);
    lemma_polynomial_bounds(fractional, 65_535);
    assert(polynomial(1) == 336_504_883_426_880);
    assert(65_535 * 65_535 == 4_294_836_225int);
    assert(65_535 * 65_535 * 65_535 == 281_462_092_005_375int);
    assert(polynomial(65_535) == 18_446_563_080_438_344_768);
}

/// Approximates `RADIX * 2^(fractional / RADIX)` for a fractional part below `RADIX`.
pub fn fractional_multiplier(fractional: u128) -> (multiplier: u128)
    requires
        fractional < RADIX,
    ensures
        multiplier == fractional_multiplier_spec(fractional as int),
        RADIX <= multiplier <= 2 * RADIX,
{
    proof {
        lemma_polynomial_bounds(fractional as int, fractional as int);
        lemma_fractional_multiplier_bounds(fractional as int, fractional as int);
        assert(0 <= fractional * fractional <= 4_294_836_225) by (nonlinear_arith)
            requires
                0 <= fractional <= 65_535,
        ;
        assert(0 <= fractional * fractional * fractional <= 281_462_092_005_375)
            by (nonlinear_arith)
            requires
                0 <= fractional <= 65_535,
        ;
    }
    let square: u128 = fractional * fractional;
    let cube: u128 = square * fractional;
    let sum: u128 = LINEAR_COEFFICIENT * fractional + QUADRATIC_COEFFICIENT * square
        + CUBIC_COEFFICIENT * cube + ROUNDING_TERM;
    assert(sum >> 48 == sum / 281_474_976_710_656) by (bit_vector);
    RADIX + (sum >> (RBITS * 3))
}

/// The fixed-point exponent of a drift of `drift` seconds where an epoch has
/// `num_blocks_per_epoch` blocks: `RADIX * drift / num_blocks_per_epoch`,
/// rounded toward zero.
pub open spec fn exponent_spec(drift: int, num_blocks_per_epoch: int) -> int {
    let scaled = RADIX * drift;
    if scaled >= 0 {
        scaled / num_blocks_per_epoch
    } else {
        -((-scaled) / num_blocks_per_epoch)
    }
}

/// The whole part of a fixed-point exponent, rounded toward negative infinity.
pub open spec fn integral_part(exponent: int) -> int {
    exponent / (RADIX as int)
}

/// What a fixed-point exponent holds above its whole part, from zero up to `RADIX - 1`.
pub open spec fn fractional_part(exponent: int) -> int {
    exponent % (RADIX as int)
}

/// Computes the fixed-point exponent of a drift, split into its whole part and
/// its fractional part.
pub fn decompose_exponent(drift: i64, num_blocks_per_epoch: u32) -> (parts: (i128, u128))
    requires
        num_blocks_per_epoch > 0,
    ensures
        parts.0 == integral_part(exponent_spec(drift as int, num_blocks_per_epoch as int)),
        parts.1 == fractional_part(exponent_spec(drift as int, num_blocks_per_epoch as int)),
        parts.1 < RADIX,
        parts.0 * RADIX + parts.1 == exponent_spec(drift as int, num_blocks_per_epoch as int),
        -0x8000_0000_0000_0000 <= parts.0 <= 0x8000_0000_0000_0000,
{
    let scaled: i128 = (RADIX as i128) * (drift as i128);
    let exponent: i128 = scaled / (num_blocks_per_epoch as i128);
    proof {
        lemma_truncated_quotient_bounds(scaled as int, num_blocks_per_epoch as int);
    }
    let integral: i128 = exponent >> RBITS;
    assert(exponent >> 16u32 == (exponent as int) / 65_536) by (bit_vector);
    assert(integral << 16u32 == integral * 65_536) by (bit_vector)
        requires
            -0x8000_0000_0000_0000 <= integral <= 0x8000_0000_0000_0000,
    ;
    let fractional: u128 = (exponent - (integral << RBITS)) as u128;
    (integral, fractional)
}

/// A quotient rounded toward zero is no further from zero than its dividend.
pub proof fn lemma_truncated_quotient_bounds(dividend: int, divisor: int)
    requires
        divisor > 0,
    ensures
        dividend >= 0 ==> 0 <= dividend / divisor <= dividend,
        dividend < 0 ==> dividend <= -((-dividend) / divisor) <= 0,
{
    if dividend >= 0 {
        lemma_div_bounds(dividend, divisor);
    } else {
        lemma_div_bounds(-dividend, divisor);
    }
}

/// A quotient of a non-negative dividend by a positive divisor lies between
/// zero and the dividend.
pub proof fn lemma_div_bounds(dividend: int, divisor: int)
    by (nonlinear_arith)
    requires
        dividend >= 0,
        divisor > 0,
    ensures
        0 <= dividend / divisor <= dividend,
{
}

/// The exponent has the sign of the drift, and a larger drift gives an
/// exponent that is no smaller.
pub proof fn lemma_exponent_is_ordered(smaller: int, larger: int, num_blocks_per_epoch: int)
    requires
        num_blocks_per_epoch > 0,
        smaller <= larger,
    ensures
        exponent_spec(smaller, num_blocks_per_epoch) <= exponent_spec(larger, num_blocks_per_epoch),
        exponent_spec(0, num_blocks_per_epoch) == 0,
        smaller >= 0 ==> exponent_spec(smaller, num_blocks_per_epoch) >= 0,
        larger <= 0 ==> exponent_spec(larger, num_blocks_per_epoch) <= 0,
{
    lemma_truncated_quotient_bounds(RADIX * smaller, num_blocks_per_epoch);
    lemma_truncated_quotient_bounds(RADIX * larger, num_blocks_per_epoch);
    lemma_truncated_quotient_bounds(0, num_blocks_per_epoch);
    if smaller >= 0 {
        lemma_div_is_ordered(RADIX * smaller, RADIX * larger, num_blocks_per_epoch);
    } else if larger < 0 {
        lemma_div_is_ordered(-(RADIX * larger), -(RADIX * smaller), num_blocks_per_epoch);
    }
}

/// Of two exponents, the larger has the larger whole part, or the same
/// whole part and a fractional part that is no smaller.
pub proof fn lemma_parts_are_ordered(smaller: int, larger: int)
    requires
        smaller <= larger,
    ensures
        integral_part(smaller) <= integral_part(larger),
        integral_part(smaller) == integral_part(larger) ==> fractional_part(smaller)
            <= fractional_part(larger),
        0 <= fractional_part(smaller) < RADIX,
        0 <= fractional_part(larger) < RADIX,
{
}

/// The exponent is zero exactly where the drift, scaled by `RADIX`, stays
/// within one epoch's number of blocks of zero.
pub proof fn lemma_exponent_is_zero(drift: int, num_blocks_per_epoch: int)
    requires
        num_blocks_per_epoch > 0,
    ensures
        exponent_spec(drift, num_blocks_per_epoch) == 0 <==> -num_blocks_per_epoch < RADIX * drift
            < num_blocks_per_epoch,
{
    let scaled = RADIX * drift;
    let magnitude = if scaled >= 0 {
        scaled
    } else {
        -scaled
    };
    lemma_fundamental_div_mod(magnitude, num_blocks_per_epoch);
    lemma_mod_bound(magnitude, num_blocks_per_epoch);
    assert(magnitude / num_blocks_per_epoch == 0 <==> magnitude < num_blocks_per_epoch)
        by (nonlinear_arith)
        requires
            magnitude >= 0,
            num_blocks_per_epoch > 0,
            magnitude == num_blocks_per_epoch * (magnitude / num_blocks_per_epoch) + magnitude
                % num_blocks_per_epoch,
            0 <= magnitude % num_blocks_per_epoch < num_blocks_per_epoch,
    ;
}

} // verus!
