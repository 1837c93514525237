//! The exponential retargeting step.
//!
//! A value is multiplied by two to the power of the drift, in epochs, between
//! the time a block took and the time it was meant to take. The power is
//! computed in fixed point, with integers only.

use crate::fixed_point::{
    decompose_exponent, exponent_spec, fractional_multiplier, fractional_multiplier_spec,
    fractional_part, integral_part, lemma_exponent_is_ordered,
    lemma_fractional_multiplier_bounds, lemma_fractional_multiplier_strict_bounds,
    lemma_parts_are_ordered, RADIX, RBITS,
};
use crate::shifts::{
    lemma_shift_left_is_shifted, lemma_shift_left_overflows, lemma_shift_right_is_shifted,
    lemma_shifted_by_power, lemma_shifted_double, lemma_shifted_grows_with_shifts,
    lemma_shifted_is_ordered, lemma_shifted_out, shifted,
};
use vstd::arithmetic::div_mod::lemma_div_by_multiple;
use vstd::arithmetic::power2::lemma2_to64;
use vstd::prelude::*;

verus! {

/// The seconds a block took: the difference of the two timestamps, held
/// between one second and the largest 64-bit signed value.
pub open spec fn block_time_elapsed_spec(previous_block_timestamp: int, block_timestamp: int) -> int {
    let elapsed = block_timestamp - previous_block_timestamp;
    if elapsed < 1 {
        1
    } else if elapsed > i64::MAX {
        i64::MAX as int
    } else {
        elapsed
    }
}

/// A value held between one and the largest 64-bit value.
pub open spec fn clamp_target(value: int) -> int {
    if value < 1 {
        1
    } else if value > u64::MAX {
        u64::MAX as int
    } else {
        value
    }
}

/// The target that a candidate gives when it is scaled by two to the power
/// `shifts`: the scaled candidate held between one and the largest 64-bit
/// value, and the largest 64-bit value for every shift of 128 bits or more.
pub open spec fn scaled_target(candidate: int, shifts: int) -> int {
    if shifts >= 128 {
        u64::MAX as int
    } else {
        clamp_target(shifted(candidate, shifts))
    }
}

/// The value that `previous_target` becomes under a fixed-point exponent:
/// close to `previous_target * 2^(exponent / RADIX)`.
pub open spec fn adjusted_target(previous_target: int, exponent: int) -> int {
    let candidate = previous_target * fractional_multiplier_spec(fractional_part(exponent));
    scaled_target(candidate, integral_part(exponent) - RBITS)
}

/// The seconds by which a block missed its anchor time, with the sign turned
/// where the adjustment is inverse.
pub open spec fn signed_drift(
    previous_block_timestamp: int,
    block_timestamp: int,
    anchor_time: int,
    is_inverse: bool,
) -> int {
    let drift = block_time_elapsed_spec(previous_block_timestamp, block_timestamp) - anchor_time;
    if is_inverse {
        -drift
    } else {
        drift
    }
}

/// The retargeted value: `previous_target` itself for a block that took
/// exactly its anchor time, and otherwise `previous_target` adjusted by the
/// exponent of the signed drift.
pub open spec fn retarget_spec(
    previous_target: int,
    previous_block_timestamp: int,
    block_timestamp: int,
    anchor_time: int,
    num_blocks_per_epoch: int,
    is_inverse: bool,
) -> int {
    let drift = signed_drift(previous_block_timestamp, block_timestamp, anchor_time, is_inverse);
    if drift == 0 {
        previous_target
    } else {
        adjusted_target(previous_target, exponent_spec(drift, num_blocks_per_epoch))
    }
}

/// Returns the seconds between two block timestamps, at least one.
pub fn block_time_elapsed(previous_block_timestamp: i64, block_timestamp: i64) -> (elapsed: i64)
    ensures
        elapsed == block_time_elapsed_spec(previous_block_timestamp as int, block_timestamp as int),
        elapsed >= 1,
{
    let difference: i128 = block_timestamp as i128 - previous_block_timestamp as i128;
    if difference < 1 {
        1
    } else if difference > i64::MAX as i128 {
        i64::MAX
    } else {
        difference as i64
    }
}

/// Scales a candidate by two to the power `shifts` and narrows it to a target.
///
/// A right shift that leaves nothing gives one, so that a target is never
/// zero. A left shift that does not fit gives the largest 64-bit value.
pub fn scale_target(candidate: u128, shifts: i128) -> (target: u64)
    ensures
        target == scaled_target(candidate as int, shifts as int),
        shifts < 128 ==> target >= 1,
{
    let scaled: u128 = if shifts < 0 {
        if shifts <= -128 {
            proof {
                lemma_shifted_out(candidate, shifts as int);
            }
            1
        } else {
            let amount: u32 = (-shifts) as u32;
            proof {
                lemma_shift_right_is_shifted(candidate, amount);
            }
            let quotient: u128 = candidate >> amount;
            if quotient < 1 {
                1
            } else {
                quotient
            }
        }
    } else if shifts >= 128 {
        u64::MAX as u128
    } else {
        let amount: u32 = shifts as u32;
        if candidate > (u128::MAX >> amount) {
            proof {
                lemma_shift_left_overflows(candidate, amount);
            }
            u64::MAX as u128
        } else {
            proof {
                lemma_shift_left_is_shifted(candidate, amount);
            }
            let product: u128 = candidate << amount;
            if product < 1 {
                1
            } else {
                product
            }
        }
    };
    if scaled > u64::MAX as u128 {
        u64::MAX
    } else {
        scaled as u64
    }
}

/// Retargets `previous_target` by the time the block took.
///
/// The result is `previous_target * 2^(drift / num_blocks_per_epoch)` in
/// fixed-point arithmetic, where `drift` is the seconds by which the block
/// missed `anchor_time`, negated where `is_inverse` is set. A block that took
/// exactly its anchor time leaves the value unchanged.
pub fn retarget(
    previous_target: u64,
    previous_block_timestamp: i64,
    block_timestamp: i64,
    anchor_time: i64,
    num_blocks_per_epoch: u32,
    is_inverse: bool,
) -> (target: u64)
    requires
        anchor_time > 0,
        num_blocks_per_epoch > 0,
    ensures
        target == retarget_spec(
            previous_target as int,
            previous_block_timestamp as int,
            block_timestamp as int,
            anchor_time as int,
            num_blocks_per_epoch as int,
            is_inverse,
        ),
        block_timestamp - previous_block_timestamp == anchor_time ==> target == previous_target,
        previous_target > 0 ==> target > 0,
{
    let elapsed: i64 = block_time_elapsed(previous_block_timestamp, block_timestamp);
    let mut drift: i64 = elapsed - anchor_time;
    if drift == 0 {
        return previous_target;
    }
    if is_inverse {
        drift = -drift;
    }
    let (integral, fractional) = decompose_exponent(drift, num_blocks_per_epoch);
    let multiplier: u128 = fractional_multiplier(fractional);
    assert(previous_target * multiplier <= 0xffff_ffff_ffff_ffff * 131_072) by (nonlinear_arith)
        requires
            previous_target <= 0xffff_ffff_ffff_ffff,
            multiplier <= 131_072,
    ;
    let candidate: u128 = (previous_target as u128) * multiplier;
    let shifts: i128 = integral - (RBITS as i128);
    scale_target(candidate, shifts)
}

/// A scaled target grows with the candidate and with the shifts.
pub proof fn lemma_scaled_target_is_ordered(smaller: int, larger: int, fewer: int, more: int)
    requires
        0 <= smaller <= larger,
        fewer <= more,
    ensures
        1 <= scaled_target(smaller, fewer) <= scaled_target(larger, more) <= u64::MAX,
{
    lemma_shifted_is_ordered(smaller, larger, fewer);
    lemma_shifted_grows_with_shifts(larger, fewer, more);
}

/// An exponent of zero leaves a target as it is.
pub proof fn lemma_adjusted_target_at_zero(previous_target: int)
    requires
        1 <= previous_target <= u64::MAX,
    ensures
        adjusted_target(previous_target, 0) == previous_target,
{
    lemma_fractional_multiplier_bounds(0, 0);
    lemma2_to64();
    let candidate = previous_target * 65_536;
    assert(shifted(candidate, -16) == candidate / 65_536);
}

/// The adjusted target grows with the previous target and with the exponent.
pub proof fn lemma_adjusted_target_is_ordered(
    smaller_target: int,
    larger_target: int,
    smaller_exponent: int,
    larger_exponent: int,
)
    requires
        0 <= smaller_target <= larger_target,
        smaller_exponent <= larger_exponent,
    ensures
        1 <= adjusted_target(smaller_target, smaller_exponent) <= adjusted_target(
            larger_target,
            larger_exponent,
        ) <= u64::MAX,
{
    lemma_parts_are_ordered(smaller_exponent, larger_exponent);
    let fewer = integral_part(smaller_exponent) - RBITS;
    let more = integral_part(larger_exponent) - RBITS;
    let low = fractional_part(smaller_exponent);
    let high = fractional_part(larger_exponent);
    let low_multiplier = fractional_multiplier_spec(low);
    let high_multiplier = fractional_multiplier_spec(high);
    let radix = RADIX as int;
    lemma_fractional_multiplier_bounds(low, low);
    lemma_fractional_multiplier_bounds(high, high);
    if fewer == more {
        lemma_fractional_multiplier_bounds(low, high);
        assert(0 <= smaller_target * low_multiplier <= larger_target * high_multiplier)
            by (nonlinear_arith)
            requires
                0 <= smaller_target <= larger_target,
                0 <= low_multiplier <= high_multiplier,
        ;
        lemma_scaled_target_is_ordered(
            smaller_target * low_multiplier,
            larger_target * high_multiplier,
            fewer,
            more,
        );
    } else {
        // One whole step of the exponent doubles the value, and no fractional
        // part does more than that.
        let base = smaller_target * radix;
        assert(0 <= smaller_target * low_multiplier <= 2 * base) by (nonlinear_arith)
            requires
                0 <= smaller_target,
                0 <= low_multiplier <= 2 * radix,
                base == smaller_target * radix,
        ;
        assert(base <= larger_target * high_multiplier) by (nonlinear_arith)
            requires
                0 <= smaller_target <= larger_target,
                0 <= radix <= high_multiplier,
                base == smaller_target * radix,
        ;
        lemma_scaled_target_is_ordered(smaller_target * low_multiplier, 2 * base, fewer, fewer);
        lemma_shifted_double(base, fewer);
        lemma_scaled_target_is_ordered(base, larger_target * high_multiplier, fewer + 1, more);
    }
}

/// A target that is not zero is retargeted by the exponent of its signed
/// drift, whether the drift is zero or not.
pub proof fn lemma_retarget_is_adjusted_target(
    previous_target: int,
    previous_block_timestamp: int,
    block_timestamp: int,
    anchor_time: int,
    num_blocks_per_epoch: int,
    is_inverse: bool,
)
    requires
        1 <= previous_target <= u64::MAX,
        num_blocks_per_epoch > 0,
    ensures
        retarget_spec(
            previous_target,
            previous_block_timestamp,
            block_timestamp,
            anchor_time,
            num_blocks_per_epoch,
            is_inverse,
        ) == adjusted_target(
            previous_target,
            exponent_spec(
                signed_drift(previous_block_timestamp, block_timestamp, anchor_time, is_inverse),
                num_blocks_per_epoch,
            ),
        ),
{
    lemma_exponent_is_ordered(0, 0, num_blocks_per_epoch);
    lemma_adjusted_target_at_zero(previous_target);
}

/// Retargeting keeps the order of targets, and a larger signed drift gives a
/// result that is no smaller: of two blocks, the one with the larger target
/// and the larger signed drift has the larger retargeted value.
pub proof fn lemma_retarget_is_ordered(
    smaller_target: int,
    larger_target: int,
    first_previous_timestamp: int,
    first_timestamp: int,
    second_previous_timestamp: int,
    second_timestamp: int,
    anchor_time: int,
    num_blocks_per_epoch: int,
    is_inverse: bool,
)
    requires
        1 <= smaller_target <= larger_target <= u64::MAX,
        num_blocks_per_epoch > 0,
        signed_drift(first_previous_timestamp, first_timestamp, anchor_time, is_inverse)
            <= signed_drift(second_previous_timestamp, second_timestamp, anchor_time, is_inverse),
    ensures
        1 <= retarget_spec(
            smaller_target,
            first_previous_timestamp,
            first_timestamp,
            anchor_time,
            num_blocks_per_epoch,
            is_inverse,
        ) <= retarget_spec(
            larger_target,
            second_previous_timestamp,
            second_timestamp,
            anchor_time,
            num_blocks_per_epoch,
            is_inverse,
        ) <= u64::MAX,
{
    let first_drift = signed_drift(
        first_previous_timestamp,
        first_timestamp,
        anchor_time,
        is_inverse,
    );
    let second_drift = signed_drift(
        second_previous_timestamp,
        second_timestamp,
        anchor_time,
        is_inverse,
    );
    lemma_retarget_is_adjusted_target(
        smaller_target,
        first_previous_timestamp,
        first_timestamp,
        anchor_time,
        num_blocks_per_epoch,
        is_inverse,
    );
    lemma_retarget_is_adjusted_target(
        larger_target,
        second_previous_timestamp,
        second_timestamp,
        anchor_time,
        num_blocks_per_epoch,
        is_inverse,
    );
    lemma_exponent_is_ordered(first_drift, second_drift, num_blocks_per_epoch);
    lemma_adjusted_target_is_ordered(
        smaller_target,
        larger_target,
        exponent_spec(first_drift, num_blocks_per_epoch),
        exponent_spec(second_drift, num_blocks_per_epoch),
    );
}

/// The direction of an adjustment: a signed drift above zero never lowers a
/// target, and a signed drift below zero never raises it.
pub proof fn lemma_retarget_direction(
    previous_target: int,
    previous_block_timestamp: int,
    block_timestamp: int,
    anchor_time: int,
    num_blocks_per_epoch: int,
    is_inverse: bool,
)
    requires
        1 <= previous_target <= u64::MAX,
        num_blocks_per_epoch > 0,
    ensures
        signed_drift(previous_block_timestamp, block_timestamp, anchor_time, is_inverse) >= 0
            ==> retarget_spec(
            previous_target,
            previous_block_timestamp,
            block_timestamp,
            anchor_time,
            num_blocks_per_epoch,
            is_inverse,
        ) >= previous_target,
        signed_drift(previous_block_timestamp, block_timestamp, anchor_time, is_inverse) <= 0
            ==> retarget_spec(
            previous_target,
            previous_block_timestamp,
            block_timestamp,
            anchor_time,
            num_blocks_per_epoch,
            is_inverse,
        ) <= previous_target,
{
    let drift = signed_drift(previous_block_timestamp, block_timestamp, anchor_time, is_inverse);
    let exponent = exponent_spec(drift, num_blocks_per_epoch);
    lemma_retarget_is_adjusted_target(
        previous_target,
        previous_block_timestamp,
        block_timestamp,
        anchor_time,
        num_blocks_per_epoch,
        is_inverse,
    );
    lemma_adjusted_target_at_zero(previous_target);
    if drift >= 0 {
        lemma_exponent_is_ordered(0, drift, num_blocks_per_epoch);
        lemma_adjusted_target_is_ordered(previous_target, previous_target, 0, exponent);
    }
    if drift <= 0 {
        lemma_exponent_is_ordered(drift, 0, num_blocks_per_epoch);
        lemma_adjusted_target_is_ordered(previous_target, previous_target, exponent, 0);
    }
}

/// An exponent below zero lowers every target of two or more.
pub proof fn lemma_adjusted_target_lowers(previous_target: int, exponent: int)
    requires
        2 <= previous_target <= u64::MAX,
        exponent < 0,
    ensures
        1 <= adjusted_target(previous_target, exponent) < previous_target,
{
    lemma_parts_are_ordered(exponent, -1);
    let fractional = fractional_part(exponent);
    let multiplier = fractional_multiplier_spec(fractional);
    let shifts = integral_part(exponent) - RBITS;
    let candidate = previous_target * multiplier;
    lemma_fractional_multiplier_bounds(fractional, fractional);
    if fractional > 0 {
        lemma_fractional_multiplier_strict_bounds(fractional);
    }
    assert(0 <= candidate <= previous_target * 131_071) by (nonlinear_arith)
        requires
            0 <= previous_target,
            0 <= multiplier <= 131_071,
            candidate == previous_target * multiplier,
    ;
    lemma_shifted_grows_with_shifts(candidate, shifts, -17);
    lemma_shifted_is_ordered(candidate, previous_target * 131_071, -17);
    lemma_shifted_is_ordered(0, candidate, shifts);
    lemma2_to64();
    assert(shifted(previous_target * 131_071, -17) == (previous_target * 131_071) / 131_072);
}

/// An exponent above zero raises every target from `RADIX` on that can
/// still grow.
pub proof fn lemma_adjusted_target_raises(previous_target: int, exponent: int)
    requires
        RADIX <= previous_target < u64::MAX,
        exponent > 0,
    ensures
        previous_target < adjusted_target(previous_target, exponent) <= u64::MAX,
{
    lemma_parts_are_ordered(1, exponent);
    let whole = integral_part(exponent);
    let fractional = fractional_part(exponent);
    let multiplier = fractional_multiplier_spec(fractional);
    let shifts = whole - RBITS;
    let candidate = previous_target * multiplier;
    lemma_fractional_multiplier_bounds(fractional, fractional);
    lemma2_to64();
    if whole == 0 {
        lemma_fractional_multiplier_strict_bounds(fractional);
        assert(previous_target * 65_537 <= candidate) by (nonlinear_arith)
            requires
                0 <= previous_target,
                65_537 <= multiplier,
                candidate == previous_target * multiplier,
        ;
        lemma_shifted_is_ordered(previous_target * 65_537, candidate, -16);
        assert(shifted(previous_target * 65_537, -16) == (previous_target * 65_537) / 65_536);
    } else {
        assert(previous_target * 65_536 <= candidate) by (nonlinear_arith)
            requires
                0 <= previous_target,
                65_536 <= multiplier,
                candidate == previous_target * multiplier,
        ;
        lemma_shifted_is_ordered(previous_target * 65_536, candidate, shifts);
        lemma_shifted_grows_with_shifts(previous_target * 65_536, -15, shifts);
        assert(shifted(previous_target * 65_536, -15) == (previous_target * 65_536) / 32_768);
    }
}

/// Where the exponent of the signed drift is not zero, retargeting moves a
/// target: down, for a signed drift below zero, every target of two or more;
/// up, for a signed drift above zero, every target from `RADIX` on that is
/// below the largest 64-bit value.
pub proof fn lemma_retarget_strict_direction(
    previous_target: int,
    previous_block_timestamp: int,
    block_timestamp: int,
    anchor_time: int,
    num_blocks_per_epoch: int,
    is_inverse: bool,
)
    requires
        1 <= previous_target <= u64::MAX,
        num_blocks_per_epoch > 0,
    ensures
        previous_target >= 2 && exponent_spec(
            signed_drift(previous_block_timestamp, block_timestamp, anchor_time, is_inverse),
            num_blocks_per_epoch,
        ) < 0 ==> retarget_spec(
            previous_target,
            previous_block_timestamp,
            block_timestamp,
            anchor_time,
            num_blocks_per_epoch,
            is_inverse,
        ) < previous_target,
        RADIX <= previous_target < u64::MAX && exponent_spec(
            signed_drift(previous_block_timestamp, block_timestamp, anchor_time, is_inverse),
            num_blocks_per_epoch,
        ) > 0 ==> retarget_spec(
            previous_target,
            previous_block_timestamp,
            block_timestamp,
            anchor_time,
            num_blocks_per_epoch,
            is_inverse,
        ) > previous_target,
{
    let drift = signed_drift(previous_block_timestamp, block_timestamp, anchor_time, is_inverse);
    let exponent = exponent_spec(drift, num_blocks_per_epoch);
    lemma_retarget_is_adjusted_target(
        previous_target,
        previous_block_timestamp,
        block_timestamp,
        anchor_time,
        num_blocks_per_epoch,
        is_inverse,
    );
    if previous_target >= 2 && exponent < 0 {
        lemma_adjusted_target_lowers(previous_target, exponent);
    }
    if RADIX <= previous_target < u64::MAX && exponent > 0 {
        lemma_adjusted_target_raises(previous_target, exponent);
    }
}

/// A signed drift of whole epochs scales a target by the exact power of two:
/// each epoch of drift doubles it or halves it, rounding down, within the
/// bounds of a target.
pub proof fn lemma_retarget_whole_epochs(
    previous_target: int,
    previous_block_timestamp: int,
    block_timestamp: int,
    anchor_time: int,
    num_blocks_per_epoch: int,
    is_inverse: bool,
    epochs: int,
)
    requires
        1 <= previous_target <= u64::MAX,
        num_blocks_per_epoch > 0,
        signed_drift(previous_block_timestamp, block_timestamp, anchor_time, is_inverse) == epochs
            * num_blocks_per_epoch,
    ensures
        retarget_spec(
            previous_target,
            previous_block_timestamp,
            block_timestamp,
            anchor_time,
            num_blocks_per_epoch,
            is_inverse,
        ) == clamp_target(shifted(previous_target, epochs)),
{
    let drift = signed_drift(previous_block_timestamp, block_timestamp, anchor_time, is_inverse);
    let radix = RADIX as int;
    lemma_retarget_is_adjusted_target(
        previous_target,
        previous_block_timestamp,
        block_timestamp,
        anchor_time,
        num_blocks_per_epoch,
        is_inverse,
    );
    // The division of the scaled drift by the blocks of an epoch is exact.
    assert(RADIX * drift == (epochs * radix) * num_blocks_per_epoch) by (nonlinear_arith)
        requires
            drift == epochs * num_blocks_per_epoch,
            radix == RADIX,
    ;
    assert(-(RADIX * drift) == (-epochs * radix) * num_blocks_per_epoch) by (nonlinear_arith)
        requires
            drift == epochs * num_blocks_per_epoch,
            radix == RADIX,
    ;
    if epochs >= 0 {
        lemma_div_by_multiple(epochs * radix, num_blocks_per_epoch);
    } else {
        lemma_div_by_multiple(-epochs * radix, num_blocks_per_epoch);
    }
    assert(exponent_spec(drift, num_blocks_per_epoch) == epochs * radix);
    lemma_fractional_multiplier_bounds(0, 0);
    lemma2_to64();
    lemma_shifted_by_power(previous_target, 16, epochs - 16);
    if epochs - 16 >= 128 {
        lemma_shifted_grows_with_shifts(previous_target, 64, epochs);
        assert(shifted(previous_target, 64) == previous_target * 0x1_0000_0000_0000_0000);
    }
}

} // verus!
