//! Estimated block heights.

use vstd::arithmetic::div_mod::{lemma_div_is_ordered_by_denominator, lemma_div_pos_is_pos};
use vstd::arithmetic::mul::{lemma_mul_inequality, lemma_mul_nonnegative};
use vstd::prelude::*;

verus! {

/// The seconds in a year of 365 days.
pub const SECONDS_IN_A_YEAR: u64 = 31_536_000;

/// The number of blocks expected after `num_years` years where a block takes
/// `anchor_time` seconds: the whole blocks of one year, times the years.
pub open spec fn estimated_block_height_spec(anchor_time: int, num_years: int) -> int {
    (SECONDS_IN_A_YEAR as int / anchor_time) * num_years
}

/// Returns the estimated block height after a given number of years for a
/// specific anchor time.
///
/// The anchor time must not be zero.
pub fn estimated_block_height(anchor_time: u64, num_years: u32) -> (height: u64)
    requires
        anchor_time > 0,
    ensures
        height == estimated_block_height_spec(anchor_time as int, num_years as int),
{
    let estimated_blocks_in_a_year: u64 = SECONDS_IN_A_YEAR / anchor_time;
    assert(estimated_blocks_in_a_year <= SECONDS_IN_A_YEAR) by (nonlinear_arith)
        requires
            anchor_time > 0,
            estimated_blocks_in_a_year == SECONDS_IN_A_YEAR / anchor_time,
    ;
    assert(estimated_blocks_in_a_year * num_years <= 31_536_000 * 0xffff_ffff) by (nonlinear_arith)
        requires
            estimated_blocks_in_a_year <= 31_536_000,
            num_years <= 0xffff_ffff,
    ;
    estimated_blocks_in_a_year * (num_years as u64)
}

/// A longer anchor time gives an estimated block height that is no larger.
pub proof fn lemma_estimated_block_height_is_ordered(
    shorter_anchor_time: int,
    longer_anchor_time: int,
    num_years: int,
)
    requires
        0 < shorter_anchor_time <= longer_anchor_time,
        0 <= num_years,
    ensures
        0 <= estimated_block_height_spec(longer_anchor_time, num_years)
            <= estimated_block_height_spec(shorter_anchor_time, num_years),
{
    let year = SECONDS_IN_A_YEAR as int;
    lemma_div_is_ordered_by_denominator(year, shorter_anchor_time, longer_anchor_time);
    lemma_div_pos_is_pos(year, longer_anchor_time);
    lemma_mul_inequality(year / longer_anchor_time, year / shorter_anchor_time, num_years);
    lemma_mul_nonnegative(year / longer_anchor_time, num_years);
}

} // verus!
