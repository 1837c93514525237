//! The coinbase target of a block, and the proof target derived from it.

use crate::fixed_point::{
    exponent_spec, lemma_exponent_is_ordered, lemma_exponent_is_zero, RADIX,
};
use crate::network::NetworkParameters;
use crate::retarget::{
    block_time_elapsed_spec, lemma_adjusted_target_at_zero, lemma_adjusted_target_is_ordered,
    lemma_retarget_direction, lemma_retarget_is_ordered, lemma_retarget_strict_direction,
    retarget, retarget_spec, signed_drift,
};
use vstd::prelude::*;

verus! {

/// The smallest coinbase target, `2^10 - 1`.
pub const MINIMUM_COINBASE_TARGET: u64 = 1_023;

/// The coinbase target that follows `previous_coinbase_target`: that target
/// retargeted inversely by the time the block took, and no less than the
/// smallest coinbase target.
pub open spec fn coinbase_target_spec(
    previous_coinbase_target: int,
    previous_block_timestamp: int,
    block_timestamp: int,
    anchor_time: int,
    num_blocks_per_epoch: int,
) -> int {
    let candidate = retarget_spec(
        previous_coinbase_target,
        previous_block_timestamp,
        block_timestamp,
        anchor_time,
        num_blocks_per_epoch,
        true,
    );
    if candidate < MINIMUM_COINBASE_TARGET {
        MINIMUM_COINBASE_TARGET as int
    } else {
        candidate
    }
}

/// The proof target of a coinbase target: the coinbase target without its
/// ten lowest bits.
pub open spec fn proof_target_spec(coinbase_target: int) -> int {
    coinbase_target / 1_024
}

/// Calculates the coinbase target of a block from the target and the
/// timestamp of the block before it.
///
/// A block on time keeps the target, a slower block lowers it and a faster
/// block raises it, by a factor of two for every `num_blocks_per_epoch`
/// seconds of drift. The target never falls below the smallest coinbase
/// target.
pub fn coinbase_target(
    parameters: &NetworkParameters,
    previous_coinbase_target: u64,
    previous_block_timestamp: i64,
    block_timestamp: i64,
) -> (target: u64)
    ensures
        target == coinbase_target_spec(
            previous_coinbase_target as int,
            previous_block_timestamp as int,
            block_timestamp as int,
            parameters.anchor_time() as int,
            parameters.num_blocks_per_epoch() as int,
        ),
        target >= MINIMUM_COINBASE_TARGET,
        block_timestamp - previous_block_timestamp == parameters.anchor_time()
            && previous_coinbase_target >= MINIMUM_COINBASE_TARGET ==> target
            == previous_coinbase_target,
{
    let candidate_target: u64 = retarget(
        previous_coinbase_target,
        previous_block_timestamp,
        block_timestamp,
        parameters.anchor_time(),
        parameters.num_blocks_per_epoch(),
        true,
    );
    if candidate_target < MINIMUM_COINBASE_TARGET {
        MINIMUM_COINBASE_TARGET
    } else {
        candidate_target
    }
}

/// Calculates the minimum proof target for the given coinbase target.
pub fn proof_target(coinbase_target: u64) -> (target: u64)
    ensures
        target == coinbase_target >> 10u32,
        target == proof_target_spec(coinbase_target as int),
{
    assert(coinbase_target >> 10u32 == coinbase_target / 1_024) by (bit_vector);
    coinbase_target >> 10u32
}

/// The direction of the difficulty adjustment. A block that took its anchor
/// time or longer does not raise the coinbase target above the previous one
/// (or above the smallest target, where the previous one was below it). A
/// block that took its anchor time or less does not lower it.
pub proof fn lemma_coinbase_target_direction(
    previous_coinbase_target: int,
    previous_block_timestamp: int,
    block_timestamp: int,
    anchor_time: int,
    num_blocks_per_epoch: int,
)
    requires
        0 <= previous_coinbase_target <= u64::MAX,
        num_blocks_per_epoch > 0,
    ensures
        block_time_elapsed_spec(previous_block_timestamp, block_timestamp) >= anchor_time
            ==> coinbase_target_spec(
            previous_coinbase_target,
            previous_block_timestamp,
            block_timestamp,
            anchor_time,
            num_blocks_per_epoch,
        ) <= if previous_coinbase_target < MINIMUM_COINBASE_TARGET {
            MINIMUM_COINBASE_TARGET as int
        } else {
            previous_coinbase_target
        },
        block_time_elapsed_spec(previous_block_timestamp, block_timestamp) <= anchor_time
            ==> coinbase_target_spec(
            previous_coinbase_target,
            previous_block_timestamp,
            block_timestamp,
            anchor_time,
            num_blocks_per_epoch,
        ) >= previous_coinbase_target,
{
    if previous_coinbase_target >= 1 {
        lemma_retarget_direction(
            previous_coinbase_target,
            previous_block_timestamp,
            block_timestamp,
            anchor_time,
            num_blocks_per_epoch,
            true,
        );
    } else {
        let drift = signed_drift(previous_block_timestamp, block_timestamp, anchor_time, true);
        if drift < 0 {
            lemma_exponent_is_ordered(drift, 0, num_blocks_per_epoch);
            lemma_adjusted_target_is_ordered(
                0,
                1,
                exponent_spec(drift, num_blocks_per_epoch),
                0,
            );
            lemma_adjusted_target_at_zero(1);
        }
    }
}

/// Of two blocks on the same previous coinbase target, the one that took
/// longer has the coinbase target that is no larger.
pub proof fn lemma_coinbase_target_is_ordered(
    previous_coinbase_target: int,
    slower_previous_timestamp: int,
    slower_timestamp: int,
    faster_previous_timestamp: int,
    faster_timestamp: int,
    anchor_time: int,
    num_blocks_per_epoch: int,
)
    requires
        1 <= previous_coinbase_target <= u64::MAX,
        num_blocks_per_epoch > 0,
        block_time_elapsed_spec(faster_previous_timestamp, faster_timestamp)
            <= block_time_elapsed_spec(slower_previous_timestamp, slower_timestamp),
    ensures
        coinbase_target_spec(
            previous_coinbase_target,
            slower_previous_timestamp,
            slower_timestamp,
            anchor_time,
            num_blocks_per_epoch,
        ) <= coinbase_target_spec(
            previous_coinbase_target,
            faster_previous_timestamp,
            faster_timestamp,
            anchor_time,
            num_blocks_per_epoch,
        ),
{
    lemma_retarget_is_ordered(
        previous_coinbase_target,
        previous_coinbase_target,
        slower_previous_timestamp,
        slower_timestamp,
        faster_previous_timestamp,
        faster_timestamp,
        anchor_time,
        num_blocks_per_epoch,
        true,
    );
}

/// Where a block misses its anchor time by enough to move the exponent,
/// that is by at least `num_blocks_per_epoch / RADIX` seconds, the coinbase
/// target moves. A slower block lowers every target above the smallest one.
/// A faster block raises every target from `RADIX` on that is below the
/// largest 64-bit value.
pub proof fn lemma_coinbase_target_strict_direction(
    previous_coinbase_target: int,
    previous_block_timestamp: int,
    block_timestamp: int,
    anchor_time: int,
    num_blocks_per_epoch: int,
)
    requires
        0 <= previous_coinbase_target <= u64::MAX,
        num_blocks_per_epoch > 0,
    ensures
        previous_coinbase_target > MINIMUM_COINBASE_TARGET && RADIX * (block_time_elapsed_spec(
            previous_block_timestamp,
            block_timestamp,
        ) - anchor_time) >= num_blocks_per_epoch ==> coinbase_target_spec(
            previous_coinbase_target,
            previous_block_timestamp,
            block_timestamp,
            anchor_time,
            num_blocks_per_epoch,
        ) < previous_coinbase_target,
        RADIX <= previous_coinbase_target < u64::MAX && RADIX * (anchor_time
            - block_time_elapsed_spec(previous_block_timestamp, block_timestamp))
            >= num_blocks_per_epoch ==> coinbase_target_spec(
            previous_coinbase_target,
            previous_block_timestamp,
            block_timestamp,
            anchor_time,
            num_blocks_per_epoch,
        ) > previous_coinbase_target,
{
    let drift = signed_drift(previous_block_timestamp, block_timestamp, anchor_time, true);
    lemma_exponent_is_zero(drift, num_blocks_per_epoch);
    if drift <= 0 {
        lemma_exponent_is_ordered(drift, 0, num_blocks_per_epoch);
    } else {
        lemma_exponent_is_ordered(0, drift, num_blocks_per_epoch);
    }
    if previous_coinbase_target >= 1 {
        lemma_retarget_strict_direction(
            previous_coinbase_target,
            previous_block_timestamp,
            block_timestamp,
            anchor_time,
            num_blocks_per_epoch,
            true,
        );
    }
}

} // verus!
