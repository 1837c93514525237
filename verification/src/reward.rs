//! The rewards of a block: staking reward, anchor reward and coinbase reward.

use crate::error::EconomicsError;
use crate::height::{
    estimated_block_height, estimated_block_height_spec, lemma_estimated_block_height_is_ordered,
    SECONDS_IN_A_YEAR,
};
use crate::network::NetworkParameters;
use crate::retarget::{
    block_time_elapsed_spec, lemma_retarget_direction, lemma_retarget_is_ordered, retarget,
    retarget_spec,
};
use vstd::arithmetic::div_mod::{
    lemma_div_is_ordered_by_denominator, lemma_fundamental_div_mod, lemma_mod_bound,
};
use vstd::arithmetic::mul::lemma_mul_inequality;
use vstd::prelude::*;

verus! {

/// The staking reward of a block: a fortieth of the starting supply, spread
/// over the blocks of the first year.
pub open spec fn staking_reward_spec(starting_supply: int, anchor_time: int) -> int {
    (starting_supply * 25 / 1_000) / estimated_block_height_spec(anchor_time, 1)
}

/// The anchor reward: twice the starting supply over `H * (H + 1)`, where `H`
/// is the estimated block height after ten years.
pub open spec fn anchor_reward_spec(starting_supply: int, anchor_time: int) -> int {
    let height = estimated_block_height_spec(anchor_time, 10);
    (2 * starting_supply) / (height * (height + 1))
}

/// The blocks left at `block_height` until the estimated height after ten
/// years; none once that height is reached.
pub open spec fn remaining_blocks(anchor_time: int, block_height: int) -> int {
    let height = estimated_block_height_spec(anchor_time, 10);
    if block_height >= height {
        0
    } else {
        height - block_height
    }
}

/// The coinbase reward of a block: the anchor reward for each remaining
/// block, retargeted inversely by the time the block took; zero where that
/// product is zero.
pub open spec fn coinbase_reward_spec(
    starting_supply: int,
    anchor_time: int,
    num_blocks_per_epoch: int,
    previous_timestamp: int,
    timestamp: int,
    block_height: int,
) -> int {
    let reward = remaining_blocks(anchor_time, block_height) * anchor_reward_spec(
        starting_supply,
        anchor_time,
    );
    if reward == 0 {
        0
    } else {
        retarget_spec(reward, previous_timestamp, timestamp, anchor_time, num_blocks_per_epoch, true)
    }
}

/// Narrows a 128-bit value to 64 bits, or reports an overflow.
fn narrow(value: u128) -> (result: Result<u64, EconomicsError>)
    ensures
        value <= u64::MAX ==> result == Ok::<u64, EconomicsError>(value as u64),
        value > u64::MAX ==> result == Err::<u64, EconomicsError>(
            EconomicsError::ArithmeticOverflow,
        ),
{
    match u64::try_from(value) {
        Ok(narrowed) => Ok(narrowed),
        Err(_) => Err(EconomicsError::ArithmeticOverflow),
    }
}

/// Calculates the staking reward, given the starting supply and anchor time.
///
/// The anchor time must leave a whole block in a year: there is nothing to
/// divide by otherwise. The reward always fits 64 bits, so that no overflow
/// is ever reported.
pub fn staking_reward(parameters: &NetworkParameters) -> (reward: Result<u64, EconomicsError>)
    requires
        parameters.anchor_time() <= SECONDS_IN_A_YEAR,
    ensures
        reward == Ok::<u64, EconomicsError>(
            staking_reward_spec(
                parameters.starting_supply() as int,
                parameters.anchor_time() as int,
            ) as u64,
        ),
        staking_reward_spec(parameters.starting_supply() as int, parameters.anchor_time() as int)
            <= u64::MAX,
{
    let block_height_around_year_1: u64 = estimated_block_height(parameters.anchor_time() as u64, 1);
    proof {
        lemma_staking_reward_fits(
            parameters.starting_supply() as int,
            parameters.anchor_time() as int,
        );
    }
    narrow((parameters.starting_supply() as u128) * 25 / 1_000 / (block_height_around_year_1 as u128))
}

/// The staking reward never exceeds a fortieth of the starting supply.
pub proof fn lemma_staking_reward_fits(starting_supply: int, anchor_time: int)
    requires
        0 <= starting_supply,
        0 < anchor_time <= SECONDS_IN_A_YEAR,
    ensures
        estimated_block_height_spec(anchor_time, 1) >= 1,
        0 <= staking_reward_spec(starting_supply, anchor_time) <= starting_supply * 25 / 1_000,
{
    let height = estimated_block_height_spec(anchor_time, 1);
    let share = starting_supply * 25 / 1_000;
    assert(SECONDS_IN_A_YEAR as int / anchor_time >= 1) by (nonlinear_arith)
        requires
            0 < anchor_time <= SECONDS_IN_A_YEAR,
    ;
    assert(0 <= share / height <= share) by (nonlinear_arith)
        requires
            share >= 0,
            height >= 1,
    ;
}

/// Calculates the anchor reward, given the starting supply and anchor time.
///
/// The anchor time must leave a whole block in a year: there is nothing to
/// divide by otherwise. The reward always fits 64 bits, so that no overflow
/// is ever reported.
pub fn anchor_reward(parameters: &NetworkParameters) -> (reward: Result<u64, EconomicsError>)
    requires
        parameters.anchor_time() <= SECONDS_IN_A_YEAR,
    ensures
        reward == Ok::<u64, EconomicsError>(
            anchor_reward_spec(
                parameters.starting_supply() as int,
                parameters.anchor_time() as int,
            ) as u64,
        ),
        anchor_reward_spec(parameters.starting_supply() as int, parameters.anchor_time() as int)
            <= u64::MAX,
{
    let block_height_around_year_10: u128 = estimated_block_height(
        parameters.anchor_time() as u64,
        10,
    ) as u128;
    proof {
        lemma_anchor_reward_fits(
            parameters.starting_supply() as int,
            parameters.anchor_time() as int,
        );
        assert(0 < block_height_around_year_10 * (block_height_around_year_10 + 1)
            <= 315_360_000 * 315_360_001) by (nonlinear_arith)
            requires
                10 <= block_height_around_year_10 <= 315_360_000,
        ;
    }
    let numerator: u128 = 2 * (parameters.starting_supply() as u128);
    let denominator: u128 = block_height_around_year_10 * (block_height_around_year_10 + 1);
    narrow(numerator / denominator)
}

/// The anchor reward, paid for every block that remains at any height, never
/// exceeds the starting supply.
pub proof fn lemma_anchor_reward_fits(starting_supply: int, anchor_time: int)
    requires
        0 <= starting_supply,
        0 < anchor_time <= SECONDS_IN_A_YEAR,
    ensures
        10 <= estimated_block_height_spec(anchor_time, 10) <= 10 * SECONDS_IN_A_YEAR,
        0 <= anchor_reward_spec(starting_supply, anchor_time) <= starting_supply,
        forall|block_height: int|
            0 <= block_height ==> 0 <= #[trigger] remaining_blocks(anchor_time, block_height)
                * anchor_reward_spec(starting_supply, anchor_time) <= starting_supply,
{
    let height = estimated_block_height_spec(anchor_time, 10);
    let reward = anchor_reward_spec(starting_supply, anchor_time);
    assert(1 <= SECONDS_IN_A_YEAR as int / anchor_time <= SECONDS_IN_A_YEAR) by (nonlinear_arith)
        requires
            0 < anchor_time <= SECONDS_IN_A_YEAR,
    ;
    assert(0 <= reward && height * reward <= starting_supply) by (nonlinear_arith)
        requires
            height >= 1,
            starting_supply >= 0,
            reward == (2 * starting_supply) / (height * (height + 1)),
    ;
    assert forall|block_height: int| 0 <= block_height implies 0 <= #[trigger] remaining_blocks(
        anchor_time,
        block_height,
    ) * reward <= starting_supply by {
        let remaining = remaining_blocks(anchor_time, block_height);
        assert(0 <= remaining * reward <= height * reward) by (nonlinear_arith)
            requires
                0 <= remaining <= height,
                0 <= reward,
        ;
    }
    assert(reward <= height * reward) by (nonlinear_arith)
        requires
            height >= 1,
            reward >= 0,
    ;
}

/// Calculates the coinbase reward for a given block.
///
/// No reward is paid from the estimated block height after ten years on.
/// Before that height, a block on time is paid the anchor reward for each
/// remaining block, and the reward halves with every `num_blocks_per_epoch`
/// seconds that the block is late.
///
/// The anchor time must leave a whole block in a year, as for the anchor
/// reward. The anchor reward for all remaining blocks never exceeds the
/// starting supply, so that no overflow is ever reported.
pub fn coinbase_reward(
    parameters: &NetworkParameters,
    previous_timestamp: i64,
    timestamp: i64,
    block_height: u64,
) -> (reward: Result<u64, EconomicsError>)
    requires
        parameters.anchor_time() <= SECONDS_IN_A_YEAR,
    ensures
        reward == Ok::<u64, EconomicsError>(
            coinbase_reward_spec(
                parameters.starting_supply() as int,
                parameters.anchor_time() as int,
                parameters.num_blocks_per_epoch() as int,
                previous_timestamp as int,
                timestamp as int,
                block_height as int,
            ) as u64,
        ),
        0 <= coinbase_reward_spec(
            parameters.starting_supply() as int,
            parameters.anchor_time() as int,
            parameters.num_blocks_per_epoch() as int,
            previous_timestamp as int,
            timestamp as int,
            block_height as int,
        ) <= u64::MAX,
        block_height >= estimated_block_height_spec(parameters.anchor_time() as int, 10)
            ==> reward == Ok::<u64, EconomicsError>(0),
{
    let block_height_around_year_10: u64 = estimated_block_height(
        parameters.anchor_time() as u64,
        10,
    );
    let remaining: u64 = block_height_around_year_10.saturating_sub(block_height);
    let anchor_reward: u64 = match anchor_reward(parameters) {
        Ok(reward) => reward,
        Err(error) => {
            return Err(error);
        },
    };
    proof {
        lemma_anchor_reward_fits(
            parameters.starting_supply() as int,
            parameters.anchor_time() as int,
        );
        assert(remaining == remaining_blocks(
            parameters.anchor_time() as int,
            block_height as int,
        ));
    }
    match remaining.checked_mul(anchor_reward) {
        None => Err(EconomicsError::ArithmeticOverflow),
        Some(0) => Ok(0),
        Some(reward) => Ok(
            retarget(
                reward,
                previous_timestamp,
                timestamp,
                parameters.anchor_time(),
                parameters.num_blocks_per_epoch(),
                true,
            ),
        ),
    }
}

/// The staking reward grows with the anchor time: a longer anchor time gives
/// a staking reward that is no smaller.
pub proof fn lemma_staking_reward_is_ordered(
    starting_supply: int,
    shorter_anchor_time: int,
    longer_anchor_time: int,
)
    requires
        0 <= starting_supply,
        0 < shorter_anchor_time <= longer_anchor_time <= SECONDS_IN_A_YEAR,
    ensures
        staking_reward_spec(starting_supply, shorter_anchor_time) <= staking_reward_spec(
            starting_supply,
            longer_anchor_time,
        ),
{
    lemma_estimated_block_height_is_ordered(shorter_anchor_time, longer_anchor_time, 1);
    lemma_staking_reward_fits(starting_supply, longer_anchor_time);
    lemma_div_is_ordered_by_denominator(
        starting_supply * 25 / 1_000,
        estimated_block_height_spec(longer_anchor_time, 1),
        estimated_block_height_spec(shorter_anchor_time, 1),
    );
}

/// The anchor reward grows with the anchor time: a longer anchor time gives
/// an anchor reward that is no smaller.
pub proof fn lemma_anchor_reward_is_ordered(
    starting_supply: int,
    shorter_anchor_time: int,
    longer_anchor_time: int,
)
    requires
        0 <= starting_supply,
        0 < shorter_anchor_time <= longer_anchor_time <= SECONDS_IN_A_YEAR,
    ensures
        anchor_reward_spec(starting_supply, shorter_anchor_time) <= anchor_reward_spec(
            starting_supply,
            longer_anchor_time,
        ),
{
    lemma_estimated_block_height_is_ordered(shorter_anchor_time, longer_anchor_time, 10);
    lemma_anchor_reward_fits(starting_supply, longer_anchor_time);
    let fewer = estimated_block_height_spec(longer_anchor_time, 10);
    let more = estimated_block_height_spec(shorter_anchor_time, 10);
    assert(1 <= fewer * (fewer + 1) <= more * (more + 1)) by (nonlinear_arith)
        requires
            1 <= fewer <= more,
    ;
    lemma_div_is_ordered_by_denominator(
        2 * starting_supply,
        fewer * (fewer + 1),
        more * (more + 1),
    );
}

/// A quotient is strictly larger than the quotient by another divisor
/// exactly where it, times that other divisor, exceeds the dividend.
pub proof fn lemma_quotients_strictly_ordered(dividend: int, larger_divisor: int, smaller_divisor: int)
    requires
        0 < smaller_divisor,
        0 < larger_divisor,
    ensures
        dividend / larger_divisor < dividend / smaller_divisor <==> (dividend / smaller_divisor)
            * larger_divisor > dividend,
{
    let low = dividend / larger_divisor;
    let high = dividend / smaller_divisor;
    lemma_fundamental_div_mod(dividend, larger_divisor);
    lemma_mod_bound(dividend, larger_divisor);
    if low < high {
        assert(high * larger_divisor > dividend) by (nonlinear_arith)
            requires
                low + 1 <= high,
                larger_divisor > 0,
                dividend < larger_divisor * low + larger_divisor,
        ;
    } else {
        assert(high * larger_divisor <= dividend) by (nonlinear_arith)
            requires
                high <= low,
                larger_divisor > 0,
                larger_divisor * low <= dividend,
        ;
    }
}

/// The staking reward of a longer anchor time is strictly larger than that of
/// a shorter one exactly where it, paid for every block of the first year at
/// the shorter anchor time, would exceed the fortieth of the starting supply.
pub proof fn lemma_staking_reward_strictly_ordered(
    starting_supply: int,
    shorter_anchor_time: int,
    longer_anchor_time: int,
)
    requires
        0 <= starting_supply,
        0 < shorter_anchor_time <= longer_anchor_time <= SECONDS_IN_A_YEAR,
    ensures
        staking_reward_spec(starting_supply, shorter_anchor_time) < staking_reward_spec(
            starting_supply,
            longer_anchor_time,
        ) <==> staking_reward_spec(starting_supply, longer_anchor_time)
            * estimated_block_height_spec(shorter_anchor_time, 1) > starting_supply * 25 / 1_000,
{
    lemma_staking_reward_fits(starting_supply, shorter_anchor_time);
    lemma_staking_reward_fits(starting_supply, longer_anchor_time);
    lemma_quotients_strictly_ordered(
        starting_supply * 25 / 1_000,
        estimated_block_height_spec(shorter_anchor_time, 1),
        estimated_block_height_spec(longer_anchor_time, 1),
    );
}

/// The anchor reward of a longer anchor time is strictly larger than that of
/// a shorter one exactly where it, times the divisor `H * (H + 1)` of the
/// shorter anchor time, would exceed twice the starting supply.
pub proof fn lemma_anchor_reward_strictly_ordered(
    starting_supply: int,
    shorter_anchor_time: int,
    longer_anchor_time: int,
)
    requires
        0 <= starting_supply,
        0 < shorter_anchor_time <= longer_anchor_time <= SECONDS_IN_A_YEAR,
    ensures
        anchor_reward_spec(starting_supply, shorter_anchor_time) < anchor_reward_spec(
            starting_supply,
            longer_anchor_time,
        ) <==> anchor_reward_spec(starting_supply, longer_anchor_time) * (
        estimated_block_height_spec(shorter_anchor_time, 10) * (estimated_block_height_spec(
            shorter_anchor_time,
            10,
        ) + 1)) > 2 * starting_supply,
{
    lemma_anchor_reward_fits(starting_supply, shorter_anchor_time);
    lemma_anchor_reward_fits(starting_supply, longer_anchor_time);
    let fewer = estimated_block_height_spec(longer_anchor_time, 10);
    let more = estimated_block_height_spec(shorter_anchor_time, 10);
    assert(1 <= fewer * (fewer + 1) && 1 <= more * (more + 1)) by (nonlinear_arith)
        requires
            1 <= fewer,
            1 <= more,
    ;
    lemma_quotients_strictly_ordered(2 * starting_supply, more * (more + 1), fewer * (fewer + 1));
}

/// The coinbase reward falls as the chain grows and as blocks slow down: of
/// two blocks, the one at the greater height that took at least as long has
/// the coinbase reward that is no larger.
pub proof fn lemma_coinbase_reward_is_ordered(
    starting_supply: int,
    anchor_time: int,
    num_blocks_per_epoch: int,
    earlier_previous_timestamp: int,
    earlier_timestamp: int,
    earlier_height: int,
    later_previous_timestamp: int,
    later_timestamp: int,
    later_height: int,
)
    requires
        0 <= starting_supply <= u64::MAX,
        0 < anchor_time <= SECONDS_IN_A_YEAR,
        0 < num_blocks_per_epoch,
        0 <= earlier_height <= later_height,
        block_time_elapsed_spec(earlier_previous_timestamp, earlier_timestamp)
            <= block_time_elapsed_spec(later_previous_timestamp, later_timestamp),
    ensures
        0 <= coinbase_reward_spec(
            starting_supply,
            anchor_time,
            num_blocks_per_epoch,
            later_previous_timestamp,
            later_timestamp,
            later_height,
        ) <= coinbase_reward_spec(
            starting_supply,
            anchor_time,
            num_blocks_per_epoch,
            earlier_previous_timestamp,
            earlier_timestamp,
            earlier_height,
        ),
{
    let reward = anchor_reward_spec(starting_supply, anchor_time);
    let earlier_product = remaining_blocks(anchor_time, earlier_height) * reward;
    let later_product = remaining_blocks(anchor_time, later_height) * reward;
    lemma_anchor_reward_fits(starting_supply, anchor_time);
    assert(0 <= earlier_product <= starting_supply);
    assert(0 <= later_product <= starting_supply);
    lemma_mul_inequality(
        remaining_blocks(anchor_time, later_height),
        remaining_blocks(anchor_time, earlier_height),
        reward,
    );
    if later_product != 0 {
        lemma_retarget_is_ordered(
            later_product,
            earlier_product,
            later_previous_timestamp,
            later_timestamp,
            earlier_previous_timestamp,
            earlier_timestamp,
            anchor_time,
            num_blocks_per_epoch,
            true,
        );
    } else if earlier_product != 0 {
        lemma_retarget_is_ordered(
            earlier_product,
            earlier_product,
            earlier_previous_timestamp,
            earlier_timestamp,
            earlier_previous_timestamp,
            earlier_timestamp,
            anchor_time,
            num_blocks_per_epoch,
            true,
        );
    }
}

/// The direction of the reward's decay. A block on time is paid the anchor
/// reward for each remaining block; a block that took longer is paid no
/// more than that, and a block that took less is paid no less.
pub proof fn lemma_coinbase_reward_direction(
    starting_supply: int,
    anchor_time: int,
    num_blocks_per_epoch: int,
    previous_timestamp: int,
    timestamp: int,
    block_height: int,
)
    requires
        0 <= starting_supply <= u64::MAX,
        0 < anchor_time <= SECONDS_IN_A_YEAR,
        0 < num_blocks_per_epoch,
        0 <= block_height,
    ensures
        block_time_elapsed_spec(previous_timestamp, timestamp) >= anchor_time
            ==> coinbase_reward_spec(
            starting_supply,
            anchor_time,
            num_blocks_per_epoch,
            previous_timestamp,
            timestamp,
            block_height,
        ) <= remaining_blocks(anchor_time, block_height) * anchor_reward_spec(
            starting_supply,
            anchor_time,
        ),
        block_time_elapsed_spec(previous_timestamp, timestamp) <= anchor_time
            ==> coinbase_reward_spec(
            starting_supply,
            anchor_time,
            num_blocks_per_epoch,
            previous_timestamp,
            timestamp,
            block_height,
        ) >= remaining_blocks(anchor_time, block_height) * anchor_reward_spec(
            starting_supply,
            anchor_time,
        ),
{
    let reward = remaining_blocks(anchor_time, block_height) * anchor_reward_spec(
        starting_supply,
        anchor_time,
    );
    lemma_anchor_reward_fits(starting_supply, anchor_time);
    assert(0 <= reward <= starting_supply);
    if reward != 0 {
        lemma_retarget_direction(
            reward,
            previous_timestamp,
            timestamp,
            anchor_time,
            num_blocks_per_epoch,
            true,
        );
    }
}

/// The timestamp of the block at `block_height` on a chain that keeps its
/// anchor time exactly.
pub open spec fn scheduled_timestamp(genesis_timestamp: int, anchor_time: int, block_height: int) -> int {
    genesis_timestamp + block_height * anchor_time
}

/// On a chain that keeps its anchor time exactly, probed at heights that
/// double, the coinbase reward never grows from one probe to the next: the
/// probe at twice `block_height`, timed from the probe at `block_height`,
/// gives no more than the probe at `block_height`, timed from any earlier
/// probe.
pub proof fn lemma_coinbase_reward_falls_on_doubling(
    starting_supply: int,
    anchor_time: int,
    num_blocks_per_epoch: int,
    genesis_timestamp: int,
    earlier_height: int,
    block_height: int,
)
    requires
        0 <= starting_supply <= u64::MAX,
        0 < anchor_time <= SECONDS_IN_A_YEAR,
        0 < num_blocks_per_epoch,
        0 <= earlier_height <= block_height,
    ensures
        coinbase_reward_spec(
            starting_supply,
            anchor_time,
            num_blocks_per_epoch,
            scheduled_timestamp(genesis_timestamp, anchor_time, block_height),
            scheduled_timestamp(genesis_timestamp, anchor_time, 2 * block_height),
            2 * block_height,
        ) <= coinbase_reward_spec(
            starting_supply,
            anchor_time,
            num_blocks_per_epoch,
            scheduled_timestamp(genesis_timestamp, anchor_time, earlier_height),
            scheduled_timestamp(genesis_timestamp, anchor_time, block_height),
            block_height,
        ),
{
    assert((2 * block_height) * anchor_time - block_height * anchor_time >= block_height
        * anchor_time - earlier_height * anchor_time) by (nonlinear_arith)
        requires
            0 <= earlier_height <= block_height,
            0 < anchor_time,
    ;
    lemma_coinbase_reward_is_ordered(
        starting_supply,
        anchor_time,
        num_blocks_per_epoch,
        scheduled_timestamp(genesis_timestamp, anchor_time, earlier_height),
        scheduled_timestamp(genesis_timestamp, anchor_time, block_height),
        block_height,
        scheduled_timestamp(genesis_timestamp, anchor_time, block_height),
        scheduled_timestamp(genesis_timestamp, anchor_time, 2 * block_height),
        2 * block_height,
    );
}

} // verus!
