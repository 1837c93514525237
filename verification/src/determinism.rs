//! Every operation is a function of its arguments.
//!
//! The contract of each operation admits one result for given arguments, so
//! two calls with the same arguments give the same result, on every node and
//! from every thread.

use crate::error::EconomicsError;
use crate::height::SECONDS_IN_A_YEAR;
use crate::network::NetworkParameters;
use crate::retarget::retarget;
use crate::reward::{anchor_reward, coinbase_reward, staking_reward};
use crate::target::{coinbase_target, proof_target};
use vstd::prelude::*;

verus! {

/// Two results of `staking_reward` for the same network are equal.
pub proof fn lemma_staking_reward_is_deterministic(
    parameters: &NetworkParameters,
    first: Result<u64, EconomicsError>,
    second: Result<u64, EconomicsError>,
)
    requires
        parameters.anchor_time() <= SECONDS_IN_A_YEAR,
        call_ensures(staking_reward, (parameters,), first),
        call_ensures(staking_reward, (parameters,), second),
    ensures
        first == second,
{
}

/// Two results of `anchor_reward` for the same network are equal.
pub proof fn lemma_anchor_reward_is_deterministic(
    parameters: &NetworkParameters,
    first: Result<u64, EconomicsError>,
    second: Result<u64, EconomicsError>,
)
    requires
        parameters.anchor_time() <= SECONDS_IN_A_YEAR,
        call_ensures(anchor_reward, (parameters,), first),
        call_ensures(anchor_reward, (parameters,), second),
    ensures
        first == second,
{
}

/// Two results of `coinbase_reward` for the same network and block are equal.
pub proof fn lemma_coinbase_reward_is_deterministic(
    parameters: &NetworkParameters,
    previous_timestamp: i64,
    timestamp: i64,
    block_height: u64,
    first: Result<u64, EconomicsError>,
    second: Result<u64, EconomicsError>,
)
    requires
        parameters.anchor_time() <= SECONDS_IN_A_YEAR,
        call_ensures(
            coinbase_reward,
            (parameters, previous_timestamp, timestamp, block_height),
            first,
        ),
        call_ensures(
            coinbase_reward,
            (parameters, previous_timestamp, timestamp, block_height),
            second,
        ),
    ensures
        first == second,
{
}

/// Two results of `coinbase_target` for the same network and block are equal.
pub proof fn lemma_coinbase_target_is_deterministic(
    parameters: &NetworkParameters,
    previous_coinbase_target: u64,
    previous_block_timestamp: i64,
    block_timestamp: i64,
    first: u64,
    second: u64,
)
    requires
        call_ensures(
            coinbase_target,
            (parameters, previous_coinbase_target, previous_block_timestamp, block_timestamp),
            first,
        ),
        call_ensures(
            coinbase_target,
            (parameters, previous_coinbase_target, previous_block_timestamp, block_timestamp),
            second,
        ),
    ensures
        first == second,
{
}

/// Two results of `proof_target` for the same coinbase target are equal.
pub proof fn lemma_proof_target_is_deterministic(coinbase_target: u64, first: u64, second: u64)
    requires
        call_ensures(proof_target, (coinbase_target,), first),
        call_ensures(proof_target, (coinbase_target,), second),
    ensures
        first == second,
{
}

/// Two results of `retarget` for the same arguments are equal.
pub proof fn lemma_retarget_is_deterministic(
    previous_target: u64,
    previous_block_timestamp: i64,
    block_timestamp: i64,
    anchor_time: i64,
    num_blocks_per_epoch: u32,
    is_inverse: bool,
    first: u64,
    second: u64,
)
    requires
        anchor_time > 0,
        num_blocks_per_epoch > 0,
        call_ensures(
            retarget,
            (
                previous_target,
                previous_block_timestamp,
                block_timestamp,
                anchor_time,
                num_blocks_per_epoch,
                is_inverse,
            ),
            first,
        ),
        call_ensures(
            retarget,
            (
                previous_target,
                previous_block_timestamp,
                block_timestamp,
                anchor_time,
                num_blocks_per_epoch,
                is_inverse,
            ),
            second,
        ),
    ensures
        first == second,
{
}

} // verus!
