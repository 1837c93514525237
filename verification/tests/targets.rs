use block_economics::network::NetworkParameters;
use block_economics::target::{coinbase_target, proof_target, MINIMUM_COINBASE_TARGET};
use rand::rngs::StdRng;
use rand::{Rng, SeedableRng};

const STARTING_SUPPLY: u64 = 1_100_000_000_000_000;
const ANCHOR_TIME: i64 = 20;
const NUM_BLOCKS_PER_EPOCH: u32 = 256;
const GENESIS_TIMESTAMP: i64 = 1_663_718_400;

const ITERATIONS: usize = 1000;

fn network() -> NetworkParameters {
    NetworkParameters::new(STARTING_SUPPLY, ANCHOR_TIME, NUM_BLOCKS_PER_EPOCH, GENESIS_TIMESTAMP).unwrap()
}

fn toy_network() -> NetworkParameters {
    NetworkParameters::new(STARTING_SUPPLY, 10, 10, 0).unwrap()
}

#[test]
fn test_targets() {
    let mut rng = StdRng::seed_from_u64(1_663_718_400);
    let parameters = network();

    let minimum_coinbase_target: u64 = 2u64.pow(10) - 1;

    for _ in 0..ITERATIONS {
        let previous_coinbase_target: u64 = rng.gen_range(minimum_coinbase_target..u64::MAX);
        let previous_prover_target = proof_target(previous_coinbase_target);

        let previous_timestamp = rng.gen();

        // Targets stay the same when the timestamp is as expected.
        let new_timestamp = previous_timestamp + ANCHOR_TIME;
        let new_coinbase_target =
            coinbase_target(&parameters, previous_coinbase_target, previous_timestamp, new_timestamp);
        let new_prover_target = proof_target(new_coinbase_target);
        assert_eq!(new_coinbase_target, previous_coinbase_target);
        assert_eq!(new_prover_target, previous_prover_target);

        // Targets decrease (easier) when the timestamp is greater than expected.
        let new_timestamp = previous_timestamp + 2 * ANCHOR_TIME;
        let new_coinbase_target =
            coinbase_target(&parameters, previous_coinbase_target, previous_timestamp, new_timestamp);
        let new_prover_target = proof_target(new_coinbase_target);
        assert!(new_coinbase_target < previous_coinbase_target);
        assert!(new_prover_target < previous_prover_target);

        // Targets increase (harder) when the timestamp is less than expected.
        let new_timestamp = previous_timestamp + ANCHOR_TIME / 2;
        let new_coinbase_target =
            coinbase_target(&parameters, previous_coinbase_target, previous_timestamp, new_timestamp);
        let new_prover_target = proof_target(new_coinbase_target);

        assert!(new_coinbase_target > previous_coinbase_target);
        assert!(new_prover_target > previous_prover_target);
    }
}

#[test]
fn coinbase_target_is_unchanged_on_time() {
    assert_eq!(coinbase_target(&toy_network(), 1024, 0, 10), 1024);
    assert_eq!(coinbase_target(&network(), u64::MAX, GENESIS_TIMESTAMP, GENESIS_TIMESTAMP + 20), u64::MAX);
    assert_eq!(coinbase_target(&network(), 1023, -20, 0), 1023);
}

#[test]
fn coinbase_target_of_a_block_twice_as_slow() {
    // One epoch of drift halves the target to 512, which the floor lifts.
    assert_eq!(coinbase_target(&toy_network(), 1024, 0, 20), 1023);
    // Above the floor the half stands.
    assert_eq!(coinbase_target(&toy_network(), 4096, 0, 20), 2048);
    assert_eq!(coinbase_target(&toy_network(), u64::MAX, 0, 20), u64::MAX / 2);
}

#[test]
fn coinbase_target_of_a_block_twice_as_fast() {
    // Half an epoch of drift multiplies by 92674 / 65536.
    assert_eq!(coinbase_target(&toy_network(), 1024, 0, 5), 1448);
    assert_eq!(coinbase_target(&toy_network(), 65_536, 0, 5), 92_674);
}

#[test]
fn coinbase_target_exact_values() {
    let parameters = network();
    assert_eq!(coinbase_target(&parameters, 1_000_000_000_000, 0, 40), 947_380_065_917);
    assert_eq!(coinbase_target(&parameters, 1_000_000_000_000, 0, 10), 1_027_511_596_679);
    assert_eq!(coinbase_target(&parameters, u64::MAX, 0, 10), u64::MAX);
    assert_eq!(coinbase_target(&parameters, u64::MAX - 1, 0, 10), u64::MAX);
}

#[test]
fn coinbase_target_never_falls_below_the_minimum() {
    let parameters = network();
    assert_eq!(MINIMUM_COINBASE_TARGET, 1023);
    assert_eq!(coinbase_target(&parameters, 1023, 0, 40), 1023);
    assert_eq!(coinbase_target(&parameters, 2000, 0, 1_000_000), 1023);
    assert_eq!(coinbase_target(&parameters, 0, 0, 20), 1023);
    assert_eq!(coinbase_target(&parameters, 5, 0, 1), 1023);
    assert_eq!(coinbase_target(&parameters, u64::MAX, i64::MIN, i64::MAX), 1023);
    assert_eq!(coinbase_target(&parameters, 1, i64::MAX, i64::MIN), 1023);
    for previous in [0, 1, 512, 1022, 1023, 1024, 1 << 20, u64::MAX] {
        for elapsed in [0, 1, 19, 20, 21, 40, 5_000, i64::MAX] {
            assert!(coinbase_target(&parameters, previous, 0, elapsed) >= 1023);
        }
    }
}

#[test]
fn coinbase_target_moves_against_the_block_time() {
    let parameters = network();
    let previous = 1 << 40;
    let mut last = u64::MAX;
    for elapsed in [1, 2, 10, 19, 20, 21, 40, 276, 10_000] {
        let target = coinbase_target(&parameters, previous, 0, elapsed);
        assert!(target <= last);
        if elapsed < 20 {
            assert!(target > previous);
        } else if elapsed > 20 {
            assert!(target < previous);
        } else {
            assert_eq!(target, previous);
        }
        last = target;
    }
}

#[test]
fn proof_target_drops_ten_bits() {
    assert_eq!(proof_target(0), 0);
    assert_eq!(proof_target(1023), 0);
    assert_eq!(proof_target(1024), 1);
    assert_eq!(proof_target(2047), 1);
    assert_eq!(proof_target(1 << 40), 1 << 30);
    assert_eq!(proof_target(u64::MAX), (1 << 54) - 1);
    for coinbase in [0u64, 1, 1023, 1024, 1025, 123_456_789, u64::MAX - 1, u64::MAX] {
        assert_eq!(proof_target(coinbase), coinbase >> 10);
    }
}

#[test]
fn targets_are_the_same_on_every_call() {
    let parameters = network();
    assert_eq!(coinbase_target(&parameters, 123_456_789, 5, 17), coinbase_target(&parameters, 123_456_789, 5, 17));
    assert_eq!(proof_target(123_456_789), proof_target(123_456_789));
}

#[test]
fn coinbase_target_moves_where_the_exponent_moves() {
    let network = |num_blocks_per_epoch| NetworkParameters::new(STARTING_SUPPLY, ANCHOR_TIME, num_blocks_per_epoch, 0).unwrap();
    // One second late lowers every target above the minimum.
    assert_eq!(coinbase_target(&network(256), 1024, 0, 21), 1023);
    assert_eq!(coinbase_target(&network(256), 1023, 0, 21), 1023);
    assert_eq!(coinbase_target(&network(65_536), 1 << 40, 0, 21), 1_099_503_239_168);
    // One second early raises every target from 65536 on.
    assert_eq!(coinbase_target(&network(256), 65_536, 0, 19), 65_714);
    assert_eq!(coinbase_target(&network(65_536), 65_536, 0, 19), 65_537);
    assert_eq!(coinbase_target(&network(65_536), 65_535, 0, 19), 65_535);
    // With more than 65536 blocks in an epoch, one second moves nothing.
    assert_eq!(coinbase_target(&network(65_537), 65_536, 0, 19), 65_536);
    assert_eq!(coinbase_target(&network(65_537), 1 << 40, 0, 21), 1 << 40);
}
