use block_economics::error::EconomicsError;
use block_economics::height::{estimated_block_height, SECONDS_IN_A_YEAR};
use block_economics::network::NetworkParameters;
use block_economics::reward::{anchor_reward, coinbase_reward, staking_reward};
use rand::rngs::StdRng;
use rand::{Rng, SeedableRng};

const STARTING_SUPPLY: u64 = 1_100_000_000_000_000;
const ANCHOR_TIME: i64 = 20;
const NUM_BLOCKS_PER_EPOCH: u32 = 256;
const GENESIS_TIMESTAMP: i64 = 1_663_718_400;

const ITERATIONS: usize = 1000;

fn network(anchor_time: i64) -> NetworkParameters {
    NetworkParameters::new(STARTING_SUPPLY, anchor_time, NUM_BLOCKS_PER_EPOCH, GENESIS_TIMESTAMP).unwrap()
}

#[test]
fn test_anchor_reward() {
    let reward = anchor_reward(&network(ANCHOR_TIME)).unwrap();
    assert_eq!(reward, 8);

    // Increasing the anchor time will increase the reward.
    let larger_reward = anchor_reward(&network(ANCHOR_TIME + 1)).unwrap();
    assert!(reward < larger_reward);

    // Decreasing the anchor time will decrease the reward.
    let smaller_reward = anchor_reward(&network(ANCHOR_TIME - 1)).unwrap();
    assert!(reward > smaller_reward);
}

#[test]
fn test_staking_reward() {
    let reward = staking_reward(&network(ANCHOR_TIME)).unwrap();
    assert_eq!(reward, 17440385);

    // Increasing the anchor time will increase the reward.
    let larger_reward = staking_reward(&network(ANCHOR_TIME + 1)).unwrap();
    assert!(reward < larger_reward);

    // Decreasing the anchor time will decrease the reward.
    let smaller_reward = staking_reward(&network(ANCHOR_TIME - 1)).unwrap();
    assert!(reward > smaller_reward);
}

#[test]
fn test_coinbase_reward() {
    let parameters = network(ANCHOR_TIME);
    let estimated_blocks_in_10_years = estimated_block_height(ANCHOR_TIME as u64, 10);

    let mut block_height = 1;
    let mut previous_timestamp = GENESIS_TIMESTAMP;
    let mut timestamp = GENESIS_TIMESTAMP;

    let mut previous_reward = coinbase_reward(&parameters, previous_timestamp, timestamp, block_height).unwrap();

    block_height *= 2;
    timestamp = GENESIS_TIMESTAMP + block_height as i64 * ANCHOR_TIME;

    while block_height < estimated_blocks_in_10_years {
        let reward = coinbase_reward(&parameters, previous_timestamp, timestamp, block_height).unwrap();
        assert!(reward <= previous_reward);

        previous_reward = reward;
        previous_timestamp = timestamp;
        block_height *= 2;
        timestamp = GENESIS_TIMESTAMP + block_height as i64 * ANCHOR_TIME;
    }
}

#[test]
fn test_coinbase_reward_after_10_years() {
    let mut rng = StdRng::seed_from_u64(1_663_718_400);
    let parameters = network(ANCHOR_TIME);

    let estimated_blocks_in_10_years = estimated_block_height(ANCHOR_TIME as u64, 10);

    // Check that block `estimated_blocks_in_10_years` has a reward of 0.
    let reward = coinbase_reward(
        &parameters,
        GENESIS_TIMESTAMP,
        GENESIS_TIMESTAMP + ANCHOR_TIME,
        estimated_blocks_in_10_years,
    )
    .unwrap();
    assert_eq!(reward, 0);

    // Check that the subsequent blocks have a reward of 0.
    for _ in 0..ITERATIONS {
        let block_height: u64 = rng.gen_range(estimated_blocks_in_10_years..estimated_blocks_in_10_years * 10);

        let timestamp = GENESIS_TIMESTAMP + block_height as i64 * ANCHOR_TIME;
        let new_timestamp = timestamp + ANCHOR_TIME;

        let reward = coinbase_reward(&parameters, timestamp, new_timestamp, block_height).unwrap();

        assert_eq!(reward, 0);
    }
}

#[test]
fn estimated_block_height_is_whole_blocks_per_year_times_years() {
    assert_eq!(estimated_block_height(20, 1), 1_576_800);
    assert_eq!(estimated_block_height(20, 10), 15_768_000);
    // 31_536_000 / 7 rounds down to 4_505_142.
    assert_eq!(estimated_block_height(7, 3), 13_515_426);
    assert_eq!(estimated_block_height(20, 0), 0);
    assert_eq!(estimated_block_height(SECONDS_IN_A_YEAR, 10), 10);
    // A block that takes more than a year leaves no whole block in a year.
    assert_eq!(estimated_block_height(SECONDS_IN_A_YEAR + 1, 10), 0);
    assert_eq!(estimated_block_height(u64::MAX, u32::MAX), 0);
    assert_eq!(estimated_block_height(1, u32::MAX), 135_446_088_615_120_000);
}

#[test]
fn rewards_of_neighbouring_anchor_times() {
    assert_eq!(staking_reward(&network(21)).unwrap(), 18_312_408);
    assert_eq!(staking_reward(&network(19)).unwrap(), 16_568_371);
    assert_eq!(anchor_reward(&network(21)).unwrap(), 9);
    assert_eq!(anchor_reward(&network(19)).unwrap(), 7);
}

#[test]
fn rewards_never_fall_as_the_anchor_time_grows() {
    let anchor_times = [1, 2, 3, 19, 20, 21, 600, 86_400, 20_000_000, 20_000_001, 31_536_000];
    let mut previous_staking = 0;
    let mut previous_anchor = 0;
    for anchor_time in anchor_times {
        let staking = staking_reward(&network(anchor_time)).unwrap();
        let anchor = anchor_reward(&network(anchor_time)).unwrap();
        assert!(previous_staking <= staking);
        assert!(previous_anchor <= anchor);
        previous_staking = staking;
        previous_anchor = anchor;
    }
}

#[test]
fn rewards_can_stay_equal_as_the_anchor_time_grows() {
    // Both anchor times leave one whole block in a year.
    assert_eq!(staking_reward(&network(20_000_000)).unwrap(), 27_500_000_000_000);
    assert_eq!(staking_reward(&network(20_000_001)).unwrap(), 27_500_000_000_000);
    // Nothing is paid out of an empty supply.
    let empty = |anchor_time| NetworkParameters::new(0, anchor_time, NUM_BLOCKS_PER_EPOCH, GENESIS_TIMESTAMP).unwrap();
    assert_eq!(anchor_reward(&empty(20)).unwrap(), 0);
    assert_eq!(anchor_reward(&empty(21)).unwrap(), 0);
    assert_eq!(staking_reward(&empty(20)).unwrap(), 0);
    assert_eq!(staking_reward(&empty(21)).unwrap(), 0);
}

#[test]
fn rewards_of_the_largest_supply_fit() {
    let year = SECONDS_IN_A_YEAR as i64;
    let slowest = NetworkParameters::new(u64::MAX, year, 1, 0).unwrap();
    assert_eq!(staking_reward(&slowest), Ok(461_168_601_842_738_790));
    assert_eq!(anchor_reward(&slowest), Ok(335_395_346_794_719_120));
    let fastest = NetworkParameters::new(u64::MAX, 1, 1, 0).unwrap();
    assert_eq!(staking_reward(&fastest), Ok(14_623_560_433));
    assert_eq!(anchor_reward(&fastest), Ok(370));
    // Ten blocks remain at genesis, each worth the anchor reward.
    assert_eq!(coinbase_reward(&slowest, 0, year, 0), Ok(3_353_953_467_947_191_200));
    assert_eq!(coinbase_reward(&slowest, 0, year, 9), Ok(335_395_346_794_719_120));
    assert_eq!(coinbase_reward(&slowest, 0, year, 10), Ok(0));
    // A block after one second, a year early, saturates the reward.
    assert_eq!(coinbase_reward(&slowest, 0, 1, 0), Ok(u64::MAX));
}

#[test]
fn coinbase_reward_exact_values() {
    let parameters = network(ANCHOR_TIME);
    // A block on time is paid the anchor reward for each remaining block.
    assert_eq!(
        coinbase_reward(&parameters, GENESIS_TIMESTAMP, GENESIS_TIMESTAMP + 20, 1000),
        Ok((15_768_000 - 1000) * 8)
    );
    // A block that is one epoch of seconds late is paid half of that.
    assert_eq!(coinbase_reward(&parameters, GENESIS_TIMESTAMP, GENESIS_TIMESTAMP + 276, 1000), Ok(63_068_000));
    // A block that is early is paid more.
    assert_eq!(coinbase_reward(&parameters, GENESIS_TIMESTAMP, GENESIS_TIMESTAMP + 10, 1000), Ok(129_606_202));
    // Equal timestamps count as one second.
    assert_eq!(coinbase_reward(&parameters, GENESIS_TIMESTAMP, GENESIS_TIMESTAMP, 1), Ok(132_817_289));
    assert_eq!(coinbase_reward(&parameters, GENESIS_TIMESTAMP, GENESIS_TIMESTAMP + 40, 2), Ok(119_506_295));
}

#[test]
fn coinbase_reward_is_zero_from_the_tenth_year_on() {
    let parameters = network(ANCHOR_TIME);
    let cliff = estimated_block_height(ANCHOR_TIME as u64, 10);
    assert_eq!(coinbase_reward(&parameters, 0, 1, cliff - 1), Ok(8));
    for block_height in [cliff, cliff + 1, 2 * cliff, u64::MAX] {
        assert_eq!(coinbase_reward(&parameters, 0, 20, block_height), Ok(0));
        assert_eq!(coinbase_reward(&parameters, 0, 1, block_height), Ok(0));
        assert_eq!(coinbase_reward(&parameters, i64::MAX, i64::MIN, block_height), Ok(0));
        assert_eq!(coinbase_reward(&parameters, i64::MIN, i64::MAX, block_height), Ok(0));
    }
}

#[test]
fn coinbase_reward_is_zero_without_a_supply() {
    let parameters = NetworkParameters::new(0, ANCHOR_TIME, NUM_BLOCKS_PER_EPOCH, GENESIS_TIMESTAMP).unwrap();
    assert_eq!(coinbase_reward(&parameters, 0, 1, 0), Ok(0));
    assert_eq!(coinbase_reward(&parameters, 0, 40, 1000), Ok(0));
}

#[test]
fn coinbase_reward_falls_with_height_and_with_block_time() {
    let parameters = network(ANCHOR_TIME);
    let mut previous = u64::MAX;
    for (elapsed, block_height) in [(1, 1), (1, 2), (19, 2), (20, 1_000), (21, 1_000), (300, 5_000_000), (300, 15_767_999)] {
        let reward = coinbase_reward(&parameters, GENESIS_TIMESTAMP, GENESIS_TIMESTAMP + elapsed, block_height).unwrap();
        assert!(reward <= previous);
        previous = reward;
    }
}

#[test]
fn rewards_are_the_same_on_every_call() {
    let parameters = network(ANCHOR_TIME);
    assert_eq!(staking_reward(&parameters), staking_reward(&parameters));
    assert_eq!(anchor_reward(&parameters), anchor_reward(&parameters));
    assert_eq!(
        coinbase_reward(&parameters, GENESIS_TIMESTAMP, GENESIS_TIMESTAMP + 33, 77),
        coinbase_reward(&parameters, GENESIS_TIMESTAMP, GENESIS_TIMESTAMP + 33, 77)
    );
    let same = network(ANCHOR_TIME);
    assert_eq!(
        coinbase_reward(&parameters, GENESIS_TIMESTAMP, GENESIS_TIMESTAMP + 33, 77),
        coinbase_reward(&same, GENESIS_TIMESTAMP, GENESIS_TIMESTAMP + 33, 77)
    );
}

#[test]
fn overflow_error_differs_from_configuration_error() {
    assert_ne!(EconomicsError::ArithmeticOverflow, EconomicsError::ConfigurationError);
}
