use block_economics::error::EconomicsError;
use block_economics::network::NetworkParameters;

#[test]
fn parameters_keep_their_constants() {
    let parameters = NetworkParameters::new(1_100_000_000_000_000, 20, 256, 1_663_718_400).unwrap();
    assert_eq!(parameters.starting_supply(), 1_100_000_000_000_000);
    assert_eq!(parameters.anchor_time(), 20);
    assert_eq!(parameters.num_blocks_per_epoch(), 256);
    assert_eq!(parameters.genesis_timestamp(), 1_663_718_400);
}

#[test]
fn parameters_accept_the_extremes() {
    let parameters = NetworkParameters::new(0, 1, 1, i64::MIN).unwrap();
    assert_eq!(parameters.starting_supply(), 0);
    assert_eq!(parameters.anchor_time(), 1);
    assert_eq!(parameters.num_blocks_per_epoch(), 1);
    assert_eq!(parameters.genesis_timestamp(), i64::MIN);
    let parameters = NetworkParameters::new(u64::MAX, i64::MAX, u32::MAX, i64::MAX).unwrap();
    assert_eq!(parameters.starting_supply(), u64::MAX);
    assert_eq!(parameters.anchor_time(), i64::MAX);
    assert_eq!(parameters.num_blocks_per_epoch(), u32::MAX);
    assert_eq!(parameters.genesis_timestamp(), i64::MAX);
}

#[test]
fn zero_anchor_time_is_a_configuration_error() {
    let result = NetworkParameters::new(1_000, 0, 256, 0);
    assert_eq!(result.err(), Some(EconomicsError::ConfigurationError));
}

#[test]
fn negative_anchor_time_is_a_configuration_error() {
    assert_eq!(NetworkParameters::new(1_000, -1, 256, 0).err(), Some(EconomicsError::ConfigurationError));
    assert_eq!(NetworkParameters::new(1_000, i64::MIN, 256, 0).err(), Some(EconomicsError::ConfigurationError));
}

#[test]
fn zero_blocks_per_epoch_is_a_configuration_error() {
    assert_eq!(NetworkParameters::new(1_000, 20, 0, 0).err(), Some(EconomicsError::ConfigurationError));
    assert_eq!(NetworkParameters::new(1_000, 0, 0, 0).err(), Some(EconomicsError::ConfigurationError));
}

#[test]
fn parameters_can_be_copied() {
    let parameters = NetworkParameters::new(5, 6, 7, 8).unwrap();
    let copy = parameters;
    assert_eq!(copy.starting_supply(), parameters.starting_supply());
    assert_eq!(copy.anchor_time(), parameters.anchor_time());
    assert_eq!(copy.num_blocks_per_epoch(), parameters.num_blocks_per_epoch());
    assert_eq!(copy.genesis_timestamp(), parameters.genesis_timestamp());
}

#[test]
fn parameters_are_equal_where_their_constants_are() {
    assert_eq!(NetworkParameters::new(5, 6, 7, 8), NetworkParameters::new(5, 6, 7, 8));
    assert_ne!(NetworkParameters::new(5, 6, 7, 8), NetworkParameters::new(5, 6, 7, 9));
    assert_ne!(NetworkParameters::new(5, 6, 7, 8), NetworkParameters::new(5, 6, 0, 8));
    assert_eq!(NetworkParameters::new(5, 0, 7, 8), NetworkParameters::new(9, -1, 0, 8));
}

#[test]
fn operations_are_found_at_the_crate_root() {
    let parameters = block_economics::NetworkParameters::new(1_100_000_000_000_000, 20, 256, 0).unwrap();
    assert_eq!(block_economics::estimated_block_height(20, 1), 1_576_800);
    assert_eq!(block_economics::staking_reward(&parameters), Ok(17_440_385));
    assert_eq!(block_economics::anchor_reward(&parameters), Ok(8));
    assert_eq!(block_economics::coinbase_reward(&parameters, 0, 20, 15_768_000), Ok(0));
    assert_eq!(block_economics::coinbase_target(&parameters, 1 << 20, 0, 20), 1 << 20);
    assert_eq!(block_economics::proof_target(1 << 20), 1 << 10);
    assert_eq!(block_economics::retarget(1 << 20, 0, 20, 20, 256, false), 1 << 20);
    assert_eq!(
        block_economics::NetworkParameters::new(0, 0, 0, 0),
        Err(block_economics::EconomicsError::ConfigurationError)
    );
}
