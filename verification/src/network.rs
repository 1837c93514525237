//! The constants that fix the economics of one network.

use crate::error::EconomicsError;
use vstd::prelude::*;

verus! {

/// The constants of a network. They are fixed for the network's lifetime.
///
/// Every value of this type holds a positive anchor time and a positive
/// number of blocks per epoch: `new` accepts nothing else.
#[derive(Clone, Copy, Debug, PartialEq, Eq, Structural)]
pub struct NetworkParameters {
    starting_supply: u64,
    anchor_time: i64,
    num_blocks_per_epoch: u32,
    genesis_timestamp: i64,
}

impl NetworkParameters {
    #[verifier::type_invariant]
    spec fn valid(&self) -> bool {
        self.anchor_time > 0 && self.num_blocks_per_epoch > 0
    }

    /// The supply of the network at genesis, in its smallest unit.
    pub closed spec fn spec_starting_supply(&self) -> u64 {
        self.starting_supply
    }

    /// The seconds that a block is meant to take.
    pub closed spec fn spec_anchor_time(&self) -> i64 {
        self.anchor_time
    }

    /// The number of blocks in an epoch.
    pub closed spec fn spec_num_blocks_per_epoch(&self) -> u32 {
        self.num_blocks_per_epoch
    }

    /// The timestamp of the genesis block.
    pub closed spec fn spec_genesis_timestamp(&self) -> i64 {
        self.genesis_timestamp
    }

    /// Whether an anchor time and a number of blocks per epoch can be those of
    /// a network: both are positive.
    pub open spec fn accepts(anchor_time: i64, num_blocks_per_epoch: u32) -> bool {
        anchor_time > 0 && num_blocks_per_epoch > 0
    }

    /// Builds the parameters of a network, or reports a configuration error
    /// where the anchor time or the number of blocks per epoch is not positive.
    pub fn new(
        starting_supply: u64,
        anchor_time: i64,
        num_blocks_per_epoch: u32,
        genesis_timestamp: i64,
    ) -> (result: Result<NetworkParameters, EconomicsError>)
        ensures
            Self::accepts(anchor_time, num_blocks_per_epoch) ==> result is Ok,
            !Self::accepts(anchor_time, num_blocks_per_epoch) ==> result == Err::<
                NetworkParameters,
                EconomicsError,
            >(EconomicsError::ConfigurationError),
            result matches Ok(parameters) ==> {
                &&& parameters.spec_starting_supply() == starting_supply
                &&& parameters.spec_anchor_time() == anchor_time
                &&& parameters.spec_num_blocks_per_epoch() == num_blocks_per_epoch
                &&& parameters.spec_genesis_timestamp() == genesis_timestamp
            },
    {
        if anchor_time <= 0 || num_blocks_per_epoch == 0 {
            Err(EconomicsError::ConfigurationError)
        } else {
            Ok(NetworkParameters { starting_supply, anchor_time, num_blocks_per_epoch, genesis_timestamp })
        }
    }

    /// The supply of the network at genesis, in its smallest unit.
    #[verifier::when_used_as_spec(spec_starting_supply)]
    pub fn starting_supply(&self) -> (supply: u64)
        ensures
            supply == self.spec_starting_supply(),
    {
        self.starting_supply
    }

    /// The seconds that a block is meant to take. Always positive.
    #[verifier::when_used_as_spec(spec_anchor_time)]
    pub fn anchor_time(&self) -> (seconds: i64)
        ensures
            seconds == self.spec_anchor_time(),
            seconds > 0,
    {
        proof {
            use_type_invariant(self);
        }
        self.anchor_time
    }

    /// The number of blocks in an epoch. Always positive.
    #[verifier::when_used_as_spec(spec_num_blocks_per_epoch)]
    pub fn num_blocks_per_epoch(&self) -> (blocks: u32)
        ensures
            blocks == self.spec_num_blocks_per_epoch(),
            blocks > 0,
    {
        proof {
            use_type_invariant(self);
        }
        self.num_blocks_per_epoch
    }

    /// The timestamp of the genesis block.
    #[verifier::when_used_as_spec(spec_genesis_timestamp)]
    pub fn genesis_timestamp(&self) -> (timestamp: i64)
        ensures
            timestamp == self.spec_genesis_timestamp(),
    {
        self.genesis_timestamp
    }
}

} // verus!
