//! Block rewards and difficulty retargeting for a proof-of-work style ledger.
//!
//! Every operation is a pure function of its arguments, computed with integer
//! arithmetic only, so that all nodes of a network agree on each result bit
//! for bit.

pub mod determinism;
pub mod error;
pub mod fixed_point;
pub mod height;
pub mod network;
pub mod retarget;
pub mod reward;
pub mod shifts;
pub mod target;

pub use error::EconomicsError;
pub use height::estimated_block_height;
pub use network::NetworkParameters;
pub use retarget::retarget;
pub use reward::{anchor_reward, coinbase_reward, staking_reward};
pub use target::{coinbase_target, proof_target};
