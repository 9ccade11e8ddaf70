pub mod defaults;
pub mod experiment;

use vstd::prelude::*;

verus! {

/// Number of subnets in the reference deployment.
pub const SUBNETS: usize = 4;

/// Validators per subnet in the reference deployment.
pub const VALIDATORS_PER_SUBNET: usize = 32;

/// Local aggregators per subnet in the reference deployment.
pub const LOCAL_AGGREGATORS_PER_SUBNET: usize = 4;

/// Global aggregators in the reference deployment.
pub const GLOBAL_AGGREGATORS: usize = 4;

/// Size of one post-quantum signature in bytes (3 KiB).
pub const SIG_SIZE: usize = 3072;

/// Size of one SNARK in bytes (128 KiB).
pub const SNARK_SIZE: usize = 131072;

/// Maximum bit rate per link in bits per second (50 Mbit/s).
pub const MAX_BITRATE: u64 = 52428800;

} // verus!
