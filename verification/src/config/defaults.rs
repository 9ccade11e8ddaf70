//! Default values of the experiment settings.

use vstd::prelude::*;

verus! {

/// Default size of a validator signature message in bytes.
pub fn default_signature_payload_bytes() -> (r: usize)
    ensures
        r == 3072,
{
    3072
}

/// Default size of a proof message in bytes (128 KiB).
pub fn default_proof_payload_bytes() -> (r: usize)
    ensures
        r == 131072,
{
    131072
}

/// Default signature aggregation rate in signatures per second.
pub fn default_signature_aggregation_rate() -> (r: u64)
    ensures
        r == 1000,
{
    1000
}

/// Default recursion rate of the global aggregation in proofs per second.
pub fn default_global_aggregation_rate() -> (r: u64)
    ensures
        r == 10,
{
    10
}

/// Default start of the signing burst in milliseconds.
pub fn default_burst_time_ms() -> (r: u64)
    ensures
        r == 2000,
{
    2000
}

/// Default upper bound of the random delay added to the burst start.
pub fn default_burst_jitter_ms() -> (r: u64)
    ensures
        r == 500,
{
    500
}

/// Default lower bound of the gossipsub mesh size.
pub fn default_mesh_n_low() -> (r: usize)
    ensures
        r == 2,
{
    2
}

/// Default target gossipsub mesh size.
pub fn default_mesh_n() -> (r: usize)
    ensures
        r == 4,
{
    4
}

/// Default upper bound of the gossipsub mesh size.
pub fn default_mesh_n_high() -> (r: usize)
    ensures
        r == 8,
{
    8
}

/// Default minimum number of outbound mesh peers.
pub fn default_mesh_outbound_min() -> (r: usize)
    ensures
        r == 1,
{
    1
}

/// Default gossipsub heartbeat interval in milliseconds.
pub fn default_heartbeat_interval_ms() -> (r: u64)
    ensures
        r == 1000,
{
    1000
}

/// Default upload bandwidth of a link in Mbit/s.
pub fn default_uplink_mbps() -> (r: u64)
    ensures
        r == 50,
{
    50
}

/// Default download bandwidth of a link in Mbit/s.
pub fn default_downlink_mbps() -> (r: u64)
    ensures
        r == 50,
{
    50
}

/// Default one-way latency of a link in milliseconds.
pub fn default_latency_ms() -> (r: u64)
    ensures
        r == 50,
{
    50
}

} // verus!
