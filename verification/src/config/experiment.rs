//! Experiment and per-node configuration, and the rules a configuration obeys.
//!
//! A fraction such as `local_threshold` is held as the IEEE-754 bit pattern of
//! the `f64` that the configuration file gives (`f64::to_bits`), so that its
//! range can be checked exactly with integers.

use vstd::prelude::*;

use crate::config::defaults::{default_downlink_mbps, default_latency_ms, default_uplink_mbps};

verus! {

/// Bit pattern of the `f64` value `1.0`.
pub const F64_ONE_BITS: u64 = 0x3FF0_0000_0000_0000;

/// Bit pattern of positive infinity; larger magnitudes are NaN.
pub const F64_INFINITY_BITS: u64 = 0x7FF0_0000_0000_0000;

/// Bit pattern with only the sign bit set (`-0.0`).
pub const F64_SIGN_BIT: u64 = 0x8000_0000_0000_0000;

/// The `f64` with bit pattern `b` is a NaN.
pub open spec fn f64_bits_is_nan(b: u64) -> bool {
    b % F64_SIGN_BIT > F64_INFINITY_BITS
}

/// The `f64` with bit pattern `b` compares `<= 0.0`.
pub open spec fn f64_bits_le_zero(b: u64) -> bool {
    !f64_bits_is_nan(b) && (b == 0 || b >= F64_SIGN_BIT)
}

/// The `f64` with bit pattern `b` compares `> 1.0`.
pub open spec fn f64_bits_gt_one(b: u64) -> bool {
    !f64_bits_is_nan(b) && b < F64_SIGN_BIT && b > F64_ONE_BITS
}

/// The `f64` with bit pattern `b` is rejected as a fraction: it is not in
/// `(0.0, 1.0]` (it is NaN, `<= 0.0` or `> 1.0`).
pub open spec fn fraction_rejected(b: u64) -> bool {
    f64_bits_is_nan(b) || f64_bits_le_zero(b) || f64_bits_gt_one(b)
}

/// Whether the `f64` with bit pattern `b` lies outside `(0.0, 1.0]`.
pub fn fraction_out_of_range(b: u64) -> (r: bool)
    ensures
        r == fraction_rejected(b),
{
    let magnitude = b % F64_SIGN_BIT;
    let is_nan = magnitude > F64_INFINITY_BITS;
    is_nan || b == 0 || b >= F64_SIGN_BIT || b > F64_ONE_BITS
}

/// Network defaults applied to all node-to-node links in Shadow.
#[derive(Debug, Clone, Copy, PartialEq, Eq)]
pub struct NetworkDefaults {
    pub uplink_mbps: u64,
    pub downlink_mbps: u64,
    pub latency_ms: u64,
}

impl Default for NetworkDefaults {
    fn default() -> (r: Self)
        ensures
            r.uplink_mbps == 50,
            r.downlink_mbps == 50,
            r.latency_ms == 50,
    {
        NetworkDefaults {
            uplink_mbps: default_uplink_mbps(),
            downlink_mbps: default_downlink_mbps(),
            latency_ms: default_latency_ms(),
        }
    }
}

/// Top-level experiment configuration.
///
/// `local_threshold`, `global_proof_target`, `geo_jitter` and
/// `supernode_fraction` hold `f64` bit patterns.
#[derive(Debug)]
pub struct ExperimentConfig {
    pub run_id: String,
    pub run_timeout_secs: u64,
    pub validator_count: usize,
    pub subnet_count: usize,
    pub local_aggregators_per_subnet: usize,
    pub global_aggregator_count: usize,
    pub local_threshold: u64,
    pub global_proof_target: u64,
    pub burst_time_ms: u64,
    pub burst_jitter_ms: u64,
    pub signature_aggregation_rate: u64,
    pub global_aggregation_rate: u64,
    pub signature_payload_bytes: usize,
    pub proof_payload_bytes: usize,
    pub gossipsub_mesh_n_low: usize,
    pub gossipsub_mesh_n: usize,
    pub gossipsub_mesh_n_high: usize,
    pub gossipsub_mesh_outbound_min: usize,
    pub gossipsub_heartbeat_interval_ms: u64,
    /// Number of remote local aggregators of its subnet that a signing node
    /// keeps as explicit gossipsub peers (0: the mesh alone).
    pub gossipsub_explicit_aggregator_count: usize,
    /// Whether local publications also go directly to every subscribed peer.
    pub gossipsub_flood_publish: bool,
    pub network_defaults: NetworkDefaults,
    /// Country-based per-edge latencies.
    pub use_geo_latency: bool,
    /// Seed for country assignment and latency jitter (0: random).
    pub geo_seed: u64,
    pub geo_jitter: u64,
    pub supernode_fraction: u64,
    pub supernode_uplink_mbps: u64,
    pub supernode_downlink_mbps: u64,
    /// Peers per node in the topology graph (0: complete graph).
    pub topology_degree: usize,
}

impl Clone for ExperimentConfig {
    fn clone(&self) -> (r: Self)
        ensures
            r == *self,
    {
        ExperimentConfig {
            run_id: self.run_id.clone(),
            run_timeout_secs: self.run_timeout_secs,
            validator_count: self.validator_count,
            subnet_count: self.subnet_count,
            local_aggregators_per_subnet: self.local_aggregators_per_subnet,
            global_aggregator_count: self.global_aggregator_count,
            local_threshold: self.local_threshold,
            global_proof_target: self.global_proof_target,
            burst_time_ms: self.burst_time_ms,
            burst_jitter_ms: self.burst_jitter_ms,
            signature_aggregation_rate: self.signature_aggregation_rate,
            global_aggregation_rate: self.global_aggregation_rate,
            signature_payload_bytes: self.signature_payload_bytes,
            proof_payload_bytes: self.proof_payload_bytes,
            gossipsub_mesh_n_low: self.gossipsub_mesh_n_low,
            gossipsub_mesh_n: self.gossipsub_mesh_n,
            gossipsub_mesh_n_high: self.gossipsub_mesh_n_high,
            gossipsub_mesh_outbound_min: self.gossipsub_mesh_outbound_min,
            gossipsub_heartbeat_interval_ms: self.gossipsub_heartbeat_interval_ms,
            gossipsub_explicit_aggregator_count: self.gossipsub_explicit_aggregator_count,
            gossipsub_flood_publish: self.gossipsub_flood_publish,
            network_defaults: self.network_defaults,
            use_geo_latency: self.use_geo_latency,
            geo_seed: self.geo_seed,
            geo_jitter: self.geo_jitter,
            supernode_fraction: self.supernode_fraction,
            supernode_uplink_mbps: self.supernode_uplink_mbps,
            supernode_downlink_mbps: self.supernode_downlink_mbps,
            topology_degree: self.topology_degree,
        }
    }
}

/// The reasons a configuration is rejected, in the order they are checked.
#[derive(Debug, Clone, Copy, PartialEq, Eq)]
pub enum ConfigError {
    EmptyRunId,
    ZeroSubnetCount,
    ZeroValidatorCount,
    FewerValidatorsThanSubnets,
    TooManyLocalAggregators,
    TooManyExplicitAggregators,
    LocalThresholdOutOfRange,
    GlobalTargetOutOfRange,
    ZeroSignatureAggregationRate,
    ZeroGlobalAggregationRate,
    ZeroSignaturePayload,
    ZeroProofPayload,
}

impl ConfigError {
    /// The message that reports this error.
    pub open spec fn text(self) -> Seq<char> {
        match self {
            ConfigError::EmptyRunId => "run_id must not be empty"@,
            ConfigError::ZeroSubnetCount => "subnet_count must be > 0"@,
            ConfigError::ZeroValidatorCount => "validator_count must be > 0"@,
            ConfigError::FewerValidatorsThanSubnets => "validator_count must be >= subnet_count"@,
            ConfigError::TooManyLocalAggregators =>
                "local_aggregators_per_subnet must not exceed validators per subnet"@,
            ConfigError::TooManyExplicitAggregators =>
                "gossipsub_explicit_aggregator_count must be smaller than local_aggregators_per_subnet"@,
            ConfigError::LocalThresholdOutOfRange => "local_threshold must be in (0.0, 1.0]"@,
            ConfigError::GlobalTargetOutOfRange => "global_proof_target must be in (0.0, 1.0]"@,
            ConfigError::ZeroSignatureAggregationRate => "signature_aggregation_rate must be > 0"@,
            ConfigError::ZeroGlobalAggregationRate => "global_aggregation_rate must be > 0"@,
            ConfigError::ZeroSignaturePayload => "signature_payload_bytes must be > 0"@,
            ConfigError::ZeroProofPayload => "proof_payload_bytes must be > 0"@,
        }
    }

    /// The message that reports this error, as a string.
    pub fn message(&self) -> (r: String)
        ensures
            r@ == self.text(),
    {
        match self {
            ConfigError::EmptyRunId => String::from_str("run_id must not be empty"),
            ConfigError::ZeroSubnetCount => String::from_str("subnet_count must be > 0"),
            ConfigError::ZeroValidatorCount => String::from_str("validator_count must be > 0"),
            ConfigError::FewerValidatorsThanSubnets => String::from_str(
                "validator_count must be >= subnet_count",
            ),
            ConfigError::TooManyLocalAggregators => String::from_str(
                "local_aggregators_per_subnet must not exceed validators per subnet",
            ),
            ConfigError::TooManyExplicitAggregators => String::from_str(
                "gossipsub_explicit_aggregator_count must be smaller than local_aggregators_per_subnet",
            ),
            ConfigError::LocalThresholdOutOfRange => String::from_str(
                "local_threshold must be in (0.0, 1.0]",
            ),
            ConfigError::GlobalTargetOutOfRange => String::from_str(
                "global_proof_target must be in (0.0, 1.0]",
            ),
            ConfigError::ZeroSignatureAggregationRate => String::from_str(
                "signature_aggregation_rate must be > 0",
            ),
            ConfigError::ZeroGlobalAggregationRate => String::from_str(
                "global_aggregation_rate must be > 0",
            ),
            ConfigError::ZeroSignaturePayload => String::from_str(
                "signature_payload_bytes must be > 0",
            ),
            ConfigError::ZeroProofPayload => String::from_str("proof_payload_bytes must be > 0"),
        }
    }
}

impl ExperimentConfig {
    /// Validators per subnet, rounded down (subnet count nonzero).
    pub open spec fn spec_validators_per_subnet(self) -> int {
        self.validator_count as int / self.subnet_count as int
    }

    /// The first rule that the configuration breaks, if any.
    ///
    /// Local aggregators are validators of their subnet, so there cannot be
    /// more of them than validators per subnet; explicit aggregator peers are
    /// remote local aggregators, so a signing node that is itself a local
    /// aggregator needs strictly more of them than it selects.
    pub open spec fn spec_error(self) -> Option<ConfigError> {
        if self.run_id@.len() == 0 {
            Some(ConfigError::EmptyRunId)
        } else if self.subnet_count == 0 {
            Some(ConfigError::ZeroSubnetCount)
        } else if self.validator_count == 0 {
            Some(ConfigError::ZeroValidatorCount)
        } else if self.validator_count < self.subnet_count {
            Some(ConfigError::FewerValidatorsThanSubnets)
        } else if self.local_aggregators_per_subnet > self.spec_validators_per_subnet() {
            Some(ConfigError::TooManyLocalAggregators)
        } else if self.gossipsub_explicit_aggregator_count > 0
            && self.gossipsub_explicit_aggregator_count >= self.local_aggregators_per_subnet {
            Some(ConfigError::TooManyExplicitAggregators)
        } else if fraction_rejected(self.local_threshold) {
            Some(ConfigError::LocalThresholdOutOfRange)
        } else if fraction_rejected(self.global_proof_target) {
            Some(ConfigError::GlobalTargetOutOfRange)
        } else if self.signature_aggregation_rate == 0 {
            Some(ConfigError::ZeroSignatureAggregationRate)
        } else if self.global_aggregation_rate == 0 {
            Some(ConfigError::ZeroGlobalAggregationRate)
        } else if self.signature_payload_bytes == 0 {
            Some(ConfigError::ZeroSignaturePayload)
        } else if self.proof_payload_bytes == 0 {
            Some(ConfigError::ZeroProofPayload)
        } else {
            None
        }
    }

    /// The configuration obeys every rule.
    pub open spec fn is_valid(self) -> bool {
        self.spec_error() is None
    }

    /// Checks the configuration; the error names the first rule it breaks.
    pub fn validate(&self) -> (r: Result<(), String>)
        ensures
            r is Ok <==> self.is_valid(),
            r matches Err(msg) ==> msg@ == self.spec_error().unwrap().text(),
    {
        let found = self.first_error();
        match found {
            None => Ok(()),
            Some(e) => Err(e.message()),
        }
    }

    fn first_error(&self) -> (r: Option<ConfigError>)
        ensures
            r == self.spec_error(),
    {
        if self.run_id.as_str().is_empty() {
            return Some(ConfigError::EmptyRunId);
        }
        if self.subnet_count == 0 {
            return Some(ConfigError::ZeroSubnetCount);
        }
        if self.validator_count == 0 {
            return Some(ConfigError::ZeroValidatorCount);
        }
        if self.validator_count < self.subnet_count {
            return Some(ConfigError::FewerValidatorsThanSubnets);
        }
        if self.local_aggregators_per_subnet > self.validator_count / self.subnet_count {
            return Some(ConfigError::TooManyLocalAggregators);
        }
        if self.gossipsub_explicit_aggregator_count > 0
            && self.gossipsub_explicit_aggregator_count >= self.local_aggregators_per_subnet {
            return Some(ConfigError::TooManyExplicitAggregators);
        }
        if fraction_out_of_range(self.local_threshold) {
            return Some(ConfigError::LocalThresholdOutOfRange);
        }
        if fraction_out_of_range(self.global_proof_target) {
            return Some(ConfigError::GlobalTargetOutOfRange);
        }
        if self.signature_aggregation_rate == 0 {
            return Some(ConfigError::ZeroSignatureAggregationRate);
        }
        if self.global_aggregation_rate == 0 {
            return Some(ConfigError::ZeroGlobalAggregationRate);
        }
        if self.signature_payload_bytes == 0 {
            return Some(ConfigError::ZeroSignaturePayload);
        }
        if self.proof_payload_bytes == 0 {
            return Some(ConfigError::ZeroProofPayload);
        }
        None
    }

    /// Nodes of the experiment as configured: the signing validators (local
    /// aggregators count among them) plus the dedicated global aggregators.
    /// The Shadow layout (`spec_node_count`) differs: it gives each subnet's
    /// local aggregators hosts of their own, so it has `subnet_count *
    /// local_aggregators_per_subnet` more whenever that is nonzero.
    pub open spec fn spec_total_nodes(self) -> int {
        self.validator_count + self.global_aggregator_count
    }

    /// Number of nodes: validators plus global aggregators (not the number
    /// of Shadow hosts, which adds the local aggregators' own hosts).
    pub fn total_nodes(&self) -> (r: usize)
        requires
            self.spec_total_nodes() <= usize::MAX,
        ensures
            r == self.spec_total_nodes(),
    {
        self.validator_count + self.global_aggregator_count
    }

    /// Validators per subnet, rounded down.
    pub fn validators_per_subnet(&self) -> (r: usize)
        requires
            self.subnet_count > 0,
        ensures
            r == self.spec_validators_per_subnet(),
    {
        self.validator_count / self.subnet_count
    }
}

/// A configuration is valid exactly when it obeys every rule: a run id, at
/// least one subnet and at least as many validators as subnets, no more
/// local aggregators per subnet than validators per subnet, fewer explicit
/// aggregator peers than local aggregators (or none), both fractions in
/// (0.0, 1.0], and positive rates and payload sizes.
pub proof fn lemma_valid_iff_rules(c: ExperimentConfig)
    ensures
        c.is_valid() <==> {
            &&& c.run_id@.len() > 0
            &&& c.subnet_count > 0
            &&& c.validator_count >= c.subnet_count
            &&& c.local_aggregators_per_subnet * c.subnet_count <= c.validator_count
                - c.validator_count % c.subnet_count
            &&& (c.gossipsub_explicit_aggregator_count == 0
                || c.gossipsub_explicit_aggregator_count < c.local_aggregators_per_subnet)
            &&& !fraction_rejected(c.local_threshold)
            &&& !fraction_rejected(c.global_proof_target)
            &&& c.signature_aggregation_rate > 0
            &&& c.global_aggregation_rate > 0
            &&& c.signature_payload_bytes > 0
            &&& c.proof_payload_bytes > 0
        },
{
    if c.subnet_count > 0 {
        let s = c.subnet_count as int;
        let v = c.validator_count as int;
        let l = c.local_aggregators_per_subnet as int;
        vstd::arithmetic::div_mod::lemma_fundamental_div_mod(v, s);
        assert(l <= v / s <==> l * s <= v - v % s) by (nonlinear_arith)
            requires
                s > 0,
                v == s * (v / s) + v % s,
        ;
    }
}

/// The explicit-aggregator rule: once the earlier rules hold, the
/// configuration is rejected for its explicit aggregator peers exactly when
/// it asks for some and not fewer than its local aggregators per subnet.
pub proof fn lemma_explicit_aggregator_rule(c: ExperimentConfig)
    requires
        c.run_id@.len() > 0,
        c.subnet_count > 0,
        c.validator_count >= c.subnet_count,
        c.local_aggregators_per_subnet <= c.validator_count / c.subnet_count,
    ensures
        c.spec_error() == Some(ConfigError::TooManyExplicitAggregators) <==> (0
            < c.gossipsub_explicit_aggregator_count && c.gossipsub_explicit_aggregator_count
            >= c.local_aggregators_per_subnet),
{
}

/// Role assigned to a single simulated node.
#[derive(Debug, Clone, Copy, PartialEq, Eq, Structural)]
pub enum NodeRole {
    Validator,
    LocalAggregator,
    GlobalAggregator,
}

/// Per-node configuration.
#[derive(Debug)]
pub struct NodeConfig {
    pub node_id: u32,
    pub role: NodeRole,
    pub subnet_id: u32,
    pub listen_addr: String,
    pub seed_addrs: Vec<String>,
    pub experiment: ExperimentConfig,
}

/// Default run timeout in seconds.
pub fn default_run_timeout() -> (r: u64)
    ensures
        r == 120,
{
    120
}

/// Default number of local aggregators per subnet.
pub fn default_local_aggregators() -> (r: usize)
    ensures
        r == 1,
{
    1
}

/// Default number of global aggregators.
pub fn default_global_aggregators() -> (r: usize)
    ensures
        r == 1,
{
    1
}

/// Default of a switch that is off unless set.
pub fn default_false() -> (r: bool)
    ensures
        !r,
{
    false
}

/// Default seed of the geographic assignment.
pub fn default_geo_seed() -> (r: u64)
    ensures
        r == 42,
{
    42
}

/// Default supernode bandwidth in Mbit/s.
pub fn default_supernode_bw() -> (r: u64)
    ensures
        r == 1000,
{
    1000
}

} // verus!
