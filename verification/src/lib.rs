//! Verified core of a simulator of hierarchical signature aggregation:
//! experiment configuration, the wire format, node decision logic,
//! topology generation and the analysis of recorded events.

pub mod config;
pub mod geo;
pub mod messages;
pub mod metrics;
pub mod node;
pub mod netviz;
pub mod network;
pub mod shadow;
pub mod text;
pub mod types;
