//! The decisions of the gossipsub runtime: which topics a role follows, how
//! an arriving message is judged, and how long the mesh warms up.

use vstd::prelude::*;

use crate::config::experiment::NodeRole;
use crate::messages::wire::{wire_decoding, WireMessage};
use crate::network::topics::{
    aggregation_topic, spec_aggregation_topic, spec_subnet_topic, subnet_topic,
};

verus! {

/// Largest gossipsub message accepted, in bytes (2 MiB, for large proofs).
pub const MAX_TRANSMIT_SIZE: usize = 2097152;

/// The topics a node of `role` subscribes to, in subscription order.
pub open spec fn spec_subscription_topics(role: NodeRole, subnet_id: u32, run_id: Seq<char>) -> Seq<
    Seq<char>,
> {
    match role {
        NodeRole::Validator => seq![spec_subnet_topic(run_id, subnet_id)],
        NodeRole::LocalAggregator => seq![
            spec_subnet_topic(run_id, subnet_id),
            spec_aggregation_topic(run_id),
        ],
        NodeRole::GlobalAggregator => seq![spec_aggregation_topic(run_id)],
    }
}

/// The topics relevant to the given role: validators follow their subnet,
/// global aggregators the aggregation topic, local aggregators both.
pub fn subscription_topics(role: NodeRole, subnet_id: u32, run_id: &str) -> (r: Vec<String>)
    ensures
        r@.map_values(|s: String| s@) == spec_subscription_topics(role, subnet_id, run_id@),
{
    let mut topics: Vec<String> = Vec::new();
    match role {
        NodeRole::Validator => {
            topics.push(subnet_topic(run_id, subnet_id));
        },
        NodeRole::LocalAggregator => {
            topics.push(subnet_topic(run_id, subnet_id));
            topics.push(aggregation_topic(run_id));
        },
        NodeRole::GlobalAggregator => {
            topics.push(aggregation_topic(run_id));
        },
    }
    proof {
        assert(topics@.map_values(|s: String| s@) =~= spec_subscription_topics(
            role,
            subnet_id,
            run_id@,
        ));
    }
    topics
}

/// The validation result reported to gossipsub for a message.
#[derive(Debug, Clone, Copy, PartialEq, Eq, Structural)]
pub enum Acceptance {
    /// Valid: deliver and forward.
    Accept,
    /// Invalid: drop and penalise the sender.
    Reject,
    /// Drop without forwarding or penalty.
    Ignore,
}

/// How an arriving gossipsub payload is handled.
pub struct Verdict {
    /// The validation result to report, if any.
    pub report: Option<Acceptance>,
    /// The decoded message to hand to the node, if any.
    pub message: Option<WireMessage>,
}

/// Judges an arriving payload. A first copy that decodes is accepted and
/// delivered; one that does not is rejected. A duplicate copy that decodes is
/// ignored (so it is not forwarded again) but delivered for counting; one
/// that does not decode is dropped silently.
pub fn judge_payload(data: &[u8], is_duplicate: bool) -> (r: Verdict)
    ensures
        match wire_decoding(data@) {
            Ok(m) => r.message matches Some(x) && x@ == m && r.report == Some(
                if is_duplicate {
                    Acceptance::Ignore
                } else {
                    Acceptance::Accept
                },
            ),
            Err(_) => r.message is None && r.report == (if is_duplicate {
                None
            } else {
                Some(Acceptance::Reject)
            }),
        },
{
    match WireMessage::decode(data) {
        Ok(msg) => {
            let report = if is_duplicate {
                Acceptance::Ignore
            } else {
                Acceptance::Accept
            };
            Verdict { report: Some(report), message: Some(msg) }
        },
        Err(_) => {
            let report = if is_duplicate {
                None
            } else {
                Some(Acceptance::Reject)
            };
            Verdict { report, message: None }
        },
    }
}

/// How long to wait for connections and mesh formation after dialing
/// `seed_count` seeds: longer for large seed lists.
pub fn mesh_warmup_ms(seed_count: usize) -> (r: u64)
    ensures
        r == (if seed_count > 200 {
            3000u64
        } else {
            1500u64
        }),
{
    if seed_count > 200 {
        3000
    } else {
        1500
    }
}

} // verus!
