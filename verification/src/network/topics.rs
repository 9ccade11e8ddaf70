//! Gossipsub topic names.

use vstd::prelude::*;

use crate::text::{decimal, push_decimal};

verus! {

/// The topic of a subnet's validator signatures: `/leansim/{run_id}/subnet/{subnet_id}`.
pub open spec fn spec_subnet_topic(run_id: Seq<char>, subnet_id: u32) -> Seq<char> {
    "/leansim/"@ + run_id + "/subnet/"@ + decimal(subnet_id as nat)
}

/// The topic of local proofs sent to global aggregators: `/leansim/{run_id}/aggregation`.
pub open spec fn spec_aggregation_topic(run_id: Seq<char>) -> Seq<char> {
    "/leansim/"@ + run_id + "/aggregation"@
}

/// Builds the gossipsub topic string for a subnet's validator signatures.
pub fn subnet_topic(run_id: &str, subnet_id: u32) -> (r: String)
    ensures
        r@ == spec_subnet_topic(run_id@, subnet_id),
{
    let mut s = String::from_str("/leansim/");
    s.append(run_id);
    s.append("/subnet/");
    push_decimal(&mut s, subnet_id as u64);
    s
}

/// Builds the gossipsub topic string for aggregation (local proofs to global aggregators).
pub fn aggregation_topic(run_id: &str) -> (r: String)
    ensures
        r@ == spec_aggregation_topic(run_id@),
{
    let mut s = String::from_str("/leansim/");
    s.append(run_id);
    s.append("/aggregation");
    s
}

} // verus!
