//! Validator start-up: after the burst delay, publish one signature.

use vstd::prelude::*;

use crate::messages::wire::{padding_for, WireMessage, WireMessageView};
use crate::node::state::{next_counter, NodeState};

verus! {

/// A uniformly random integer in `0..=max`, from the thread's generator.
///
/// `rand::Rng::gen_range` on an inclusive range; only the bound is claimed.
#[verifier::external_body]
fn random_up_to(max: u64) -> (r: u64)
    ensures
        r <= max,
{
    rand::Rng::gen_range(&mut rand::thread_rng(), 0..=max)
}

/// The delay before a validator signs: the burst start plus a jitter drawn
/// uniformly from `0..=burst_jitter_ms` (see [`delay_with_jitter`]).
pub fn burst_delay_ms(state: &NodeState) -> (r: u64)
    requires
        state.config.burst_time_ms + state.config.burst_jitter_ms <= u64::MAX,
    ensures
        state.config.burst_time_ms <= r <= state.config.burst_time_ms
            + state.config.burst_jitter_ms,
{
    let jitter = random_up_to(state.config.burst_jitter_ms);
    delay_with_jitter(state, jitter)
}

/// The delay before a validator signs, given the drawn jitter: the burst
/// start plus the jitter.
pub fn delay_with_jitter(state: &NodeState, jitter: u64) -> (r: u64)
    requires
        state.config.burst_time_ms + jitter <= u64::MAX,
    ensures
        r == state.config.burst_time_ms + jitter,
{
    state.config.burst_time_ms + jitter
}

/// The unpadded signature of this node, numbered `seq`, created at `created_ms`.
pub open spec fn unpadded_signature(state: NodeState, seq: u64, created_ms: u64) -> WireMessageView {
    WireMessageView::ValidatorSignature {
        run_id: state.config.run_id@,
        sender_id: state.node_id,
        subnet_id: state.subnet_id,
        sequence_id: seq,
        created_timestamp_ms: created_ms,
        padding: Seq::empty(),
    }
}

/// This node's signature message, created at `created_ms`, padded to the
/// configured signature size; takes the next sequence number.
pub fn signature_message(state: &mut NodeState, created_ms: u64) -> (r: WireMessage)
    ensures
        r@ == unpadded_signature(*old(state), old(state).seq_counter, created_ms).with_padding(
            padding_for(
                unpadded_signature(*old(state), old(state).seq_counter, created_ms),
                old(state).config.signature_payload_bytes,
            ),
        ),
        final(state).seq_counter == next_counter(old(state).seq_counter),
        *final(state) == (NodeState { seq_counter: final(state).seq_counter, ..*old(state) }),
{
    let sequence_id = state.next_seq();
    let msg = WireMessage::ValidatorSignature {
        run_id: state.config.run_id.clone(),
        sender_id: state.node_id,
        subnet_id: state.subnet_id,
        sequence_id,
        created_timestamp_ms: created_ms,
        padding: Vec::new(),
    };
    msg.with_payload_size(state.config.signature_payload_bytes)
}

/// Records that this validator has published its signature.
pub fn mark_sig_sent(state: &mut NodeState)
    ensures
        *final(state) == (NodeState { sig_sent: true, ..*old(state) }),
{
    state.sig_sent = true;
}

} // verus!
