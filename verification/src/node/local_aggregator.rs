//! Local aggregator: counts the signatures of its subnet and publishes one
//! local proof once the threshold is reached.

use vstd::prelude::*;

use crate::messages::wire::{padding_for, WireMessage, WireMessageView};
use crate::node::state::{next_counter, signer_ids, NodeState};

verus! {

/// What the local aggregator does after a message.
#[derive(Debug, Clone, Copy, PartialEq, Eq, Structural)]
pub enum LocalAction {
    /// Nothing to publish.
    Idle,
    /// Publish the local proof covering `sig_count` signatures.
    PublishLocalProof { sig_count: usize },
}

/// The state after recording a signature of `validator_id`, and the action,
/// for a threshold of `threshold` signatures.
pub open spec fn signature_step(
    pre: NodeState,
    post: NodeState,
    validator_id: u32,
    threshold: usize,
    r: LocalAction,
) -> bool {
    let signers = signer_ids(pre.received_sigs).insert(validator_id);
    &&& signer_ids(post.received_sigs) == signers
    &&& if signers.len() >= threshold && !pre.snark1_sent {
        &&& r == LocalAction::PublishLocalProof { sig_count: signers.len() as usize }
        &&& post == (NodeState { received_sigs: post.received_sigs, snark1_sent: true, ..pre })
    } else {
        &&& r == LocalAction::Idle
        &&& post == (NodeState { received_sigs: post.received_sigs, ..pre })
    }
}

/// Records a signature of `validator_id`; once `threshold` distinct
/// validators are recorded, the first call asks for the local proof.
fn record_signature(state: &mut NodeState, validator_id: u32, threshold: usize) -> (r: LocalAction)
    requires
        old(state).wf(),
    ensures
        final(state).wf(),
        signature_step(*old(state), *final(state), validator_id, threshold, r),
{
    let count = state.record_signer(validator_id);
    if count >= threshold {
        let already_sent = state.snark1_sent;
        state.snark1_sent = true;
        if !already_sent {
            return LocalAction::PublishLocalProof { sig_count: count };
        }
    }
    LocalAction::Idle
}

/// Processes one incoming message. A validator signature from this node's
/// subnet is counted (once per validator); any other message changes nothing.
/// `threshold` is the number of distinct signatures that triggers the proof.
pub fn handle_message(state: &mut NodeState, msg: &WireMessage, threshold: usize) -> (r: LocalAction)
    requires
        old(state).wf(),
    ensures
        final(state).wf(),
        match msg@ {
            WireMessageView::ValidatorSignature { sender_id, subnet_id, .. } => if subnet_id
                == old(state).subnet_id {
                signature_step(*old(state), *final(state), sender_id, threshold, r)
            } else {
                r == LocalAction::Idle && *final(state) == *old(state)
            },
            _ => r == LocalAction::Idle && *final(state) == *old(state),
        },
{
    match msg {
        WireMessage::ValidatorSignature { sender_id, subnet_id, .. } => {
            if *subnet_id != state.subnet_id {
                return LocalAction::Idle;
            }
            record_signature(state, *sender_id, threshold)
        },
        _ => LocalAction::Idle,
    }
}

/// Counts this node's own signature, which gossipsub does not deliver back.
pub fn record_own_signature(state: &mut NodeState, threshold: usize) -> (r: LocalAction)
    requires
        old(state).wf(),
    ensures
        final(state).wf(),
        signature_step(*old(state), *final(state), old(state).node_id, threshold, r),
{
    let id = state.node_id;
    record_signature(state, id, threshold)
}

/// The unpadded local proof of this node covering `sig_count` signatures,
/// numbered `seq`, created at `created_ms`.
pub open spec fn unpadded_local_proof(
    state: NodeState,
    sig_count: usize,
    seq: u64,
    created_ms: u64,
) -> WireMessageView {
    WireMessageView::LocalProof {
        run_id: state.config.run_id@,
        sender_id: state.node_id,
        subnet_id: state.subnet_id,
        covered_validator_count: sig_count,
        sequence_id: seq,
        created_timestamp_ms: created_ms,
        padding: Seq::empty(),
    }
}

/// The local proof covering `sig_count` signatures, created at `created_ms`,
/// padded to the configured proof size; takes the next sequence number.
pub fn local_proof(state: &mut NodeState, sig_count: usize, created_ms: u64) -> (r: WireMessage)
    ensures
        r@ == unpadded_local_proof(*old(state), sig_count, old(state).seq_counter, created_ms)
            .with_padding(
            padding_for(
                unpadded_local_proof(*old(state), sig_count, old(state).seq_counter, created_ms),
                old(state).config.proof_payload_bytes,
            ),
        ),
        final(state).seq_counter == next_counter(old(state).seq_counter),
        *final(state) == (NodeState { seq_counter: final(state).seq_counter, ..*old(state) }),
{
    let sequence_id = state.next_seq();
    let msg = WireMessage::LocalProof {
        run_id: state.config.run_id.clone(),
        sender_id: state.node_id,
        subnet_id: state.subnet_id,
        covered_validator_count: sig_count,
        sequence_id,
        created_timestamp_ms: created_ms,
        padding: Vec::new(),
    };
    msg.with_payload_size(state.config.proof_payload_bytes)
}

/// The local proof is asked for at most once: after it has been asked
/// for, no message asks again, and asking records that it was asked.
pub proof fn lemma_local_proof_at_most_once(
    pre: NodeState,
    post: NodeState,
    validator_id: u32,
    threshold: usize,
    r: LocalAction,
)
    requires
        signature_step(pre, post, validator_id, threshold, r),
    ensures
        pre.snark1_sent ==> r == LocalAction::Idle && post.snark1_sent,
        r is PublishLocalProof ==> !pre.snark1_sent && post.snark1_sent,
{
}

/// Signatures are counted once per validator: a repeated signature leaves
/// the set of signers, and so the count, unchanged.
pub proof fn lemma_repeated_signature(pre: NodeState, post: NodeState, validator_id: u32, threshold: usize, r: LocalAction)
    requires
        signature_step(pre, post, validator_id, threshold, r),
        signer_ids(pre.received_sigs).contains(validator_id),
    ensures
        signer_ids(post.received_sigs) == signer_ids(pre.received_sigs),
{
    assert(signer_ids(pre.received_sigs).insert(validator_id) =~= signer_ids(pre.received_sigs));
}

/// The proof is asked for exactly when the distinct signers first reach the threshold.
pub proof fn lemma_local_proof_at_threshold(pre: NodeState, post: NodeState, validator_id: u32, threshold: usize, r: LocalAction)
    requires
        signature_step(pre, post, validator_id, threshold, r),
        !pre.snark1_sent,
    ensures
        r is PublishLocalProof <==> signer_ids(post.received_sigs).len() >= threshold,
{
}

} // verus!
