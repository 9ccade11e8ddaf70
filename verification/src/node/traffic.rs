//! Accounting of the messages a node receives, and the events that report them.

use vstd::prelude::*;

use crate::messages::wire::{wire_encoding, MessageId, WireMessage, WireMessageView};
use crate::metrics::events::JsonlEvent;
use crate::node::state::{seen_ids, NodeState};

verus! {

/// `a + b` modulo `2^64`, as the traffic counters add.
pub open spec fn wrapping_sum(a: u64, b: u64) -> u64 {
    ((a + b) % 0x1_0000_0000_0000_0000) as u64
}

/// The smallest `k` with `k * k >= n`.
pub open spec fn is_ceil_sqrt(n: nat, k: nat) -> bool {
    k * k >= n && (k == 0 || (k - 1) * (k - 1) < n)
}

/// The number of mesh peers a new message is forwarded to in full, as
/// gossipsub's lazy push estimates it: the square root of the mesh size,
/// rounded up, and at least one.
pub open spec fn spec_lazy_fanout(mesh_n: nat) -> nat {
    if mesh_n <= 1 {
        1
    } else {
        choose|k: nat| is_ceil_sqrt(mesh_n, k)
    }
}

/// The square root of `n`, rounded up.
pub fn ceil_sqrt(n: u64) -> (r: u64)
    ensures
        is_ceil_sqrt(n as nat, r as nat),
{
    let mut k: u64 = 0;
    while (k as u128) * (k as u128) < n as u128
        invariant
            k <= 0x1_0000_0000,
            k * k <= 0x1_0000_0000_0000_0000,
            k == 0 || (k - 1) * (k - 1) < n,
        decreases 0x1_0000_0000 - k,
    {
        proof {
            assert(k < 0x1_0000_0000 && (k + 1) * (k + 1) <= 0x1_0000_0000_0000_0000)
                by (nonlinear_arith)
                requires
                    k * k < n,
                    n < 0x1_0000_0000_0000_0000,
                    k <= 0x1_0000_0000,
            ;
        }
        k = k + 1;
    }
    k
}

/// The number of mesh peers a new message is forwarded to in full:
/// `max(1, ceil(sqrt(mesh_n)))`. (The same as rounding the `f64` square root
/// up for every mesh size that an `f64` holds exactly.)
pub fn lazy_forward_fanout(mesh_n: usize) -> (r: u64)
    ensures
        r == spec_lazy_fanout(mesh_n as nat),
{
    let k = ceil_sqrt(mesh_n as u64);
    if mesh_n <= 1 {
        1
    } else {
        proof {
            lemma_ceil_sqrt_unique(mesh_n as nat, k as nat);
        }
        k
    }
}

proof fn lemma_ceil_sqrt_unique(n: nat, k: nat)
    requires
        is_ceil_sqrt(n, k),
    ensures
        (choose|j: nat| is_ceil_sqrt(n, j)) == k,
{
    let j = choose|j: nat| is_ceil_sqrt(n, j);
    assert(is_ceil_sqrt(n, j));
    if j < k {
        assert(j * j <= (k - 1) * (k - 1)) by (nonlinear_arith)
            requires
                j <= k - 1,
        ;
    } else if j > k {
        assert(k * k <= (j - 1) * (j - 1)) by (nonlinear_arith)
            requires
                k <= j - 1,
        ;
    }
}

/// The traffic that a received message adds to a node's counters, and the
/// event that reports it; `size` is the length of its encoding and `fanout`
/// the lazy forward fanout.
pub open spec fn received_step(
    pre: NodeState,
    post: NodeState,
    msg: WireMessageView,
    msg_id: MessageId,
    from_peer_id: String,
    is_duplicate: bool,
    ts_ms: u64,
    r: Option<JsonlEvent>,
) -> bool {
    let size = wire_encoding(msg).len() as u64;
    let fanout = spec_lazy_fanout(pre.config.gossipsub_mesh_n as nat) as u64;
    let seen = if is_duplicate {
        seen_ids(pre.seen_messages)
    } else {
        seen_ids(pre.seen_messages).insert(msg_id)
    };
    &&& seen_ids(post.seen_messages) == seen
    &&& match msg {
        WireMessageView::ValidatorSignature { sender_id, subnet_id, .. } => {
            &&& r == Some(
                JsonlEvent::SigReceived {
                    node_id: pre.node_id,
                    from_id: sender_id,
                    from_peer_id,
                    subnet_id,
                    duplicate: is_duplicate,
                    ts_ms,
                    byte_size: size,
                },
            )
            &&& post == (NodeState {
                seen_messages: post.seen_messages,
                bytes_recv_sig: wrapping_sum(pre.bytes_recv_sig, size),
                msgs_recv_sig: wrapping_sum(pre.msgs_recv_sig, 1),
                bytes_sent_sig: if is_duplicate {
                    pre.bytes_sent_sig
                } else {
                    wrapping_sum(pre.bytes_sent_sig, (size * fanout) as u64)
                },
                msgs_sent_sig: if is_duplicate {
                    pre.msgs_sent_sig
                } else {
                    wrapping_sum(pre.msgs_sent_sig, fanout)
                },
                ..pre
            })
        },
        WireMessageView::LocalProof { sender_id, subnet_id, covered_validator_count, .. } => {
            &&& r == Some(
                JsonlEvent::LocalProofReceived {
                    node_id: pre.node_id,
                    from_id: sender_id,
                    from_peer_id,
                    subnet_id,
                    covered_sigs: covered_validator_count,
                    duplicate: is_duplicate,
                    ts_ms,
                    byte_size: size,
                },
            )
            &&& post == (NodeState {
                seen_messages: post.seen_messages,
                bytes_recv_sig: wrapping_sum(pre.bytes_recv_sig, size),
                msgs_recv_sig: wrapping_sum(pre.msgs_recv_sig, 1),
                ..pre
            })
        },
        WireMessageView::GlobalProof { .. } => {
            &&& r is None
            &&& post == (NodeState { seen_messages: post.seen_messages, ..pre })
        },
    }
}

/// Accounts for a message received from the peer `from_peer_id` at `ts_ms`:
/// a first copy is marked seen under `msg_id`; signatures and local proofs
/// add their encoded size to the received traffic and are reported; a first
/// copy of a signature also adds the estimated forwarding to the sent traffic.
pub fn record_received(
    state: &mut NodeState,
    msg: &WireMessage,
    msg_id: MessageId,
    from_peer_id: String,
    is_duplicate: bool,
    ts_ms: u64,
) -> (r: Option<JsonlEvent>)
    requires
        old(state).wf(),
        msg@ is ValidatorSignature && !is_duplicate ==> wire_encoding(msg@).len() * spec_lazy_fanout(
            old(state).config.gossipsub_mesh_n as nat,
        ) <= u64::MAX,
    ensures
        final(state).wf(),
        received_step(*old(state), *final(state), msg@, msg_id, from_peer_id, is_duplicate, ts_ms, r),
{
    if !is_duplicate {
        state.mark_seen(msg_id);
    }
    match msg {
        WireMessage::ValidatorSignature { sender_id, subnet_id, .. } => {
            let size = msg.encode().len() as u64;
            state.bytes_recv_sig = state.bytes_recv_sig.wrapping_add(size);
            state.msgs_recv_sig = state.msgs_recv_sig.wrapping_add(1);
            if !is_duplicate {
                let fanout = lazy_forward_fanout(state.config.gossipsub_mesh_n);
                state.bytes_sent_sig = state.bytes_sent_sig.wrapping_add(size * fanout);
                state.msgs_sent_sig = state.msgs_sent_sig.wrapping_add(fanout);
            }
            Some(
                JsonlEvent::SigReceived {
                    node_id: state.node_id,
                    from_id: *sender_id,
                    from_peer_id,
                    subnet_id: *subnet_id,
                    duplicate: is_duplicate,
                    ts_ms,
                    byte_size: size,
                },
            )
        },
        WireMessage::LocalProof { sender_id, subnet_id, covered_validator_count, .. } => {
            let size = msg.encode().len() as u64;
            state.bytes_recv_sig = state.bytes_recv_sig.wrapping_add(size);
            state.msgs_recv_sig = state.msgs_recv_sig.wrapping_add(1);
            Some(
                JsonlEvent::LocalProofReceived {
                    node_id: state.node_id,
                    from_id: *sender_id,
                    from_peer_id,
                    subnet_id: *subnet_id,
                    covered_sigs: *covered_validator_count,
                    duplicate: is_duplicate,
                    ts_ms,
                    byte_size: size,
                },
            )
        },
        WireMessage::GlobalProof { .. } => None,
    }
}

/// The report of this node's signature, published at `ts_ms`, and its traffic.
pub fn record_signature_sent(state: &mut NodeState, ts_ms: u64) -> (r: JsonlEvent)
    ensures
        r == (JsonlEvent::SigSent {
            node_id: old(state).node_id,
            subnet_id: old(state).subnet_id,
            seq: old(state).seq_counter,
            ts_ms,
            byte_size: old(state).config.signature_payload_bytes as u64,
        }),
        *final(state) == (NodeState {
            bytes_sent_sig: wrapping_sum(
                old(state).bytes_sent_sig,
                old(state).config.signature_payload_bytes as u64,
            ),
            msgs_sent_sig: wrapping_sum(old(state).msgs_sent_sig, 1),
            ..*old(state)
        }),
{
    let sig_size = state.config.signature_payload_bytes as u64;
    state.bytes_sent_sig = state.bytes_sent_sig.wrapping_add(sig_size);
    state.msgs_sent_sig = state.msgs_sent_sig.wrapping_add(1);
    JsonlEvent::SigSent {
        node_id: state.node_id,
        subnet_id: state.subnet_id,
        seq: state.seq_counter,
        ts_ms,
        byte_size: sig_size,
    }
}

/// The final report of a node's traffic.
pub fn node_stats(state: &NodeState) -> (r: JsonlEvent)
    ensures
        r == (JsonlEvent::NodeStats {
            node_id: state.node_id,
            bytes_sent: state.bytes_sent_sig,
            bytes_received: state.bytes_recv_sig,
            msgs_sent: state.msgs_sent_sig,
            msgs_received: state.msgs_recv_sig,
        }),
{
    JsonlEvent::NodeStats {
        node_id: state.node_id,
        bytes_sent: state.bytes_sent_sig,
        bytes_received: state.bytes_recv_sig,
        msgs_sent: state.msgs_sent_sig,
        msgs_received: state.msgs_recv_sig,
    }
}

} // verus!
