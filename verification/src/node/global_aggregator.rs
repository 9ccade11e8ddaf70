//! Global aggregator: keeps the latest covered count of each local proof and
//! completes the global proof once, when enough signatures are covered.

use vstd::prelude::*;

use crate::messages::wire::{WireMessage, WireMessageView};
use crate::node::state::{count_total, proof_counts, NodeState};

verus! {

/// What the global aggregator does after a message.
#[derive(Debug, Clone, Copy, PartialEq, Eq, Structural)]
pub enum GlobalAction {
    /// Nothing to do.
    Idle,
    /// Complete the global proof over `proof_count` local proofs that cover
    /// `total_sigs` signatures.
    CompleteGlobalProof { total_sigs: usize, proof_count: usize },
}

/// The covered counts add up to more than a `usize` holds.
#[derive(Debug, Clone, Copy, PartialEq, Eq, Structural)]
pub enum CoveredCountOverflow {
    CoveredCountOverflow,
}

/// The state after recording a proof from `sender_id` for `subnet_id`
/// covering `covered` signatures, and the result, for a target of `target`
/// covered signatures.
pub open spec fn proof_step(
    pre: NodeState,
    post: NodeState,
    sender_id: u32,
    subnet_id: u32,
    covered: usize,
    target: usize,
    r: Result<GlobalAction, CoveredCountOverflow>,
) -> bool {
    let counts = proof_counts(pre.received_proofs).insert((sender_id, subnet_id), covered);
    let total = count_total(counts);
    &&& proof_counts(post.received_proofs) == counts
    &&& if total > usize::MAX {
        &&& r == Err::<GlobalAction, CoveredCountOverflow>(
            CoveredCountOverflow::CoveredCountOverflow,
        )
        &&& post == (NodeState { received_proofs: post.received_proofs, ..pre })
    } else if total >= target && !pre.snark2_completed {
        &&& r == Ok::<GlobalAction, CoveredCountOverflow>(
            GlobalAction::CompleteGlobalProof {
                total_sigs: total as usize,
                proof_count: counts.dom().len() as usize,
            },
        )
        &&& post == (NodeState {
            received_proofs: post.received_proofs,
            snark2_completed: true,
            ..pre
        })
    } else {
        &&& r == Ok::<GlobalAction, CoveredCountOverflow>(GlobalAction::Idle)
        &&& post == (NodeState { received_proofs: post.received_proofs, ..pre })
    }
}

/// Processes one incoming message. A local proof replaces the count held for
/// its (sender, subnet); once the counts held cover `target` signatures, the
/// first such message asks to complete the global proof. Other messages
/// change nothing. The error reports counts whose sum overflows.
pub fn handle_message(state: &mut NodeState, msg: &WireMessage, target: usize) -> (r: Result<
    GlobalAction,
    CoveredCountOverflow,
>)
    requires
        old(state).wf(),
    ensures
        final(state).wf(),
        match msg@ {
            WireMessageView::LocalProof { sender_id, subnet_id, covered_validator_count, .. } =>
                proof_step(
                *old(state),
                *final(state),
                sender_id,
                subnet_id,
                covered_validator_count,
                target,
                r,
            ),
            _ => r == Ok::<GlobalAction, CoveredCountOverflow>(GlobalAction::Idle)
                && *final(state) == *old(state),
        },
{
    match msg {
        WireMessage::LocalProof { sender_id, subnet_id, covered_validator_count, .. } => {
            let (total, proof_count) = state.record_proof(
                *sender_id,
                *subnet_id,
                *covered_validator_count,
            );
            match total {
                None => Err(CoveredCountOverflow::CoveredCountOverflow),
                Some(total_sigs) => {
                    if total_sigs >= target {
                        let already_completed = state.snark2_completed;
                        state.snark2_completed = true;
                        if !already_completed {
                            return Ok(GlobalAction::CompleteGlobalProof { total_sigs, proof_count });
                        }
                    }
                    Ok(GlobalAction::Idle)
                },
            }
        },
        _ => Ok(GlobalAction::Idle),
    }
}

/// The global proof is completed at most once: after completion, no
/// message asks again.
pub proof fn lemma_global_proof_at_most_once(
    pre: NodeState,
    post: NodeState,
    sender_id: u32,
    subnet_id: u32,
    covered: usize,
    target: usize,
    r: Result<GlobalAction, CoveredCountOverflow>,
)
    requires
        proof_step(pre, post, sender_id, subnet_id, covered, target, r),
    ensures
        pre.snark2_completed ==> !(r matches Ok(GlobalAction::CompleteGlobalProof { .. })),
        pre.snark2_completed ==> post.snark2_completed,
{
}

/// The global proof is asked for exactly when the covered signatures held
/// first reach the target (their total fitting a `usize`).
pub proof fn lemma_global_proof_at_target(
    pre: NodeState,
    post: NodeState,
    sender_id: u32,
    subnet_id: u32,
    covered: usize,
    target: usize,
    r: Result<GlobalAction, CoveredCountOverflow>,
)
    requires
        proof_step(pre, post, sender_id, subnet_id, covered, target, r),
        !pre.snark2_completed,
        count_total(proof_counts(post.received_proofs)) <= usize::MAX,
    ensures
        (r matches Ok(GlobalAction::CompleteGlobalProof { .. })) <==> count_total(
            proof_counts(post.received_proofs),
        ) >= target,
        r matches Ok(GlobalAction::CompleteGlobalProof { total_sigs, .. }) ==> total_sigs
            == count_total(proof_counts(post.received_proofs)),
{
}

/// Each (sender, subnet) counts once, with its latest proof: a resent proof
/// leaves the held counts and their total unchanged, and a newer count
/// changes the total by the difference.
pub proof fn lemma_latest_proof_counts(
    pre: NodeState,
    post: NodeState,
    sender_id: u32,
    subnet_id: u32,
    covered: usize,
    target: usize,
    r: Result<GlobalAction, CoveredCountOverflow>,
)
    requires
        pre.wf(),
        proof_step(pre, post, sender_id, subnet_id, covered, target, r),
    ensures
        proof_counts(pre.received_proofs).contains_key((sender_id, subnet_id)) ==> count_total(
            proof_counts(post.received_proofs),
        ) == count_total(proof_counts(pre.received_proofs)) - proof_counts(
            pre.received_proofs,
        )[(sender_id, subnet_id)] + covered,
        !proof_counts(pre.received_proofs).contains_key((sender_id, subnet_id)) ==> count_total(
            proof_counts(post.received_proofs),
        ) == count_total(proof_counts(pre.received_proofs)) + covered,
        proof_counts(pre.received_proofs).contains_key((sender_id, subnet_id)) && proof_counts(
            pre.received_proofs,
        )[(sender_id, subnet_id)] == covered ==> proof_counts(post.received_proofs) == proof_counts(
            pre.received_proofs,
        ),
{
    crate::node::state::lemma_count_total_replace(
        proof_counts(pre.received_proofs),
        (sender_id, subnet_id),
        covered,
    );
    if proof_counts(pre.received_proofs).contains_key((sender_id, subnet_id)) && proof_counts(
        pre.received_proofs,
    )[(sender_id, subnet_id)] == covered {
        assert(proof_counts(pre.received_proofs).insert((sender_id, subnet_id), covered) =~= proof_counts(pre.received_proofs));
    }
}

} // verus!
