use leansim::config::experiment::{ExperimentConfig, NetworkDefaults, NodeRole};
use leansim::messages::wire::WireMessage;
use leansim::node::global_aggregator::{self, CoveredCountOverflow, GlobalAction};
use leansim::node::local_aggregator::{self, LocalAction};
use leansim::node::state::NodeState;
use leansim::node::validator;

fn test_config() -> ExperimentConfig {
    ExperimentConfig {
        run_id: "test".into(),
        run_timeout_secs: 60,
        validator_count: 100,
        subnet_count: 4,
        local_aggregators_per_subnet: 2,
        global_aggregator_count: 5,
        local_threshold: 0.9f64.to_bits(),
        global_proof_target: 0.66f64.to_bits(),
        burst_time_ms: 2000,
        burst_jitter_ms: 500,
        signature_aggregation_rate: 1000,
        global_aggregation_rate: 10,
        signature_payload_bytes: 3072,
        proof_payload_bytes: 131072,
        gossipsub_mesh_n_low: 4,
        gossipsub_mesh_n: 6,
        gossipsub_mesh_n_high: 12,
        gossipsub_mesh_outbound_min: 2,
        gossipsub_heartbeat_interval_ms: 1000,
        gossipsub_explicit_aggregator_count: 0,
        gossipsub_flood_publish: false,
        network_defaults: NetworkDefaults::default(),
        use_geo_latency: false,
        geo_seed: 0,
        geo_jitter: 0.0f64.to_bits(),
        supernode_fraction: 0.0f64.to_bits(),
        supernode_uplink_mbps: 1000,
        supernode_downlink_mbps: 1000,
        topology_degree: 0,
    }
}

fn make_state(role: NodeRole, subnet_id: u32) -> NodeState {
    NodeState::new(1, role, subnet_id, test_config())
}

fn signature(sender_id: u32, subnet_id: u32) -> WireMessage {
    WireMessage::ValidatorSignature {
        run_id: "test".into(),
        sender_id,
        subnet_id,
        sequence_id: 0,
        created_timestamp_ms: 0,
        padding: vec![],
    }
}

fn local_proof_msg(sender_id: u32, subnet_id: u32, covered: usize) -> WireMessage {
    WireMessage::LocalProof {
        run_id: "test".into(),
        sender_id,
        subnet_id,
        covered_validator_count: covered,
        sequence_id: 0,
        created_timestamp_ms: 0,
        padding: vec![],
    }
}

#[test]
fn dedup_mark_seen_first_time() {
    let mut state = make_state(NodeRole::LocalAggregator, 0);
    let id = [42u8; 32];
    let was_seen = state.mark_seen(id);
    assert!(!was_seen, "first insert should not be a duplicate");
}

#[test]
fn dedup_mark_seen_second_time() {
    let mut state = make_state(NodeRole::LocalAggregator, 0);
    let id = [42u8; 32];
    state.mark_seen(id);
    let was_seen = state.mark_seen(id);
    assert!(was_seen, "second insert should be a duplicate");
}

#[test]
fn duplicate_suppression_by_message_id() {
    let mut state = make_state(NodeRole::LocalAggregator, 0);
    let msg = WireMessage::ValidatorSignature {
        run_id: "r".into(),
        sender_id: 10,
        subnet_id: 0,
        sequence_id: 1,
        created_timestamp_ms: 100,
        padding: vec![],
    };
    let id = msg.message_id();
    assert!(!state.is_duplicate(&id));
    state.mark_seen(id);
    assert!(state.is_duplicate(&id));
}

#[test]
fn received_sigs_unique_counting() {
    let mut state = make_state(NodeRole::LocalAggregator, 0);
    // The same validator twice gives one entry
    state.record_signer(5);
    state.record_signer(5);
    assert_eq!(state.received_sigs.len(), 1);
    state.record_signer(6);
    assert_eq!(state.received_sigs.len(), 2);
}

#[test]
fn threshold_not_met_below_count() {
    let mut state = make_state(NodeRole::LocalAggregator, 0);
    // 25 validators per subnet, 90% threshold = 22.5 → 22 (floor for usize cast)
    let threshold = (25usize as f64 * 0.9) as usize;
    assert_eq!(threshold, 22);

    // 21 signatures, below the threshold
    for i in 0..21u32 {
        state.record_signer(i);
    }
    assert!(state.received_sigs.len() < threshold);
}

#[test]
fn threshold_met_exactly() {
    let mut state = make_state(NodeRole::LocalAggregator, 0);
    let threshold = (25usize as f64 * 0.9) as usize;
    assert_eq!(threshold, 22);

    // Exactly 22 signatures
    for i in 0..22u32 {
        state.record_signer(i);
    }
    assert!(state.received_sigs.len() >= threshold);
}

#[test]
fn snark1_sent_gate_prevents_double_publish() {
    let mut state = make_state(NodeRole::LocalAggregator, 0);
    let first = local_aggregator::handle_message(&mut state, &signature(7, 0), 1);
    assert_eq!(first, LocalAction::PublishLocalProof { sig_count: 1 });
    assert!(state.snark1_sent);
    let second = local_aggregator::handle_message(&mut state, &signature(8, 0), 1);
    assert_eq!(second, LocalAction::Idle);
    assert!(state.snark1_sent);
}

#[test]
fn global_aggregator_proof_tracking() {
    let mut state = make_state(NodeRole::GlobalAggregator, 0);
    // Proofs from different (sender, subnet) pairs are different keys
    state.record_proof(10, 0, 22);
    state.record_proof(11, 1, 20);
    let (total, count) = state.record_proof(12, 0, 25);

    assert_eq!(state.received_proofs.len(), 3);
    assert_eq!(count, 3);

    assert_eq!(total, Some(22 + 20 + 25));
}

#[test]
fn global_threshold_calculation() {
    let _state = make_state(NodeRole::GlobalAggregator, 0);
    // 100 total validators, 66% threshold = 66
    let target = (100usize as f64 * 0.66) as usize;
    assert_eq!(target, 66);
}

#[test]
fn seq_counter_monotonic() {
    let mut state = make_state(NodeRole::Validator, 0);
    let a = state.next_seq();
    let b = state.next_seq();
    let c = state.next_seq();
    assert_eq!(a, 0);
    assert_eq!(b, 1);
    assert_eq!(c, 2);
}

#[test]
fn seq_counter_wraps_at_the_top() {
    let mut state = make_state(NodeRole::Validator, 0);
    state.seq_counter = u64::MAX;
    assert_eq!(state.next_seq(), u64::MAX);
    assert_eq!(state.next_seq(), 0);
}

#[test]
fn elapsed_ms_increases() {
    let state = make_state(NodeRole::Validator, 0);
    let t1 = state.elapsed_ms();
    // Spin briefly to let time advance
    let spin = std::time::Instant::now();
    while spin.elapsed() < std::time::Duration::from_millis(10) {}
    let t2 = state.elapsed_ms();
    assert!(t2 >= t1, "elapsed_ms should be monotonic");
}

#[test]
fn repeated_signer_is_counted_once_and_proof_published_once() {
    let mut state = make_state(NodeRole::LocalAggregator, 0);
    assert_eq!(local_aggregator::handle_message(&mut state, &signature(3, 0), 2), LocalAction::Idle);
    assert_eq!(local_aggregator::handle_message(&mut state, &signature(3, 0), 2), LocalAction::Idle);
    assert_eq!(
        local_aggregator::handle_message(&mut state, &signature(4, 0), 2),
        LocalAction::PublishLocalProof { sig_count: 2 }
    );
    assert_eq!(local_aggregator::handle_message(&mut state, &signature(5, 0), 2), LocalAction::Idle);
    assert_eq!(state.received_sigs.len(), 3);
}

#[test]
fn signatures_of_other_subnets_and_proofs_are_ignored() {
    let mut state = make_state(NodeRole::LocalAggregator, 2);
    assert_eq!(local_aggregator::handle_message(&mut state, &signature(3, 1), 1), LocalAction::Idle);
    assert_eq!(
        local_aggregator::handle_message(&mut state, &local_proof_msg(3, 2, 10), 1),
        LocalAction::Idle
    );
    assert_eq!(state.received_sigs.len(), 0);
    assert!(!state.snark1_sent);
}

#[test]
fn own_signature_counts_toward_threshold() {
    let mut state = make_state(NodeRole::LocalAggregator, 0);
    assert_eq!(local_aggregator::record_own_signature(&mut state, 2), LocalAction::Idle);
    // node 1's own signature arriving again changes nothing
    assert_eq!(local_aggregator::handle_message(&mut state, &signature(1, 0), 2), LocalAction::Idle);
    assert_eq!(
        local_aggregator::handle_message(&mut state, &signature(2, 0), 2),
        LocalAction::PublishLocalProof { sig_count: 2 }
    );
}

#[test]
fn local_proof_is_padded_and_numbered() {
    let mut state = make_state(NodeRole::LocalAggregator, 3);
    let proof = local_aggregator::local_proof(&mut state, 22, 1234);
    assert_eq!(state.seq_counter, 1);
    assert_eq!(proof.encode().len(), 131072);
    match proof {
        WireMessage::LocalProof {
            run_id,
            sender_id,
            subnet_id,
            covered_validator_count,
            sequence_id,
            created_timestamp_ms,
            ..
        } => {
            assert_eq!(run_id, "test");
            assert_eq!(sender_id, 1);
            assert_eq!(subnet_id, 3);
            assert_eq!(covered_validator_count, 22);
            assert_eq!(sequence_id, 0);
            assert_eq!(created_timestamp_ms, 1234);
        }
        other => panic!("unexpected message {:?}", other),
    }
}

#[test]
fn global_proof_completes_once_at_target() {
    let mut state = make_state(NodeRole::GlobalAggregator, 0);
    assert_eq!(
        global_aggregator::handle_message(&mut state, &local_proof_msg(10, 0, 30), 66),
        Ok(GlobalAction::Idle)
    );
    // a later proof from the same sender and subnet replaces the earlier count
    assert_eq!(
        global_aggregator::handle_message(&mut state, &local_proof_msg(10, 0, 40), 66),
        Ok(GlobalAction::Idle)
    );
    assert_eq!(
        global_aggregator::handle_message(&mut state, &local_proof_msg(11, 1, 26), 66),
        Ok(GlobalAction::CompleteGlobalProof { total_sigs: 66, proof_count: 2 })
    );
    assert_eq!(
        global_aggregator::handle_message(&mut state, &local_proof_msg(12, 2, 26), 66),
        Ok(GlobalAction::Idle)
    );
    assert!(state.snark2_completed);
    // signatures change nothing at a global aggregator
    assert_eq!(
        global_aggregator::handle_message(&mut state, &signature(1, 0), 0),
        Ok(GlobalAction::Idle)
    );
}

#[test]
fn global_covered_count_overflow_is_reported() {
    let mut state = make_state(NodeRole::GlobalAggregator, 0);
    assert_eq!(
        global_aggregator::handle_message(&mut state, &local_proof_msg(10, 0, usize::MAX), usize::MAX),
        Ok(GlobalAction::CompleteGlobalProof { total_sigs: usize::MAX, proof_count: 1 })
    );
    assert_eq!(
        global_aggregator::handle_message(&mut state, &local_proof_msg(11, 0, 1), 0),
        Err(CoveredCountOverflow::CoveredCountOverflow)
    );
    assert_eq!(state.received_proofs.len(), 2);
}

#[test]
fn validator_signature_message_and_delay() {
    let mut state = make_state(NodeRole::Validator, 2);
    let delay = validator::burst_delay_ms(&state);
    assert!((2000..=2500).contains(&delay));
    assert_eq!(validator::delay_with_jitter(&state, 0), 2000);
    assert_eq!(validator::delay_with_jitter(&state, 437), 2437);
    let msg = validator::signature_message(&mut state, 77);
    assert_eq!(msg.encode().len(), 3072);
    assert_eq!(msg.sender_id(), 1);
    assert_eq!(msg.run_id(), "test");
    assert_eq!(state.seq_counter, 1);
    validator::mark_sig_sent(&mut state);
    assert!(state.sig_sent);
}

#[test]
fn state_views_of_the_config() {
    let state = make_state(NodeRole::Validator, 0);
    assert_eq!(state.validators_per_subnet(), 25);
    assert_eq!(state.total_validators(), 100);
}
