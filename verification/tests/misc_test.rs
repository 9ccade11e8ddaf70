use leansim::config::defaults::{
    default_burst_jitter_ms, default_burst_time_ms, default_downlink_mbps,
    default_global_aggregation_rate, default_heartbeat_interval_ms, default_latency_ms,
    default_mesh_n, default_mesh_n_high, default_mesh_n_low, default_mesh_outbound_min,
    default_proof_payload_bytes, default_signature_aggregation_rate,
    default_signature_payload_bytes, default_uplink_mbps,
};
use leansim::config::experiment::{
    default_false, default_geo_seed, default_global_aggregators, default_local_aggregators,
    default_run_timeout, default_supernode_bw, ExperimentConfig, NetworkDefaults, NodeRole,
};
use leansim::messages::wire::WireMessage;
use leansim::node::state::NodeState;
use leansim::node::traffic::{
    ceil_sqrt, lazy_forward_fanout, node_stats, record_received, record_signature_sent,
};
use leansim::metrics::events::JsonlEvent;
use leansim::text::{decimal_string, digit_str, push_decimal, split_str};
use leansim::types::Message;

#[test]
fn decimal_text() {
    assert_eq!(decimal_string(0), "0");
    assert_eq!(decimal_string(1234567890), "1234567890");
    assert_eq!(decimal_string(u64::MAX), "18446744073709551615");
    let mut s = "n=".to_string();
    push_decimal(&mut s, 42);
    assert_eq!(s, "n=42");
    assert_eq!(digit_str(7), "7");
}

#[test]
fn split_keeps_empty_fields() {
    assert_eq!(split_str("/ip4/1.2.3.4/udp", '/'), vec!["", "ip4", "1.2.3.4", "udp"]);
    assert_eq!(split_str("", '/'), vec![""]);
    assert_eq!(split_str("a//b", '/'), vec!["a", "", "b"]);
}

#[test]
fn default_values() {
    assert_eq!(default_signature_payload_bytes(), 3072);
    assert_eq!(default_proof_payload_bytes(), 131072);
    assert_eq!(default_signature_aggregation_rate(), 1000);
    assert_eq!(default_global_aggregation_rate(), 10);
    assert_eq!(default_burst_time_ms(), 2000);
    assert_eq!(default_burst_jitter_ms(), 500);
    assert_eq!(default_mesh_n_low(), 2);
    assert_eq!(default_mesh_n(), 4);
    assert_eq!(default_mesh_n_high(), 8);
    assert_eq!(default_mesh_outbound_min(), 1);
    assert_eq!(default_heartbeat_interval_ms(), 1000);
    assert_eq!(default_uplink_mbps(), 50);
    assert_eq!(default_downlink_mbps(), 50);
    assert_eq!(default_latency_ms(), 50);
    assert_eq!(default_run_timeout(), 120);
    assert_eq!(default_local_aggregators(), 1);
    assert_eq!(default_global_aggregators(), 1);
    assert!(!default_false());
    assert_eq!(default_geo_seed(), 42);
    assert_eq!(default_supernode_bw(), 1000);
}

#[test]
fn prototype_ids_name_origin_and_kind() {
    let sig = Message::Signature { validator_id: 0x01020304, subnet_id: 5, data: vec![] };
    let mut expected = [0u8; 32];
    expected[..9].copy_from_slice(&[1, 2, 3, 4, 0, 0, 0, 5, 0]);
    assert_eq!(sig.get_id(), expected);
    let snark2 = Message::SNARK2 { aggregator_id: 256, data: vec![1], verified_snarks: 3 };
    let mut expected2 = [0u8; 32];
    expected2[2] = 1;
    expected2[8] = 2;
    assert_eq!(snark2.get_id(), expected2);
    assert_eq!(Message::IWANT { id: [9u8; 32] }.get_id(), [0u8; 32]);
}

#[test]
fn square_roots_round_up() {
    assert_eq!(ceil_sqrt(0), 0);
    assert_eq!(ceil_sqrt(1), 1);
    assert_eq!(ceil_sqrt(2), 2);
    assert_eq!(ceil_sqrt(16), 4);
    assert_eq!(ceil_sqrt(17), 5);
    assert_eq!(ceil_sqrt(u64::MAX), 4294967296);
    assert_eq!(lazy_forward_fanout(0), 1);
    assert_eq!(lazy_forward_fanout(1), 1);
    assert_eq!(lazy_forward_fanout(6), 3);
    assert_eq!(lazy_forward_fanout(9), 3);
    for n in 2..2000usize {
        assert_eq!(lazy_forward_fanout(n), (n as f64).sqrt().ceil() as u64);
    }
}

fn config() -> ExperimentConfig {
    ExperimentConfig {
        run_id: "t".into(),
        run_timeout_secs: 60,
        validator_count: 8,
        subnet_count: 2,
        local_aggregators_per_subnet: 1,
        global_aggregator_count: 1,
        local_threshold: 0.9f64.to_bits(),
        global_proof_target: 0.66f64.to_bits(),
        burst_time_ms: 2000,
        burst_jitter_ms: 500,
        signature_aggregation_rate: 1000,
        global_aggregation_rate: 10,
        signature_payload_bytes: 3072,
        proof_payload_bytes: 131072,
        gossipsub_mesh_n_low: 4,
        gossipsub_mesh_n: 6,
        gossipsub_mesh_n_high: 12,
        gossipsub_mesh_outbound_min: 2,
        gossipsub_heartbeat_interval_ms: 1000,
        gossipsub_explicit_aggregator_count: 0,
        gossipsub_flood_publish: false,
        network_defaults: NetworkDefaults::default(),
        use_geo_latency: false,
        geo_seed: 0,
        geo_jitter: 0.0f64.to_bits(),
        supernode_fraction: 0.0f64.to_bits(),
        supernode_uplink_mbps: 1000,
        supernode_downlink_mbps: 1000,
        topology_degree: 0,
    }
}

#[test]
fn received_traffic_is_accounted() {
    let mut state = NodeState::new(3, NodeRole::LocalAggregator, 0, config());
    let sig = WireMessage::ValidatorSignature {
        run_id: "t".into(),
        sender_id: 1,
        subnet_id: 0,
        sequence_id: 0,
        created_timestamp_ms: 0,
        padding: vec![0; 10],
    };
    let size = sig.encode().len() as u64;
    let id = sig.message_id();
    let ev = record_received(&mut state, &sig, id, "p".into(), false, 20).unwrap();
    match ev {
        JsonlEvent::SigReceived { node_id, from_id, duplicate, byte_size, ts_ms, .. } => {
            assert_eq!((node_id, from_id, duplicate, byte_size, ts_ms), (3, 1, false, size, 20));
        }
        other => panic!("unexpected {:?}", other),
    }
    assert!(state.is_duplicate(&id));
    assert_eq!(state.bytes_recv_sig, size);
    assert_eq!(state.msgs_recv_sig, 1);
    // mesh of 6 gives a fanout of 3
    assert_eq!(state.bytes_sent_sig, 3 * size);
    assert_eq!(state.msgs_sent_sig, 3);

    let again = record_received(&mut state, &sig, id, "q".into(), true, 21).unwrap();
    assert!(matches!(again, JsonlEvent::SigReceived { duplicate: true, .. }));
    assert_eq!(state.msgs_recv_sig, 2);
    assert_eq!(state.msgs_sent_sig, 3);

    let global = WireMessage::GlobalProof {
        run_id: "t".into(),
        sender_id: 1,
        covered_signature_count: 5,
        sequence_id: 0,
        created_timestamp_ms: 0,
        padding: vec![],
    };
    assert!(record_received(&mut state, &global, global.message_id(), "p".into(), false, 22).is_none());
    assert_eq!(state.msgs_recv_sig, 2);
    assert!(state.is_duplicate(&global.message_id()));

    let sent = record_signature_sent(&mut state, 30);
    assert!(matches!(sent, JsonlEvent::SigSent { node_id: 3, byte_size: 3072, ts_ms: 30, .. }));
    assert_eq!(state.msgs_sent_sig, 4);
    match node_stats(&state) {
        JsonlEvent::NodeStats { node_id, bytes_sent, bytes_received, msgs_sent, msgs_received } => {
            assert_eq!(node_id, 3);
            assert_eq!(bytes_sent, 3 * size + 3072);
            assert_eq!(bytes_received, 2 * size);
            assert_eq!(msgs_sent, 4);
            assert_eq!(msgs_received, 2);
        }
        other => panic!("unexpected {:?}", other),
    }
}
