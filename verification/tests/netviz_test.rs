use leansim::config::experiment::NodeRole;
use leansim::metrics::events::JsonlEvent;
use leansim::netviz::{
    blank, build_peer_map, check_manifest_nodes, convert_event, event_ts_us, mesh_links, role_str,
    trace_lines, ManifestError, ManifestNode,
};

fn peer(node_id: u32, peer_id: &str) -> JsonlEvent {
    JsonlEvent::NodePeerId { node_id, peer_id: peer_id.into() }
}

fn received(node_id: u32, from_peer: &str, ts_ms: u64) -> JsonlEvent {
    JsonlEvent::SigReceived {
        node_id,
        from_id: 7,
        from_peer_id: from_peer.into(),
        subnet_id: 1,
        duplicate: false,
        ts_ms,
        byte_size: 3100,
    }
}

#[test]
fn roles_have_short_names() {
    assert_eq!(role_str(NodeRole::Validator), "validator");
    assert_eq!(role_str(NodeRole::LocalAggregator), "local_aggregator");
    assert_eq!(role_str(NodeRole::GlobalAggregator), "global_aggregator");
}

#[test]
fn peer_map_keeps_the_last_announcement() {
    let events = vec![peer(1, "a"), peer(2, "b"), peer(3, "a")];
    let peers = build_peer_map(&events);
    assert_eq!(peers.get(&"a".to_string()), Some(3));
    assert_eq!(peers.get(&"b".to_string()), Some(2));
    assert_eq!(peers.get(&"c".to_string()), None);
}

#[test]
fn events_become_trace_lines() {
    let peers = build_peer_map(&vec![peer(4, "p4")]);
    assert_eq!(
        convert_event(&received(2, "p4", 15), &peers),
        Some("[15000, 2, \"sr\", 7, 4, 1, 3100]".to_string())
    );
    assert_eq!(
        convert_event(&received(2, "unknown", 15), &peers),
        Some("[15000, 2, \"sr\", 7, 7, 1, 3100]".to_string())
    );
    let sent = JsonlEvent::SigSent { node_id: 3, subnet_id: 1, seq: 0, ts_ms: 2, byte_size: 3072 };
    assert_eq!(convert_event(&sent, &peers), Some("[2000, 3, \"ss\", 1, 0, 3072]".to_string()));
    let done = JsonlEvent::GlobalProofCompleted { node_id: 9, total_sigs: 66, proof_count: 3, latency_ms: 900 };
    assert_eq!(convert_event(&done, &peers), Some("[900000, 9, \"gc\", 66, 3, 900]".to_string()));
    let proof = JsonlEvent::LocalProofReceived {
        node_id: 5,
        from_id: 9,
        from_peer_id: "p4".into(),
        subnet_id: 1,
        covered_sigs: 22,
        duplicate: true,
        ts_ms: 450,
        byte_size: 131100,
    };
    assert_eq!(
        convert_event(&proof, &peers),
        Some("[450000, 5, \"pd\", 9, 4, 1, 22, 131100]".to_string())
    );
    assert_eq!(convert_event(&peer(1, "x"), &peers), None);
    assert_eq!(event_ts_us(&done), 900000);
}

#[test]
fn trace_is_stably_ordered_by_time() {
    let events = vec![
        received(1, "p", 30),
        JsonlEvent::SigSent { node_id: 3, subnet_id: 1, seq: 0, ts_ms: 10, byte_size: 1 },
        received(2, "p", 10),
        peer(9, "p"),
    ];
    let peers = build_peer_map(&events);
    let lines = trace_lines(&events, &peers);
    assert_eq!(
        lines,
        vec![
            "[10000, 3, \"ss\", 1, 0, 1]".to_string(),
            "[10000, 2, \"sr\", 7, 9, 1, 3100]".to_string(),
            "[30000, 1, \"sr\", 7, 9, 1, 3100]".to_string(),
        ]
    );
}

#[test]
fn mesh_links_need_three_uses() {
    let mut events = vec![peer(1, "p1"), peer(2, "p2"), peer(5, "p5")];
    for t in 0..3 {
        events.push(received(5, "p1", t));
    }
    for t in 0..2 {
        events.push(received(2, "p5", t));
    }
    events.push(received(1, "p2", 9));
    events.push(received(2, "p1", 9));
    events.push(received(1, "p2", 9));
    events.push(received(4, "nobody", 9));
    let peers = build_peer_map(&events);
    let links = mesh_links(&events, &peers);
    assert_eq!(links, vec![(1, 2), (1, 5)]);
    assert!(links.iter().all(|&(a, b)| a <= b));
}

fn manifest_node(node_id: u32, country: Option<&str>, up: u64) -> ManifestNode {
    ManifestNode {
        node_id,
        role: NodeRole::Validator,
        subnet_id: 0,
        country: country.map(|c| c.to_string()),
        supernode: false,
        uplink_mbps: up,
        downlink_mbps: 50,
    }
}

#[test]
fn manifest_checks_report_the_first_problem() {
    assert_eq!(check_manifest_nodes(&vec![]), Err(ManifestError::NoNodes));
    assert_eq!(
        check_manifest_nodes(&vec![manifest_node(0, Some("DE"), 50), manifest_node(1, None, 50)]),
        Ok(())
    );
    assert_eq!(
        check_manifest_nodes(&vec![manifest_node(0, None, 50), manifest_node(0, None, 0)]),
        Err(ManifestError::DuplicateNodeId(0))
    );
    assert_eq!(
        check_manifest_nodes(&vec![manifest_node(3, None, 0)]),
        Err(ManifestError::ZeroBandwidth { node_id: 3, supernode: false })
    );
    assert_eq!(
        check_manifest_nodes(&vec![manifest_node(4, Some(" \t"), 50)]),
        Err(ManifestError::BlankCountry(4))
    );
}

#[test]
fn blank_means_only_whitespace() {
    assert!(blank(""));
    assert!(blank(" \n\u{3000}"));
    assert!(!blank(" x "));
}
