use leansim::config::experiment::{ExperimentConfig, NetworkDefaults, NodeRole};
use leansim::shadow::generator::{
    assign_nodes, extract_ip, global_aggregator_ip, host_bandwidth, hostname, listen_addr, mbit,
    plan_hosts, seed_peers, stop_time, subnet_ip, SEED_PEER_COUNT,
};
use leansim::shadow::topology::{
    choose_supernodes, complete_edges, graph_edges, insert_sorted, render_gml, sparse_edges,
};
use rand::rngs::StdRng;
use rand::SeedableRng;

fn test_experiment() -> ExperimentConfig {
    ExperimentConfig {
        run_id: "test".into(),
        run_timeout_secs: 60,
        validator_count: 8,
        subnet_count: 2,
        local_aggregators_per_subnet: 1,
        global_aggregator_count: 1,
        local_threshold: 0.9f64.to_bits(),
        global_proof_target: 0.66f64.to_bits(),
        burst_time_ms: 2000,
        burst_jitter_ms: 500,
        signature_aggregation_rate: 1000,
        global_aggregation_rate: 10,
        signature_payload_bytes: 3072,
        proof_payload_bytes: 131072,
        gossipsub_mesh_n_low: 4,
        gossipsub_mesh_n: 6,
        gossipsub_mesh_n_high: 12,
        gossipsub_mesh_outbound_min: 2,
        gossipsub_heartbeat_interval_ms: 1000,
        gossipsub_explicit_aggregator_count: 0,
        gossipsub_flood_publish: false,
        network_defaults: NetworkDefaults::default(),
        use_geo_latency: false,
        geo_seed: 0,
        geo_jitter: 0.0f64.to_bits(),
        supernode_fraction: 0.0f64.to_bits(),
        supernode_uplink_mbps: 1000,
        supernode_downlink_mbps: 1000,
        topology_degree: 0,
    }
}

#[test]
fn node_count_correct() {
    let exp = test_experiment();
    let nodes = assign_nodes(&exp);
    assert_eq!(nodes.len(), 11);
}

#[test]
fn roles_assigned_correctly() {
    let exp = test_experiment();
    let nodes = assign_nodes(&exp);
    let validators: Vec<_> = nodes.iter().filter(|n| n.role == NodeRole::Validator).collect();
    let locals: Vec<_> = nodes.iter().filter(|n| n.role == NodeRole::LocalAggregator).collect();
    let globals: Vec<_> = nodes.iter().filter(|n| n.role == NodeRole::GlobalAggregator).collect();
    assert_eq!(validators.len(), 8);
    assert_eq!(locals.len(), 2);
    assert_eq!(globals.len(), 1);
}

#[test]
fn seed_addrs_exclude_self() {
    let exp = test_experiment();
    let nodes = assign_nodes(&exp);
    for node in &nodes {
        assert!(!node.seed_addrs.contains(&node.listen_addr));
    }
}

#[test]
fn seed_addrs_are_capped_at_50() {
    let mut exp = test_experiment();
    exp.validator_count = 128;
    exp.subnet_count = 1;
    exp.local_aggregators_per_subnet = 1;
    let nodes = assign_nodes(&exp);
    for node in &nodes {
        assert_eq!(node.seed_addrs.len(), SEED_PEER_COUNT);
    }
}

#[test]
fn gml_contains_all_nodes() {
    let exp = test_experiment();
    let nodes = assign_nodes(&exp);
    let mut rng = StdRng::seed_from_u64(42);
    let ids: Vec<u32> = nodes.iter().map(|n| n.node_id).collect();
    let edges = graph_edges(&mut rng, ids.len(), exp.topology_degree);
    let latencies = vec![exp.network_defaults.latency_ms; edges.len()];
    let gml = render_gml(&ids, &edges, &latencies);
    for node in &nodes {
        assert!(gml.contains(&format!("hostname \"node-{}\"", node.node_id)));
    }
    assert!(gml.contains("latency \"50 ms\""));
}

#[test]
fn supernodes_assigned() {
    let mut exp = test_experiment();
    exp.supernode_fraction = 0.05f64.to_bits();
    let nodes = assign_nodes(&exp);
    let supernode_count = (nodes.len() as f64 * 0.05).ceil() as usize;
    assert_eq!(supernode_count, 1); // 5% of 11 = 0.55 → 1
}

#[test]
fn layout_puts_validators_before_local_aggregators() {
    let exp = test_experiment();
    let nodes = assign_nodes(&exp);
    let roles: Vec<NodeRole> = nodes.iter().map(|n| n.role).collect();
    assert_eq!(
        roles,
        vec![
            NodeRole::Validator,
            NodeRole::Validator,
            NodeRole::Validator,
            NodeRole::Validator,
            NodeRole::LocalAggregator,
            NodeRole::Validator,
            NodeRole::Validator,
            NodeRole::Validator,
            NodeRole::Validator,
            NodeRole::LocalAggregator,
            NodeRole::GlobalAggregator,
        ]
    );
    let subnets: Vec<u32> = nodes.iter().map(|n| n.subnet_id).collect();
    assert_eq!(subnets, vec![0, 0, 0, 0, 0, 1, 1, 1, 1, 1, 0]);
    assert_eq!(nodes[0].listen_addr, "/ip4/10.0.0.1/udp/9090/quic-v1");
    assert_eq!(nodes[6].listen_addr, "/ip4/10.1.0.2/udp/9090/quic-v1");
    assert_eq!(nodes[10].listen_addr, "/ip4/10.255.0.11/udp/9090/quic-v1");
    for (j, node) in nodes.iter().enumerate() {
        assert_eq!(node.node_id as usize, j);
        assert_eq!(node.seed_addrs.len(), 10);
        assert_eq!(node.experiment.run_id, "test");
    }
}

#[test]
fn seeds_are_a_shuffle_of_the_other_nodes() {
    let exp = test_experiment();
    let nodes = assign_nodes(&exp);
    let mut others: Vec<String> = nodes
        .iter()
        .filter(|n| n.node_id != 3)
        .map(|n| n.listen_addr.clone())
        .collect();
    let mut seeds = nodes[3].seed_addrs.clone();
    others.sort();
    seeds.sort();
    assert_eq!(seeds, others);
    // the shuffle is seeded, so the layout repeats
    let again = assign_nodes(&exp);
    assert_eq!(again[3].seed_addrs, nodes[3].seed_addrs);
}

#[test]
fn addresses_and_names() {
    assert_eq!(subnet_ip(3, 0), "10.3.0.1");
    assert_eq!(subnet_ip(3, 253), "10.3.0.254");
    assert_eq!(subnet_ip(3, 254), "10.3.1.1");
    assert_eq!(global_aggregator_ip(300), "10.255.1.47");
    assert_eq!(listen_addr("1.2.3.4"), "/ip4/1.2.3.4/udp/9090/quic-v1");
    assert_eq!(extract_ip("/ip4/1.2.3.4/udp/9090/quic-v1"), "1.2.3.4");
    assert_eq!(extract_ip("no-slashes"), "0.0.0.0");
    assert_eq!(extract_ip("/a"), "0.0.0.0");
    assert_eq!(extract_ip("//"), "");
    assert_eq!(hostname(7), "node-7");
    assert_eq!(mbit(100), "100 Mbit");
}

#[test]
fn hosts_get_bandwidth_and_stop_time() {
    let exp = test_experiment();
    assert_eq!(stop_time(&exp), "70s");
    assert_eq!(host_bandwidth(&exp, false), ("50 Mbit".to_string(), "50 Mbit".to_string()));
    assert_eq!(host_bandwidth(&exp, true), ("1000 Mbit".to_string(), "1000 Mbit".to_string()));
    let nodes = assign_nodes(&exp);
    let hosts = plan_hosts(&exp, &nodes, &vec![2]);
    assert_eq!(hosts.len(), 11);
    assert_eq!(hosts[2].hostname, "node-2");
    assert_eq!(hosts[2].network_node_id, 2);
    assert_eq!(hosts[2].ip_addr, "10.0.0.3");
    assert_eq!(hosts[2].bandwidth_up, "1000 Mbit");
    assert_eq!(hosts[3].bandwidth_down, "50 Mbit");
}

#[test]
fn complete_graph_links_every_pair_once() {
    let edges = complete_edges(4);
    assert_eq!(edges, vec![(0, 1), (0, 2), (0, 3), (1, 2), (1, 3), (2, 3)]);
    let mut rng = StdRng::seed_from_u64(1);
    assert_eq!(graph_edges(&mut rng, 4, 3), edges);
    assert_eq!(graph_edges(&mut rng, 4, 0), edges);
}

#[test]
fn sparse_graph_gives_every_node_its_degree() {
    let mut rng = StdRng::seed_from_u64(7);
    let n = 30;
    let degree = 4;
    let edges = sparse_edges(&mut rng, n, degree);
    for w in edges.windows(2) {
        assert!(w[0] < w[1]);
    }
    for &(a, b) in &edges {
        assert!(a < b && b < n);
    }
    for node in 0..n {
        let d = edges.iter().filter(|&&(a, b)| a == node || b == node).count();
        assert!(d >= degree, "node {} has degree {}", node, d);
    }
    // each link was drawn by one of its ends
    assert!(edges.len() <= n * degree);
}

#[test]
fn insert_sorted_keeps_order_and_drops_repeats() {
    let mut edges = vec![(0, 2), (1, 3)];
    insert_sorted(&mut edges, (0, 5));
    insert_sorted(&mut edges, (0, 2));
    insert_sorted(&mut edges, (2, 3));
    assert_eq!(edges, vec![(0, 2), (0, 5), (1, 3), (2, 3)]);
}

#[test]
fn gml_text_is_exact() {
    let gml = render_gml(&vec![4, 9], &vec![(0, 1)], &vec![12]);
    let expected = [
        "graph [\n  directed 0\n",
        "  node [\n    id 4\n    hostname \"node-4\"\n  ]\n",
        "  node [\n    id 9\n    hostname \"node-9\"\n  ]\n",
        "  edge [\n    source 4\n    target 4\n    latency \"1 ms\"\n  ]\n",
        "  edge [\n    source 9\n    target 9\n    latency \"1 ms\"\n  ]\n",
        "  edge [\n    source 4\n    target 9\n    latency \"12 ms\"\n  ]\n",
        "]\n",
    ]
    .concat();
    assert_eq!(gml, expected);
}

#[test]
fn supernodes_are_distinct_members() {
    let ids: Vec<u32> = (0..11).collect();
    let mut rng = StdRng::seed_from_u64(3);
    let mut picks = choose_supernodes(&mut rng, &ids, 4);
    assert_eq!(picks.len(), 4);
    picks.sort();
    picks.dedup();
    assert_eq!(picks.len(), 4);
    assert!(picks.iter().all(|p| ids.contains(p)));
    assert!(choose_supernodes(&mut rng, &ids, 0).is_empty());
}

#[test]
fn seed_peers_keep_the_first_fifty() {
    let list: Vec<String> = (0..60).map(|i| format!("a{i}")).collect();
    assert_eq!(seed_peers(list.clone()), list[..50].to_vec());
    let short = vec!["x".to_string(), "y".to_string()];
    assert_eq!(seed_peers(short.clone()), short);
    assert!(seed_peers(Vec::new()).is_empty());
}

#[test]
fn without_local_aggregator_hosts_the_layout_is_the_total() {
    let mut exp = test_experiment();
    exp.local_aggregators_per_subnet = 0;
    let nodes = assign_nodes(&exp);
    assert_eq!(nodes.len(), exp.total_nodes());
    assert_eq!(nodes.len(), 9);
    // with a local aggregator host per subnet there are two more
    assert_eq!(assign_nodes(&test_experiment()).len(), test_experiment().total_nodes() + 2);
}

#[test]
fn seed_addrs_are_distinct_addresses_of_other_nodes() {
    let mut exp = test_experiment();
    exp.validator_count = 128;
    exp.subnet_count = 1;
    exp.local_aggregators_per_subnet = 1;
    let nodes = assign_nodes(&exp);
    let addrs: Vec<String> = nodes.iter().map(|n| n.listen_addr.clone()).collect();
    for node in &nodes {
        let mut seeds = node.seed_addrs.clone();
        assert!(seeds.iter().all(|s| addrs.contains(s) && *s != node.listen_addr));
        seeds.sort();
        seeds.dedup();
        assert_eq!(seeds.len(), 50);
    }
}
