use leansim::metrics::events::JsonlEvent;
use leansim::metrics::stats::{median, receipt_times, stage_times, threshold_time};
use leansim::metrics::summary::{latency_stats, tally_events, LatencyStats, TotalsOverflow};

fn sig_received(node_id: u32, duplicate: bool, byte_size: u64) -> JsonlEvent {
    JsonlEvent::SigReceived {
        node_id,
        from_id: 0,
        from_peer_id: "peer".into(),
        subnet_id: 0,
        duplicate,
        ts_ms: 150,
        byte_size,
    }
}

fn local_generated(subnet_id: u32, latency_ms: u64, byte_size: u64) -> JsonlEvent {
    JsonlEvent::LocalProofGenerated { node_id: 9, subnet_id, sig_count: 22, latency_ms, byte_size }
}

#[test]
fn median_sorts_the_values() {
    let mut v = vec![5, 1, 4, 1, 3];
    assert_eq!(median(&mut v), 3);
    assert_eq!(v, vec![1, 1, 3, 4, 5]);
}

#[test]
fn median_is_the_upper_middle() {
    assert_eq!(median(&mut vec![]), 0);
    assert_eq!(median(&mut vec![7]), 7);
    assert_eq!(median(&mut vec![4, 1, 3, 2]), 3);
    assert_eq!(median(&mut vec![9, 1, 5]), 5);
}

#[test]
fn threshold_time_needs_a_hundred_times() {
    let mut few: Vec<u64> = (0..99).rev().collect();
    assert_eq!(threshold_time(&mut few, 10), None);
    let mut times: Vec<u64> = (0..100).map(|t| 1000 - t).collect();
    assert_eq!(threshold_time(&mut times, 90), Some(990));
    assert_eq!(threshold_time(&mut times, 0), None);
    assert_eq!(threshold_time(&mut times, 101), None);
    assert_eq!(threshold_time(&mut times, 1), Some(901));
}

#[test]
fn stage_times_keep_aggregators_with_proofs() {
    let thresholds = vec![(1, 100), (2, 200), (3, 300)];
    let proofs = vec![(3, 350), (1, 130)];
    let (kept, compute) = stage_times(&thresholds, &proofs);
    assert_eq!(kept, vec![100, 300]);
    assert_eq!(compute, vec![30, 50]);
}

#[test]
fn latency_stats_of_values() {
    assert_eq!(latency_stats(&vec![]), None);
    assert_eq!(
        latency_stats(&vec![30, 10, 20, 40]),
        Some(LatencyStats { min: 10, max: 40, median: 30 })
    );
}

#[test]
fn tally_counts_and_sums() {
    let events = vec![
        JsonlEvent::NodePeerId { node_id: 1, peer_id: "p".into() },
        JsonlEvent::SigSent { node_id: 1, subnet_id: 0, seq: 0, ts_ms: 10, byte_size: 3072 },
        sig_received(2, false, 3100),
        sig_received(3, true, 3100),
        local_generated(1, 400, 131072),
        local_generated(0, 300, 131072),
        local_generated(1, 500, 131072),
        JsonlEvent::LocalProofReceived {
            node_id: 5,
            from_id: 9,
            from_peer_id: "q".into(),
            subnet_id: 1,
            covered_sigs: 22,
            duplicate: false,
            ts_ms: 450,
            byte_size: 131100,
        },
        JsonlEvent::GlobalProofCompleted { node_id: 5, total_sigs: 66, proof_count: 3, latency_ms: 900 },
        JsonlEvent::NodeStats { node_id: 1, bytes_sent: 1, bytes_received: 2, msgs_sent: 3, msgs_received: 4 },
    ];
    let t = tally_events(&events).unwrap();
    assert_eq!(t.first_local_proof_ms, Some(300));
    assert_eq!(t.global_latencies, vec![900]);
    assert_eq!(t.sigs_received, 2);
    assert_eq!(t.duplicate_sigs, 1);
    assert_eq!(t.unique_sigs, 1);
    assert_eq!(t.sigs_sent, 1);
    assert_eq!(t.total_bytes, 3072 + 3100 + 3100 + 3 * 131072 + 131100);
    assert_eq!(t.local_proof_latencies, vec![(1, vec![400, 500]), (0, vec![300])]);
}

#[test]
fn tally_reports_byte_overflow() {
    let events = vec![sig_received(1, false, u64::MAX), sig_received(2, false, 1)];
    assert_eq!(tally_events(&events).err(), Some(TotalsOverflow::ByteCountOverflow));
}

#[test]
fn duplicates_never_exceed_received_copies() {
    let events = vec![sig_received(1, true, 1), sig_received(2, true, 1), sig_received(3, false, 1)];
    let t = tally_events(&events).unwrap();
    assert!(t.duplicate_sigs <= t.sigs_received);
    assert_eq!(t.duplicate_sigs, 2);
    assert_eq!(t.unique_sigs, 1);
}

fn receipt(node_id: u32, duplicate: bool, ts_ms: u64) -> JsonlEvent {
    JsonlEvent::SigReceived {
        node_id,
        from_id: 0,
        from_peer_id: "p".into(),
        subnet_id: 0,
        duplicate,
        ts_ms,
        byte_size: 1,
    }
}

#[test]
fn receipts_are_grouped_by_node_in_order() {
    let events = vec![
        receipt(7, false, 30),
        receipt(2, false, 10),
        receipt(7, true, 31),
        JsonlEvent::SigSent { node_id: 5, subnet_id: 0, seq: 0, ts_ms: 1, byte_size: 1 },
        receipt(7, false, 20),
        receipt(4, true, 5),
        receipt(2, false, 12),
    ];
    assert_eq!(receipt_times(&events), vec![(2, vec![10, 12]), (7, vec![30, 20])]);
    assert!(receipt_times(&vec![]).is_empty());
}
