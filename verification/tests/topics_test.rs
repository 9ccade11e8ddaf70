use leansim::config::experiment::NodeRole;
use leansim::messages::wire::WireMessage;
use leansim::network::swarm::{judge_payload, mesh_warmup_ms, subscription_topics, Acceptance};
use leansim::network::topics::{aggregation_topic, subnet_topic};

#[test]
fn subnet_topic_format() {
    assert_eq!(subnet_topic("r1", 3), "/leansim/r1/subnet/3");
}

#[test]
fn aggregation_topic_format() {
    assert_eq!(aggregation_topic("r1"), "/leansim/r1/aggregation");
}

#[test]
fn subnet_topic_prints_large_ids_in_decimal() {
    assert_eq!(subnet_topic("x", 0), "/leansim/x/subnet/0");
    assert_eq!(subnet_topic("x", 4294967295), "/leansim/x/subnet/4294967295");
}

#[test]
fn each_role_follows_its_topics() {
    assert_eq!(
        subscription_topics(NodeRole::Validator, 2, "r"),
        vec!["/leansim/r/subnet/2".to_string()]
    );
    assert_eq!(
        subscription_topics(NodeRole::LocalAggregator, 2, "r"),
        vec!["/leansim/r/subnet/2".to_string(), "/leansim/r/aggregation".to_string()]
    );
    assert_eq!(
        subscription_topics(NodeRole::GlobalAggregator, 2, "r"),
        vec!["/leansim/r/aggregation".to_string()]
    );
}

fn proof_bytes() -> Vec<u8> {
    WireMessage::GlobalProof {
        run_id: "r".into(),
        sender_id: 5,
        covered_signature_count: 9,
        sequence_id: 0,
        created_timestamp_ms: 0,
        padding: vec![],
    }
    .encode()
}

#[test]
fn first_copies_are_accepted_and_duplicates_ignored() {
    let bytes = proof_bytes();
    let first = judge_payload(&bytes, false);
    assert_eq!(first.report, Some(Acceptance::Accept));
    assert_eq!(first.message.unwrap().sender_id(), 5);
    let dup = judge_payload(&bytes, true);
    assert_eq!(dup.report, Some(Acceptance::Ignore));
    assert!(dup.message.is_some());
}

#[test]
fn undecodable_payloads_are_rejected_or_dropped() {
    let garbage = [7u8, 0, 0];
    let first = judge_payload(&garbage, false);
    assert_eq!(first.report, Some(Acceptance::Reject));
    assert!(first.message.is_none());
    let dup = judge_payload(&garbage, true);
    assert_eq!(dup.report, None);
    assert!(dup.message.is_none());
}

#[test]
fn warmup_grows_with_large_seed_lists() {
    assert_eq!(mesh_warmup_ms(0), 1500);
    assert_eq!(mesh_warmup_ms(200), 1500);
    assert_eq!(mesh_warmup_ms(201), 3000);
}
