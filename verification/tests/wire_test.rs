use leansim::messages::codec::DecodeError;
use leansim::messages::wire::WireMessage;

#[test]
fn message_id_deterministic() {
    let a = WireMessage::ValidatorSignature {
        run_id: "test".into(),
        sender_id: 1,
        subnet_id: 0,
        sequence_id: 1,
        created_timestamp_ms: 100,
        padding: vec![0u8; 16],
    };
    let b = a.clone();
    assert_eq!(a.message_id(), b.message_id());
}

#[test]
fn message_id_differs_on_content() {
    let a = WireMessage::ValidatorSignature {
        run_id: "test".into(),
        sender_id: 1,
        subnet_id: 0,
        sequence_id: 1,
        created_timestamp_ms: 100,
        padding: vec![0u8; 16],
    };
    let b = WireMessage::ValidatorSignature {
        run_id: "test".into(),
        sender_id: 2,
        subnet_id: 0,
        sequence_id: 1,
        created_timestamp_ms: 100,
        padding: vec![0u8; 16],
    };
    assert_ne!(a.message_id(), b.message_id());
}

#[test]
fn roundtrip_all_variants() {
    let msgs = vec![
        WireMessage::ValidatorSignature {
            run_id: "r1".into(),
            sender_id: 0,
            subnet_id: 1,
            sequence_id: 42,
            created_timestamp_ms: 1000,
            padding: vec![7u8; 100],
        },
        WireMessage::LocalProof {
            run_id: "r1".into(),
            sender_id: 10,
            subnet_id: 1,
            covered_validator_count: 900,
            sequence_id: 1,
            created_timestamp_ms: 2000,
            padding: vec![0u8; 1000],
        },
        WireMessage::GlobalProof {
            run_id: "r1".into(),
            sender_id: 100,
            covered_signature_count: 7200,
            sequence_id: 1,
            created_timestamp_ms: 3000,
            padding: vec![],
        },
    ];
    for msg in msgs {
        let bytes = msg.encode();
        let decoded = WireMessage::decode(&bytes).unwrap();
        assert_eq!(msg.message_id(), decoded.message_id());
    }
}

#[test]
fn with_payload_size_approximates_target() {
    let msg = WireMessage::GlobalProof {
        run_id: "r".into(),
        sender_id: 0,
        covered_signature_count: 0,
        sequence_id: 0,
        created_timestamp_ms: 0,
        padding: vec![],
    };
    let sized = msg.with_payload_size(4096);
    let bytes = sized.encode();
    // Should be close to target (not exact due to length prefix, but within reason)
    assert!(
        bytes.len() >= 4096 && bytes.len() < 4200,
        "expected >= 4096, got {}",
        bytes.len()
    );
}

fn small_signature() -> WireMessage {
    WireMessage::ValidatorSignature {
        run_id: "r".into(),
        sender_id: 1,
        subnet_id: 2,
        sequence_id: 3,
        created_timestamp_ms: 4,
        padding: vec![9],
    }
}

#[test]
fn encoding_is_little_endian_with_length_prefixes() {
    let bytes = small_signature().encode();
    let expected: Vec<u8> = vec![
        0, 0, 0, 0, // variant tag
        1, 0, 0, 0, 0, 0, 0, 0, b'r', // run id
        1, 0, 0, 0, // sender
        2, 0, 0, 0, // subnet
        3, 0, 0, 0, 0, 0, 0, 0, // sequence
        4, 0, 0, 0, 0, 0, 0, 0, // timestamp
        1, 0, 0, 0, 0, 0, 0, 0, 9, // padding
    ];
    assert_eq!(bytes, expected);
}

#[test]
fn message_id_is_sha256_of_the_encoding() {
    let id = small_signature().message_id();
    let hex: String = id.iter().map(|b| format!("{:02x}", b)).collect();
    assert_eq!(
        hex,
        "a3fccec7b6b48be29a1860eb782697dda41b8b7fb7ee4bffa856a5748fe5071c"
    );
}

#[test]
fn payload_size_replaces_the_old_padding() {
    // the old padding is dropped; the new padding brings the message
    // without padding up to the target
    let msg = small_signature();
    let len = msg.encode().len();
    assert_eq!(len, 46);
    let sized = msg.with_payload_size(10);
    assert_eq!(sized.encode().len(), 45);
    let grown = small_signature().with_payload_size(len + 5);
    assert_eq!(grown.encode().len(), 51);
}

#[test]
fn payload_size_reaches_the_target_and_resizing_keeps_it() {
    let msg = WireMessage::GlobalProof {
        run_id: "r".into(),
        sender_id: 0,
        covered_signature_count: 0,
        sequence_id: 0,
        created_timestamp_ms: 0,
        padding: vec![0u8; 10],
    };
    let sized = msg.with_payload_size(100);
    assert_eq!(sized.encode().len(), 100);
    let again = sized.clone().with_payload_size(100);
    assert_eq!(again.encode(), sized.encode());
}

#[test]
fn decode_reports_each_error() {
    let bytes = small_signature().encode();
    assert_eq!(
        WireMessage::decode(&bytes[..bytes.len() - 1]).unwrap_err(),
        DecodeError::UnexpectedEnd
    );
    assert_eq!(WireMessage::decode(&[]).unwrap_err(), DecodeError::UnexpectedEnd);

    let mut bad_tag = bytes.clone();
    bad_tag[0] = 3;
    assert_eq!(WireMessage::decode(&bad_tag).unwrap_err(), DecodeError::InvalidVariant);

    let mut bad_text = bytes.clone();
    bad_text[12] = 0xff;
    assert_eq!(WireMessage::decode(&bad_text).unwrap_err(), DecodeError::InvalidUtf8);

    let mut huge_len = bytes.clone();
    huge_len[11] = 0xff;
    assert_eq!(WireMessage::decode(&huge_len).unwrap_err(), DecodeError::UnexpectedEnd);
}

#[test]
fn decode_ignores_trailing_bytes() {
    let mut bytes = small_signature().encode();
    bytes.extend_from_slice(&[1, 2, 3]);
    let decoded = WireMessage::decode(&bytes).unwrap();
    assert_eq!(decoded.message_id(), small_signature().message_id());
    assert_eq!(decoded.sender_id(), 1);
    assert_eq!(decoded.run_id(), "r");
}
