use sendme::error::SendmeError;
use sendme::hex::{hex_decode, hex_encode};
use sendme::manifest::ContentId;
use sendme::ticket::{parse_ticket, serialize_ticket, validate_ticket, ContentShape, HostAddr, Ticket};

fn id_of(b: u8) -> ContentId {
    ContentId::new(vec![b; 32])
}

fn sample_ticket() -> Ticket {
    Ticket {
        node_id: vec![0x22; 32],
        hosts: vec![
            HostAddr { ip: vec![127, 0, 0, 1], port: 4433 },
            HostAddr { ip: vec![0; 16], port: 443 },
        ],
        root: id_of(0x5a),
        shape: ContentShape::HashSequence,
    }
}

#[test]
fn hex_encode_known_bytes() {
    assert_eq!(hex_encode(&[0u8, 255, 16]), b"00ff10".to_vec());
    assert_eq!(hex_encode(&[]), Vec::<u8>::new());
}

#[test]
fn hex_decode_inverts_encode() {
    let bytes: Vec<u8> = (0u8..=255).collect();
    let enc = hex_encode(&bytes);
    assert_eq!(hex_decode(&enc), Some(bytes));
}

#[test]
fn hex_decode_rejects_odd_length() {
    assert_eq!(hex_decode(b"abc"), None);
}

#[test]
fn hex_decode_rejects_non_digits() {
    assert_eq!(hex_decode(b"zz"), None);
    // uppercase spellings are not produced, so they are not accepted
    assert_eq!(hex_decode(b"AB"), None);
}

#[test]
fn ticket_round_trip() {
    let t = sample_ticket();
    let text = serialize_ticket(&t);
    let back = parse_ticket(&text).expect("serialized ticket must parse");
    assert_eq!(back.node_id, t.node_id);
    assert_eq!(back.hosts.len(), 2);
    assert_eq!(back.hosts[0].ip, vec![127, 0, 0, 1]);
    assert_eq!(back.hosts[0].port, 4433);
    assert_eq!(back.hosts[1].ip, vec![0; 16]);
    assert_eq!(back.hosts[1].port, 443);
    assert_eq!(back.root.as_bytes(), t.root.as_bytes());
    assert_eq!(back.shape, ContentShape::HashSequence);
}

#[test]
fn ticket_round_trip_no_hosts_raw_blob() {
    let t = Ticket { node_id: vec![7; 32], hosts: vec![], root: id_of(9), shape: ContentShape::RawBlob };
    let text = serialize_ticket(&t);
    let back = parse_ticket(&text).expect("serialized ticket must parse");
    assert_eq!(back.hosts.len(), 0);
    assert_eq!(back.shape, ContentShape::RawBlob);
}

#[test]
fn parse_rejects_non_hex_text() {
    match parse_ticket("this is not a ticket") {
        Err(SendmeError::InvalidTicket { .. }) => {}
        other => panic!("expected InvalidTicket, got {:?}", other),
    }
}

#[test]
fn parse_rejects_wrong_version() {
    // a hex spelling whose first byte is not the ticket version
    let mut bytes = vec![2u8, 1];
    bytes.extend_from_slice(&[0; 65]);
    let text: String = bytes.iter().map(|b| format!("{:02x}", b)).collect();
    match parse_ticket(&text) {
        Err(SendmeError::InvalidTicket { .. }) => {}
        other => panic!("expected InvalidTicket, got {:?}", other),
    }
}

#[test]
fn parse_rejects_truncated_text() {
    match parse_ticket("0101") {
        Err(SendmeError::InvalidTicket { .. }) => {}
        other => panic!("expected InvalidTicket, got {:?}", other),
    }
}

#[test]
fn validate_describes_a_good_ticket() {
    let t = sample_ticket();
    let text = serialize_ticket(&t);
    let summary = validate_ticket(text).expect("valid ticket");
    let node_hex: String = "22".repeat(32);
    let hash_hex: String = "5a".repeat(32);
    let expected = format!(
        "valid ticket\nnode: {}\nhash: {}\nformat: hash sequence",
        node_hex, hash_hex
    );
    assert_eq!(summary, expected);
}

#[test]
fn validate_rejects_bad_text() {
    match validate_ticket("garbage".to_string()) {
        Err(SendmeError::InvalidTicket { .. }) => {}
        other => panic!("expected InvalidTicket, got {:?}", other),
    }
}

#[test]
fn content_id_hex_spelling() {
    let id = id_of(0xab);
    assert_eq!(id.to_hex(), "ab".repeat(32));
}

#[test]
fn error_labels_are_stable() {
    assert_eq!(SendmeError::ConnectionTimeout.label(), "connection timeout");
    assert_eq!(
        SendmeError::TargetAlreadyExists { path: "x".to_string() }.label(),
        "target already exists"
    );
}

#[test]
fn validate_names_the_raw_blob_shape() {
    let t = Ticket { node_id: vec![1; 32], hosts: vec![], root: id_of(2), shape: ContentShape::RawBlob };
    let summary = validate_ticket(serialize_ticket(&t)).expect("valid ticket");
    assert!(summary.ends_with("format: raw blob"));
}
