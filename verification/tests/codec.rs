use nat_traversal::addr::IpAddress;
use nat_traversal::addr::SockAddr;
use nat_traversal::protocol::DecodeError;
use nat_traversal::protocol::Message;

fn v4(a: u8, b: u8, c: u8, d: u8, port: u16) -> SockAddr {
    SockAddr { ip: IpAddress::V4 { a, b, c, d }, port }
}

fn v6(g: [u16; 8], port: u16) -> SockAddr {
    SockAddr {
        ip: IpAddress::V6 {
            g0: g[0],
            g1: g[1],
            g2: g[2],
            g3: g[3],
            g4: g[4],
            g5: g[5],
            g6: g[6],
            g7: g[7],
        },
        port,
    }
}

#[test]
fn decode_register() {
    let m = Message::decode("REG:alice:4000").unwrap();
    assert_eq!(m, Message::Register { id: "alice".to_string(), port: 4000 });
}

#[test]
fn decode_start_peer() {
    let m = Message::decode("START_PEER|127.0.0.1:5000|1700000000").unwrap();
    assert_eq!(
        m,
        Message::StartPunchWithPeer { timestamp: 1700000000, peer_addr: v4(127, 0, 0, 1, 5000) }
    );
}

#[test]
fn encode_forms() {
    assert_eq!(
        Message::Register { id: "alice".to_string(), port: 4000 }.encode(),
        "REG:alice:4000"
    );
    assert_eq!(
        Message::RegisterOk { external_addr: v4(203, 0, 113, 45, 5000) }.encode(),
        "OK:203.0.113.45:5000"
    );
    assert_eq!(Message::Discover { target: "bob".to_string() }.encode(), "FIND:bob");
    assert_eq!(
        Message::PeerFound { id: "bob".to_string(), addr: v4(10, 0, 0, 2, 7000) }.encode(),
        "PEER:bob:10.0.0.2:7000"
    );
    assert_eq!(Message::PeerNotFound { id: "carol".to_string() }.encode(), "NOPE:carol");
    assert_eq!(
        Message::HolePunch { from: "alice".to_string(), to: "bob".to_string() }.encode(),
        "PUNCH:alice:bob"
    );
    assert_eq!(Message::StartPunch { timestamp: 17 }.encode(), "START:17");
    assert_eq!(
        Message::StartPunchWithPeer { timestamp: 1700000000, peer_addr: v4(127, 0, 0, 1, 5000) }
            .encode(),
        "START_PEER|127.0.0.1:5000|1700000000"
    );
}

#[test]
fn encode_v6_form() {
    let a = v6([0x2001, 0xdb8, 0, 0, 0, 0, 0, 1], 8080);
    assert_eq!(
        Message::RegisterOk { external_addr: a }.encode(),
        "OK:[2001:db8:0:0:0:0:0:1]:8080"
    );
}

#[test]
fn round_trip_every_variant_v4() {
    let a = v4(192, 168, 1, 10, 5000);
    let msgs = vec![
        Message::Register { id: "alice".to_string(), port: 4000 },
        Message::RegisterOk { external_addr: a },
        Message::Discover { target: "bob".to_string() },
        Message::PeerFound { id: "bob".to_string(), addr: a },
        Message::PeerNotFound { id: "carol".to_string() },
        Message::HolePunch { from: "alice".to_string(), to: "bob".to_string() },
        Message::StartPunch { timestamp: 1700000000123 },
        Message::StartPunchWithPeer { timestamp: 1700000000123, peer_addr: a },
    ];
    for m in msgs {
        let decoded = Message::decode(&m.encode()).unwrap();
        assert_eq!(decoded, m);
    }
}

#[test]
fn round_trip_every_variant_v6() {
    let a = v6([0xfe80, 0, 0, 0, 0x1ff, 0xfe23, 0x4567, 0x890a], 443);
    let msgs = vec![
        Message::RegisterOk { external_addr: a },
        Message::PeerFound { id: "bob".to_string(), addr: a },
        Message::StartPunchWithPeer { timestamp: 1, peer_addr: a },
    ];
    for m in msgs {
        let decoded = Message::decode(&m.encode()).unwrap();
        assert_eq!(decoded, m);
    }
}

#[test]
fn round_trip_empty_id_and_port_edges() {
    let msgs = vec![
        Message::Register { id: "".to_string(), port: 0 },
        Message::Register { id: "x".to_string(), port: 65535 },
        Message::StartPunch { timestamp: u64::MAX },
    ];
    for m in msgs {
        let decoded = Message::decode(&m.encode()).unwrap();
        assert_eq!(decoded, m);
    }
}

#[test]
fn decode_rejects_short_input() {
    assert_eq!(Message::decode("X"), Err(DecodeError::InvalidFormat));
    assert_eq!(Message::decode(""), Err(DecodeError::InvalidFormat));
}

#[test]
fn decode_rejects_bad_port() {
    assert_eq!(Message::decode("REG:alice:70000"), Err(DecodeError::InvalidPort));
    assert_eq!(Message::decode("REG:alice:4o00"), Err(DecodeError::InvalidPort));
}

#[test]
fn decode_rejects_wrong_shape_under_known_head() {
    assert_eq!(Message::decode("REG:alice"), Err(DecodeError::UnknownType));
    assert_eq!(Message::decode("REG:alice:1:2"), Err(DecodeError::UnknownType));
    assert_eq!(Message::decode("PUNCH:alice"), Err(DecodeError::UnknownType));
    assert_eq!(Message::decode("PEER:bob"), Err(DecodeError::UnknownType));
}

#[test]
fn decode_rejects_bad_addresses() {
    assert_eq!(Message::decode("OK:nonsense"), Err(DecodeError::InvalidAddress));
    assert_eq!(Message::decode("OK:1.2.3.256:80"), Err(DecodeError::InvalidAddress));
    assert_eq!(Message::decode("PEER:bob:nonsense"), Err(DecodeError::InvalidPeerAddress));
    assert_eq!(
        Message::decode("START_PEER|299.0.0.1:80|123"),
        Err(DecodeError::InvalidPeerAddress)
    );
}

#[test]
fn decode_rejects_bad_timestamps() {
    assert_eq!(Message::decode("START:abc"), Err(DecodeError::InvalidTimestamp));
    assert_eq!(
        Message::decode("START_PEER|1.2.3.4:5|"),
        Err(DecodeError::InvalidTimestamp)
    );
    assert_eq!(
        Message::decode("START_PEER|1.2.3.4:5|99999999999999999999999"),
        Err(DecodeError::InvalidTimestamp)
    );
}

#[test]
fn decode_rejects_wrong_piece_counts_in_start_peer() {
    assert_eq!(Message::decode("START_PEER|1.2.3.4:5"), Err(DecodeError::InvalidStartPeerFormat));
    assert_eq!(
        Message::decode("START_PEER|1.2.3.4:5|1|2"),
        Err(DecodeError::InvalidStartPeerFormat)
    );
}

#[test]
fn decode_rejects_unknown_heads() {
    assert_eq!(Message::decode("WHAT:ever"), Err(DecodeError::UnknownType));
    assert_eq!(Message::decode("reg:alice:4000"), Err(DecodeError::UnknownType));
}

#[test]
fn decode_error_reasons() {
    assert_eq!(DecodeError::InvalidFormat.reason(), "Invalid message format");
    assert_eq!(DecodeError::InvalidStartPeerFormat.reason(), "Invalid START_PEER format");
    assert_eq!(DecodeError::InvalidPort.reason(), "Invalid port");
    assert_eq!(DecodeError::InvalidAddress.reason(), "Invalid address");
    assert_eq!(DecodeError::InvalidPeerAddress.reason(), "Invalid peer address");
    assert_eq!(DecodeError::InvalidTimestamp.reason(), "Invalid timestamp");
    assert_eq!(DecodeError::UnknownType.reason(), "Unknown message type");
}

#[test]
fn decode_takes_first_piece_for_single_field_heads() {
    assert_eq!(
        Message::decode("FIND:a:b").unwrap(),
        Message::Discover { target: "a".to_string() }
    );
    assert_eq!(
        Message::decode("NOPE:a:b").unwrap(),
        Message::PeerNotFound { id: "a".to_string() }
    );
}
