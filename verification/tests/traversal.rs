use nat_traversal::addr::IpAddress;
use nat_traversal::addr::SockAddr;
use nat_traversal::protocol::Message;
use nat_traversal::session::ClientAction;
use nat_traversal::session::ClientState;
use nat_traversal::session::DEFAULT_RENDEZVOUS_PORT;
use nat_traversal::session::PUNCH_BURST_COUNT;
use nat_traversal::session::PUNCH_INTERVAL_MS;
use nat_traversal::session::message_payload;
use nat_traversal::session::punch_burst_packets;
use nat_traversal::session::register_reply_external_addr;
use nat_traversal::stats::ConnectionState;
use nat_traversal::stats::NatConsoleLogger;
use nat_traversal::stats::NatSummary;
use nat_traversal::server::Server;
use nat_traversal::stats::pad_string;
use nat_traversal::stats::truncate_string;

fn v4(a: u8, b: u8, c: u8, d: u8, port: u16) -> SockAddr {
    SockAddr { ip: IpAddress::V4 { a, b, c, d }, port }
}

#[test]
fn test_console_logger_creation() {
    let local_addr = v4(192, 168, 1, 10, 5000);
    let logger = NatConsoleLogger::new(local_addr);
    assert_eq!(logger.local_addr(), local_addr);
}

#[test]
fn test_peer_discovery_logging() {
    let local_addr = v4(192, 168, 1, 10, 5000);
    let mut logger = NatConsoleLogger::new(local_addr);

    let peer_addr = v4(192, 168, 2, 10, 5000);
    logger.log_peer_discovery("alice".to_string(), Some(peer_addr));

    assert!(logger.has_peer("alice"));
    assert_eq!(logger.get_stats("alice").unwrap().peer_addr, Some(peer_addr));
}

#[test]
fn test_hole_punch_tracking() {
    let local_addr = v4(192, 168, 1, 10, 5000);
    let mut logger = NatConsoleLogger::new(local_addr);

    logger.log_peer_discovery("bob".to_string(), None);
    logger.log_hole_punch_attempt("bob", 1000);
    logger.log_hole_punch_success("bob", 150);

    let stats = logger.get_stats("bob").unwrap();
    assert_eq!(stats.hole_punch_attempts, 1);
    assert_eq!(stats.successful_hole_punches, 1);
    assert_eq!(stats.total_latency_ms, 150);
    assert!(stats.traversal_success);
}

#[test]
fn lifecycle_progresses_and_never_regresses_without_discovery() {
    let mut logger = NatConsoleLogger::new(v4(192, 168, 1, 10, 5000));
    logger.log_peer_discovery("bob".to_string(), Some(v4(192, 168, 2, 10, 5000)));
    assert_eq!(logger.get_stats("bob").unwrap().connection_state, ConnectionState::Discovering);

    logger.log_hole_punch_attempt("bob", 1000);
    assert_eq!(logger.get_stats("bob").unwrap().connection_state, ConnectionState::HolePunching);

    logger.log_hole_punch_success("bob", 42);
    assert_eq!(logger.get_stats("bob").unwrap().connection_state, ConnectionState::Connected);

    logger.log_direct_message_sent("bob", "hi");
    logger.log_direct_message_received("bob", "hey", v4(192, 168, 2, 10, 5000));
    assert_eq!(logger.get_stats("bob").unwrap().connection_state, ConnectionState::Connected);

    // Only a fresh discovery restarts the lifecycle.
    logger.log_peer_discovery("bob".to_string(), None);
    assert_eq!(logger.get_stats("bob").unwrap().connection_state, ConnectionState::Discovering);
}

#[test]
fn failure_counts_errors() {
    let mut logger = NatConsoleLogger::new(v4(192, 168, 1, 10, 5000));
    logger.log_peer_discovery("eve".to_string(), None);
    logger.log_hole_punch_attempt("eve", 1);
    logger.log_hole_punch_failure("eve");
    let stats = logger.get_stats("eve").unwrap();
    assert_eq!(stats.connection_state, ConnectionState::Failed);
    assert_eq!(stats.error_count, 1);
}

#[test]
fn summary_totals() {
    let mut logger = NatConsoleLogger::new(v4(192, 168, 1, 10, 5000));
    logger.log_peer_discovery("bob".to_string(), Some(v4(192, 168, 2, 10, 5000)));
    logger.log_hole_punch_attempt("bob", 1);
    logger.log_hole_punch_success("bob", 145);
    logger.log_direct_message_sent("bob", "hi");
    logger.log_direct_message_received("bob", "hey", v4(192, 168, 2, 10, 5000));
    logger.log_peer_discovery("charlie".to_string(), None);
    logger.log_hole_punch_attempt("charlie", 2);
    logger.log_hole_punch_attempt("charlie", 3);
    logger.log_hole_punch_failure("charlie");

    let s: NatSummary = logger.summary();
    assert_eq!(s.total_peers, 2);
    assert_eq!(s.successful_connections, 1);
    assert_eq!(s.total_attempts, 3);
    assert_eq!(s.total_successes, 1);
    assert_eq!(s.total_messages, 2);
}

#[test]
fn state_labels() {
    assert_eq!(ConnectionState::Discovering.label(), "DISC");
    assert_eq!(ConnectionState::HolePunching.label(), "PUNCH");
    assert_eq!(ConnectionState::Connected.label(), "CONN");
    assert_eq!(ConnectionState::Failed.label(), "FAIL");
    assert_eq!(ConnectionState::Disconnected.label(), "DISC");
}

#[test]
fn truncate_and_pad() {
    assert_eq!(truncate_string("hello", 10), "hello");
    assert_eq!(truncate_string("helloworld", 8), "hello...");
    assert_eq!(truncate_string("abc", 3), "abc");
    assert_eq!(pad_string("hi", 5), "hi   ");
    assert_eq!(pad_string("toolong", 5), "to...");
    assert_eq!(pad_string("exact", 5), "exact");
}

#[test]
fn burst_is_exactly_ten_numbered_probes() {
    let packets = punch_burst_packets();
    assert_eq!(packets.len(), 10);
    assert_eq!(PUNCH_BURST_COUNT, 10);
    assert_eq!(PUNCH_INTERVAL_MS, 50);
    for (i, p) in packets.iter().enumerate() {
        assert_eq!(*p, format!("PUNCH:{}", i));
    }
}

#[test]
fn coordination_triggers_burst_and_records_peer() {
    let mut state = ClientState::new("alice".to_string(), v4(192, 168, 1, 10, 5000));
    let server = v4(127, 0, 0, 1, DEFAULT_RENDEZVOUS_PORT);
    let peer = v4(203, 0, 113, 45, 7000);

    let wire = Message::StartPunchWithPeer { timestamp: 123456, peer_addr: peer }.encode();
    let actions = state.handle_datagram(server, &wire, DEFAULT_RENDEZVOUS_PORT, 1000);

    assert_eq!(actions.len(), 1);
    match &actions[0] {
        ClientAction::ExecuteBurst { peer: p, start_at_ms } => {
            assert_eq!(*p, peer);
            assert_eq!(*start_at_ms, 123456);
        },
        other => panic!("expected ExecuteBurst, got {:?}", other),
    }
    assert_eq!(state.connected_peer_addr(), Some(peer));
    assert!(state.has_connections());
    let stats = state.logger().get_stats("peer").unwrap();
    assert_eq!(stats.hole_punch_attempts, 10);
    assert_eq!(stats.peer_addr, Some(peer));
    assert_eq!(stats.connection_state, ConnectionState::HolePunching);
}

#[test]
fn peer_found_is_recorded() {
    let mut state = ClientState::new("alice".to_string(), v4(192, 168, 1, 10, 5000));
    let server = v4(127, 0, 0, 1, DEFAULT_RENDEZVOUS_PORT);
    let bob = v4(10, 0, 0, 2, 4001);

    let wire = Message::PeerFound { id: "bob".to_string(), addr: bob }.encode();
    let actions = state.handle_datagram(server, &wire, DEFAULT_RENDEZVOUS_PORT, 1000);
    assert_eq!(actions.len(), 0);
    assert_eq!(state.logger().get_stats("bob").unwrap().peer_addr, Some(bob));
    assert_eq!(
        state.logger().get_stats("bob").unwrap().connection_state,
        ConnectionState::Discovering
    );
}

#[test]
fn garbled_signaling_is_dropped() {
    let mut state = ClientState::new("alice".to_string(), v4(192, 168, 1, 10, 5000));
    let server = v4(127, 0, 0, 1, DEFAULT_RENDEZVOUS_PORT);
    let actions = state.handle_datagram(server, "garbage", DEFAULT_RENDEZVOUS_PORT, 1000);
    assert_eq!(actions.len(), 0);
    assert!(!state.has_connections());
}

#[test]
fn inbound_probe_is_acknowledged_and_connects() {
    let mut state = ClientState::new("alice".to_string(), v4(192, 168, 1, 10, 5000));
    let peer = v4(203, 0, 113, 45, 7000);

    let actions = state.handle_datagram(peer, "PUNCH:3", DEFAULT_RENDEZVOUS_PORT, 1000);
    assert_eq!(actions.len(), 1);
    match &actions[0] {
        ClientAction::SendTo { dest, payload } => {
            assert_eq!(*dest, peer);
            assert_eq!(*payload, "PUNCH_ACK:alice");
        },
        other => panic!("expected SendTo, got {:?}", other),
    }
    assert_eq!(state.connected_peer_addr(), Some(peer));
    assert_eq!(
        state.logger().get_stats("peer").map(|s| s.connection_state),
        None
    );
}

#[test]
fn inbound_ack_connects_silently() {
    let mut state = ClientState::new("alice".to_string(), v4(192, 168, 1, 10, 5000));
    let peer = v4(203, 0, 113, 45, 7000);
    let actions = state.handle_datagram(peer, "PUNCH_ACK:bob", DEFAULT_RENDEZVOUS_PORT, 1000);
    assert_eq!(actions.len(), 0);
    assert_eq!(state.connected_peer_addr(), Some(peer));
}

#[test]
fn inbound_message_is_delivered() {
    let mut state = ClientState::new("alice".to_string(), v4(192, 168, 1, 10, 5000));
    let peer = v4(203, 0, 113, 45, 7000);
    let actions = state.handle_datagram(peer, "MSG:hello there", DEFAULT_RENDEZVOUS_PORT, 1000);
    assert_eq!(actions.len(), 1);
    match &actions[0] {
        ClientAction::DeliverMessage { from, text } => {
            assert_eq!(*from, peer);
            assert_eq!(*text, "hello there");
        },
        other => panic!("expected DeliverMessage, got {:?}", other),
    }
    // A message alone does not create a connection entry.
    assert!(!state.has_connections());
}

#[test]
fn unknown_peer_traffic_is_ignored() {
    let mut state = ClientState::new("alice".to_string(), v4(192, 168, 1, 10, 5000));
    let peer = v4(203, 0, 113, 45, 7000);
    let actions = state.handle_datagram(peer, "HELLO?", DEFAULT_RENDEZVOUS_PORT, 1000);
    assert_eq!(actions.len(), 0);
    assert!(!state.has_connections());
}

#[test]
fn register_reply_carries_the_address_only_when_acknowledged() {
    let ext = v4(203, 0, 113, 45, 4000);
    assert_eq!(
        register_reply_external_addr(&Message::RegisterOk { external_addr: ext }),
        Some(ext)
    );
    assert_eq!(
        register_reply_external_addr(&Message::PeerNotFound { id: "alice".to_string() }),
        None
    );
}

#[test]
fn message_payload_is_tagged() {
    assert_eq!(message_payload("hello"), "MSG:hello");
    assert_eq!(message_payload(""), "MSG:");
}

#[test]
fn end_to_end_rendezvous_and_messaging() {
    let rport = DEFAULT_RENDEZVOUS_PORT;
    let server_addr = v4(127, 0, 0, 1, rport);
    let mut server = Server::new();

    // Both clients register; the server observes their source IPs.
    let a_src = v4(10, 0, 0, 1, 4000);
    let b_src = v4(10, 0, 0, 2, 4001);
    let mut a = ClientState::new("A".to_string(), a_src);
    let mut b = ClientState::new("B".to_string(), b_src);

    let reg_a = Message::decode(
        &Message::Register { id: "A".to_string(), port: 4000 }.encode(),
    )
    .unwrap();
    let replies = server.handle_message(reg_a, a_src, 1000);
    let a_ext = match &replies[0].1 {
        Message::RegisterOk { external_addr } => *external_addr,
        other => panic!("expected RegisterOk, got {:?}", other),
    };
    a.set_external_addr(a_ext);

    let reg_b = Message::decode(
        &Message::Register { id: "B".to_string(), port: 4001 }.encode(),
    )
    .unwrap();
    let replies = server.handle_message(reg_b, b_src, 1001);
    let b_ext = match &replies[0].1 {
        Message::RegisterOk { external_addr } => *external_addr,
        other => panic!("expected RegisterOk, got {:?}", other),
    };
    b.set_external_addr(b_ext);

    // A discovers B.
    let replies = server.handle_message(
        Message::decode(&Message::Discover { target: "B".to_string() }.encode()).unwrap(),
        a_src,
        2000,
    );
    assert_eq!(replies[0].1, Message::PeerFound { id: "B".to_string(), addr: b_ext });

    // A asks for punch coordination; both sides get one timestamp.
    let replies = server.handle_message(
        Message::decode(
            &Message::HolePunch { from: "A".to_string(), to: "B".to_string() }.encode(),
        )
        .unwrap(),
        a_src,
        3000,
    );
    assert_eq!(replies.len(), 2);
    assert_eq!(replies[0].0, a_ext);
    assert_eq!(replies[1].0, b_ext);

    let wire_to_a = replies[0].1.encode();
    let wire_to_b = replies[1].1.encode();
    let acts_a = a.handle_datagram(server_addr, &wire_to_a, rport, 3001);
    let acts_b = b.handle_datagram(server_addr, &wire_to_b, rport, 3001);

    let (a_start, a_peer) = match &acts_a[0] {
        ClientAction::ExecuteBurst { peer, start_at_ms } => (*start_at_ms, *peer),
        other => panic!("expected ExecuteBurst, got {:?}", other),
    };
    let (b_start, b_peer) = match &acts_b[0] {
        ClientAction::ExecuteBurst { peer, start_at_ms } => (*start_at_ms, *peer),
        other => panic!("expected ExecuteBurst, got {:?}", other),
    };
    assert_eq!(a_start, b_start);
    assert_eq!(a_peer, b_ext);
    assert_eq!(b_peer, a_ext);

    // Each side's burst reaches the other: a probe is acknowledged, the
    // acknowledgment lands back, and both tables mark the peer connected.
    let acts = b.handle_datagram(a_ext, "PUNCH:0", rport, 4000);
    let ack_payload = match &acts[0] {
        ClientAction::SendTo { dest, payload } => {
            assert_eq!(*dest, a_ext);
            payload.clone()
        },
        other => panic!("expected SendTo, got {:?}", other),
    };
    assert_eq!(ack_payload, "PUNCH_ACK:B");
    a.handle_datagram(b_ext, &ack_payload, rport, 4001);

    assert_eq!(a.connected_peer_addr(), Some(b_ext));
    assert_eq!(b.connected_peer_addr(), Some(a_ext));
    assert_eq!(
        b.logger().get_stats("peer").unwrap().connection_state,
        ConnectionState::Connected
    );

    // A sends a direct message; B's receiver delivers it.
    let payload = message_payload("hello");
    let acts = b.handle_datagram(a_ext, &payload, rport, 5000);
    match &acts[0] {
        ClientAction::DeliverMessage { from, text } => {
            assert_eq!(*from, a_ext);
            assert_eq!(*text, "hello");
        },
        other => panic!("expected DeliverMessage, got {:?}", other),
    }
}
