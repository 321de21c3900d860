use nat_traversal::addr::IpAddress;
use nat_traversal::addr::SockAddr;
use nat_traversal::protocol::Message;
use nat_traversal::server::PUNCH_OFFSET_MS;
use nat_traversal::server::Server;

fn v4(a: u8, b: u8, c: u8, d: u8, port: u16) -> SockAddr {
    SockAddr { ip: IpAddress::V4 { a, b, c, d }, port }
}

fn register(server: &mut Server, id: &str, sender: SockAddr, claimed_port: u16) -> SockAddr {
    let replies = server.handle_message(
        Message::Register { id: id.to_string(), port: claimed_port },
        sender,
        1000,
    );
    assert_eq!(replies.len(), 1);
    let (dest, msg) = &replies[0];
    assert_eq!(*dest, sender);
    match msg {
        Message::RegisterOk { external_addr } => *external_addr,
        other => panic!("expected RegisterOk, got {:?}", other),
    }
}

#[test]
fn registration_stores_observed_ip_with_claimed_port() {
    let mut server = Server::new();
    // The client sends from 198.51.100.7:40000 but claims port 4123; the
    // stored external address combines the observed IP with the claimed
    // port, whatever the client says about itself.
    let sender = v4(198, 51, 100, 7, 40000);
    let ext = register(&mut server, "alice", sender, 4123);
    assert_eq!(ext, v4(198, 51, 100, 7, 4123));

    let replies = server.handle_message(
        Message::Discover { target: "alice".to_string() },
        v4(1, 2, 3, 4, 9),
        2000,
    );
    assert_eq!(replies.len(), 1);
    match &replies[0].1 {
        Message::PeerFound { id, addr } => {
            assert_eq!(id, "alice");
            assert_eq!(*addr, v4(198, 51, 100, 7, 4123));
        },
        other => panic!("expected PeerFound, got {:?}", other),
    }
}

#[test]
fn reregistration_overwrites() {
    let mut server = Server::new();
    register(&mut server, "alice", v4(10, 0, 0, 1, 50), 5001);
    let ext = register(&mut server, "alice", v4(10, 0, 0, 9, 50), 5009);
    assert_eq!(ext, v4(10, 0, 0, 9, 5009));
    let replies = server.handle_message(
        Message::Discover { target: "alice".to_string() },
        v4(1, 2, 3, 4, 9),
        2000,
    );
    match &replies[0].1 {
        Message::PeerFound { addr, .. } => assert_eq!(*addr, v4(10, 0, 0, 9, 5009)),
        other => panic!("expected PeerFound, got {:?}", other),
    }
}

#[test]
fn discovery_answers_from_any_sender() {
    let mut server = Server::new();
    let a = register(&mut server, "alice", v4(10, 0, 0, 1, 4000), 4000);
    register(&mut server, "bob", v4(10, 0, 0, 2, 4001), 4001);

    let stranger = v4(172, 16, 0, 99, 1234);
    let replies = server.handle_message(
        Message::Discover { target: "alice".to_string() },
        stranger,
        5000,
    );
    assert_eq!(replies.len(), 1);
    assert_eq!(replies[0].0, stranger);
    assert_eq!(replies[0].1, Message::PeerFound { id: "alice".to_string(), addr: a });

    let replies = server.handle_message(
        Message::Discover { target: "carol".to_string() },
        stranger,
        5000,
    );
    assert_eq!(replies.len(), 1);
    assert_eq!(replies[0].1, Message::PeerNotFound { id: "carol".to_string() });
}

#[test]
fn hole_punch_notifies_both_sides_with_one_timestamp() {
    let mut server = Server::new();
    let a = register(&mut server, "alice", v4(10, 0, 0, 1, 4000), 4000);
    let b = register(&mut server, "bob", v4(10, 0, 0, 2, 4001), 4001);

    let now = 1_700_000_000_000;
    let replies = server.handle_message(
        Message::HolePunch { from: "alice".to_string(), to: "bob".to_string() },
        a,
        now,
    );
    assert_eq!(replies.len(), 2);
    assert_eq!(replies[0].0, a);
    assert_eq!(replies[1].0, b);
    let (ts1, peer1) = match &replies[0].1 {
        Message::StartPunchWithPeer { timestamp, peer_addr } => (*timestamp, *peer_addr),
        other => panic!("expected StartPunchWithPeer, got {:?}", other),
    };
    let (ts2, peer2) = match &replies[1].1 {
        Message::StartPunchWithPeer { timestamp, peer_addr } => (*timestamp, *peer_addr),
        other => panic!("expected StartPunchWithPeer, got {:?}", other),
    };
    assert_eq!(ts1, ts2);
    assert_eq!(ts1, now + PUNCH_OFFSET_MS);
    assert_eq!(peer1, b);
    assert_eq!(peer2, a);
}

#[test]
fn hole_punch_with_unregistered_party_sends_nothing() {
    let mut server = Server::new();
    let a = register(&mut server, "alice", v4(10, 0, 0, 1, 4000), 4000);

    let replies = server.handle_message(
        Message::HolePunch { from: "alice".to_string(), to: "bob".to_string() },
        a,
        1000,
    );
    assert_eq!(replies.len(), 0);

    let replies = server.handle_message(
        Message::HolePunch { from: "carol".to_string(), to: "alice".to_string() },
        a,
        1000,
    );
    assert_eq!(replies.len(), 0);
}

#[test]
fn other_messages_are_ignored() {
    let mut server = Server::new();
    let sender = v4(10, 0, 0, 1, 4000);
    assert_eq!(server.handle_message(Message::StartPunch { timestamp: 1 }, sender, 1000).len(), 0);
    assert_eq!(
        server
            .handle_message(
                Message::PeerNotFound { id: "x".to_string() },
                sender,
                1000,
            )
            .len(),
        0
    );
}
