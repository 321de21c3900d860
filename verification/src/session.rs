//! The client side: the shared peer table, the classification and
//! handling of every inbound datagram (the background receiver's
//! decisions), and the punch burst plan. All I/O and timing stays with
//! the caller, which performs the returned actions.

use vstd::prelude::*;

use crate::addr::SockAddr;
use crate::protocol::Message;
use crate::protocol::MsgView;
use crate::protocol::spec_decode;
use crate::stats::LoggerView;
use crate::stats::NatConsoleLogger;
use crate::stats::StatsView;
use crate::stats::after_attempt;
use crate::stats::after_discovery;
use crate::stats::after_msg_received;
use crate::stats::after_success;
use crate::stats::find_key;
use crate::stats::fresh_stats;
use crate::stats::lemma_find_key;
use crate::stats::lemma_find_key_push;
use crate::stats::lemma_find_key_update;
use crate::text::has_prefix;
use crate::text::starts_with_str;
use crate::text::str_eq;

verus! {

/// How many probe datagrams one punch burst sends.
pub const PUNCH_BURST_COUNT: usize = 10;

/// The pause between two probe datagrams of a burst, in milliseconds.
pub const PUNCH_INTERVAL_MS: u64 = 50;

/// The rendezvous server's well-known port unless overridden.
pub const DEFAULT_RENDEZVOUS_PORT: u16 = 9090;

/// The fixed key every punched connection is recorded under.
pub open spec fn peer_key() -> Seq<char> {
    "peer"@
}

/// The prefix that marks an application message on the peer channel.
pub open spec fn msg_prefix() -> Seq<char> {
    "MSG:"@
}

/// The prefix that marks an inbound punch probe on the peer channel.
pub open spec fn punch_prefix() -> Seq<char> {
    "PUNCH:"@
}

/// The prefix that marks a punch acknowledgment on the peer channel.
pub open spec fn punch_ack_prefix() -> Seq<char> {
    "PUNCH_ACK:"@
}

/// The first address under a key, if any.
pub open spec fn table_lookup(s: Seq<(Seq<char>, SockAddr)>, k: Seq<char>) -> Option<SockAddr> {
    match find_key(s, k) {
        Some(i) => Some(s[i].1),
        None => None,
    }
}

/// The table after storing an address under a key: the key's entry
/// overwritten, or a new entry appended.
pub open spec fn table_upserted(
    s: Seq<(Seq<char>, SockAddr)>,
    k: Seq<char>,
    a: SockAddr,
) -> Seq<(Seq<char>, SockAddr)> {
    match find_key(s, k) {
        Some(i) => s.update(i, (k, a)),
        None => s.push((k, a)),
    }
}

/// The peer connection table shared between the caller's operations
/// and the background receiver.
pub struct PeerTable {
    entries: Vec<(String, SockAddr)>,
}

impl View for PeerTable {
    type V = Seq<(Seq<char>, SockAddr)>;

    closed spec fn view(&self) -> Seq<(Seq<char>, SockAddr)> {
        self.entries@.map_values(|p: (String, SockAddr)| (p.0@, p.1))
    }
}

impl PeerTable {
    /// An empty table.
    pub fn new() -> (r: PeerTable)
        ensures
            r@ == Seq::<(Seq<char>, SockAddr)>::empty(),
    {
        let r = PeerTable { entries: Vec::new() };
        proof {
            assert(r@ =~= Seq::<(Seq<char>, SockAddr)>::empty());
        }
        r
    }

    /// The first entry index under a key, if any.
    fn find_index(&self, key: &str) -> (r: Option<usize>)
        ensures
            match r {
                Some(i) => find_key(self@, key@) == Some(i as int),
                None => find_key(self@, key@) is None,
            },
    {
        let n = self.entries.len();
        let mut i: usize = 0;
        while i < n
            invariant
                n == self.entries@.len(),
                0 <= i <= n,
                forall|j: int| 0 <= j < i ==> (#[trigger] self.entries@[j]).0@ != key@,
            decreases n - i,
        {
            if str_eq(self.entries[i].0.as_str(), key) {
                proof {
                    lemma_find_key(self@, key@);
                    assert(self@[i as int].0 == key@);
                    assert forall|j: int| 0 <= j < i implies (#[trigger] self@[j]).0 != key@ by {
                        assert(self.entries@[j].0@ != key@);
                    }
                }
                return Some(i);
            }
            i += 1;
        }
        proof {
            lemma_find_key(self@, key@);
            assert forall|j: int| 0 <= j < self@.len() implies (#[trigger] self@[j]).0 != key@ by {
                assert(self.entries@[j].0@ != key@);
            }
        }
        None
    }

    /// Stores an address under a key; a repeated key is overwritten.
    pub fn upsert(&mut self, key: String, addr: SockAddr)
        ensures
            final(self)@ == table_upserted(old(self)@, key@, addr),
    {
        match self.find_index(key.as_str()) {
            Some(i) => {
                proof {
                    lemma_find_key(self@, key@);
                }
                self.entries[i] = (key, addr);
                proof {
                    assert(self@ =~= old(self)@.update(
                        find_key(old(self)@, key@).unwrap(),
                        (key@, addr),
                    ));
                }
            },
            None => {
                self.entries.push((key, addr));
                proof {
                    assert(self@ =~= old(self)@.push((key@, addr)));
                }
            },
        }
    }

    /// The address stored under a key, if any.
    pub fn lookup(&self, key: &str) -> (r: Option<SockAddr>)
        ensures
            r == table_lookup(self@, key@),
    {
        match self.find_index(key) {
            Some(i) => {
                proof {
                    lemma_find_key(self@, key@);
                }
                Some(self.entries[i].1)
            },
            None => None,
        }
    }

    /// All stored addresses, in insertion order.
    pub fn addresses(&self) -> (r: Vec<SockAddr>)
        ensures
            r@.len() == self@.len(),
            forall|i: int| 0 <= i < self@.len() ==> #[trigger] r@[i] == self@[i].1,
    {
        let n = self.entries.len();
        let mut r: Vec<SockAddr> = Vec::new();
        let mut i: usize = 0;
        while i < n
            invariant
                n == self.entries@.len(),
                0 <= i <= n,
                r@.len() == i,
                forall|j: int| 0 <= j < i ==> #[trigger] r@[j] == self.entries@[j].1,
            decreases n - i,
        {
            r.push(self.entries[i].1);
            i += 1;
        }
        r
    }

    /// Whether any peer is recorded.
    pub fn is_empty(&self) -> (r: bool)
        ensures
            r == (self@.len() == 0),
    {
        self.entries.is_empty()
    }

    /// How many peers are recorded.
    pub fn len(&self) -> (r: usize)
        ensures
            r == self@.len(),
    {
        self.entries.len()
    }
}

/// What the receiver asks its caller to do after one datagram.
#[derive(Debug)]
pub enum ClientAction {
    /// Send a datagram to an address.
    SendTo { dest: SockAddr, payload: String },
    /// Sleep until the synchronized start, then send the punch burst to
    /// the peer, one probe every `PUNCH_INTERVAL_MS`.
    ExecuteBurst { peer: SockAddr, start_at_ms: u64 },
    /// Hand a received application message to the owner.
    DeliverMessage { from: SockAddr, text: String },
}

/// The mathematical shape of a receiver action.
pub enum ActionView {
    SendTo { dest: SockAddr, payload: Seq<char> },
    ExecuteBurst { peer: SockAddr, start_at_ms: u64 },
    DeliverMessage { from: SockAddr, text: Seq<char> },
}

impl View for ClientAction {
    type V = ActionView;

    open spec fn view(&self) -> ActionView {
        match self {
            ClientAction::SendTo { dest, payload } => ActionView::SendTo {
                dest: *dest,
                payload: payload@,
            },
            ClientAction::ExecuteBurst { peer, start_at_ms } => ActionView::ExecuteBurst {
                peer: *peer,
                start_at_ms: *start_at_ms,
            },
            ClientAction::DeliverMessage { from, text } => ActionView::DeliverMessage {
                from: *from,
                text: text@,
            },
        }
    }
}

/// A peer's statistics after `n` punch attempts in a row at one time.
pub open spec fn attempts(s: StatsView, now_ms: u64, n: nat) -> StatsView
    decreases n,
{
    if n == 0 {
        s
    } else {
        after_attempt(attempts(s, now_ms, (n - 1) as nat), now_ms)
    }
}

/// The logger after recording a discovery of `id` at `addr`.
pub open spec fn logger_after_discovery(
    lv: LoggerView,
    id: Seq<char>,
    addr: Option<SockAddr>,
) -> LoggerView {
    match find_key(lv.peers, id) {
        Some(i) => lv.with_peers(lv.peers.update(i, (id, after_discovery(lv.peers[i].1, addr)))),
        None => lv.with_peers(
            lv.peers.push((id, fresh_stats(lv.local_addr, lv.external_addr, id, addr))),
        ),
    }
}

/// The logger after recording a punch success under the fixed peer key.
pub open spec fn logger_after_success(lv: LoggerView, latency_ms: u64) -> LoggerView {
    match find_key(lv.peers, peer_key()) {
        Some(i) => lv.with_peers(
            lv.peers.update(i, (lv.peers[i].0, after_success(lv.peers[i].1, latency_ms))),
        ),
        None => lv,
    }
}

/// The logger after recording an inbound message under the fixed peer key.
pub open spec fn logger_after_msg_received(lv: LoggerView) -> LoggerView {
    match find_key(lv.peers, peer_key()) {
        Some(i) => lv.with_peers(
            lv.peers.update(i, (lv.peers[i].0, after_msg_received(lv.peers[i].1))),
        ),
        None => lv,
    }
}

/// The logger after a punch coordination: the peer discovered under the
/// fixed key, then one attempt recorded per probe of the burst.
pub open spec fn logger_after_coordination(
    lv: LoggerView,
    peer_addr: SockAddr,
    now_ms: u64,
) -> LoggerView {
    let lv1 = logger_after_discovery(lv, peer_key(), Some(peer_addr));
    let j = match find_key(lv.peers, peer_key()) {
        Some(i) => i,
        None => lv.peers.len() as int,
    };
    lv1.with_peers(
        lv1.peers.update(
            j,
            (peer_key(), attempts(lv1.peers[j].1, now_ms, PUNCH_BURST_COUNT as nat)),
        ),
    )
}

/// The client-side state the receiver shares with the caller's
/// synchronous operations: its identifier, the peer table, and the
/// traversal statistics.
pub struct ClientState {
    id: String,
    peers: PeerTable,
    logger: NatConsoleLogger,
}

/// The mathematical shape of the client state.
pub struct ClientStateView {
    pub id: Seq<char>,
    pub peers: Seq<(Seq<char>, SockAddr)>,
    pub logger: LoggerView,
}

impl View for ClientState {
    type V = ClientStateView;

    closed spec fn view(&self) -> ClientStateView {
        ClientStateView { id: self.id@, peers: self.peers@, logger: self.logger@ }
    }
}

/// What the receiver does with one inbound datagram: the state
/// afterwards and the actions for the caller. A datagram from the
/// rendezvous port is decoded as signaling: punch coordination records
/// the peer and the burst's attempts and asks for the burst; a
/// discovery answer is recorded. Anything else is peer traffic,
/// classified by its prefix: an application message is delivered, a
/// probe is acknowledged and marks the peer connected, an
/// acknowledgment marks the peer connected.
pub open spec fn receiver_step(
    st: ClientStateView,
    sender: SockAddr,
    data: Seq<char>,
    rendezvous_port: u16,
    now_ms: u64,
) -> (ClientStateView, Seq<ActionView>) {
    if sender.port == rendezvous_port {
        match spec_decode(data) {
            Ok(MsgView::StartPunchWithPeer { timestamp, peer_addr }) => (
                ClientStateView {
                    id: st.id,
                    peers: table_upserted(st.peers, peer_key(), peer_addr),
                    logger: logger_after_coordination(st.logger, peer_addr, now_ms),
                },
                seq![ActionView::ExecuteBurst { peer: peer_addr, start_at_ms: timestamp }],
            ),
            Ok(MsgView::PeerFound { id, addr }) => (
                ClientStateView {
                    id: st.id,
                    peers: st.peers,
                    logger: logger_after_discovery(st.logger, id, Some(addr)),
                },
                seq![],
            ),
            _ => (st, seq![]),
        }
    } else {
        if has_prefix(data, msg_prefix()) {
            (
                ClientStateView {
                    id: st.id,
                    peers: st.peers,
                    logger: logger_after_msg_received(st.logger),
                },
                seq![
                    ActionView::DeliverMessage {
                        from: sender,
                        text: data.subrange(msg_prefix().len() as int, data.len() as int),
                    },
                ],
            )
        } else if has_prefix(data, punch_prefix()) {
            (
                ClientStateView {
                    id: st.id,
                    peers: table_upserted(st.peers, peer_key(), sender),
                    logger: logger_after_success(st.logger, 50),
                },
                seq![ActionView::SendTo { dest: sender, payload: punch_ack_prefix() + st.id }],
            )
        } else if has_prefix(data, punch_ack_prefix()) {
            (
                ClientStateView {
                    id: st.id,
                    peers: table_upserted(st.peers, peer_key(), sender),
                    logger: logger_after_success(st.logger, 100),
                },
                seq![],
            )
        } else {
            (st, seq![])
        }
    }
}

impl ClientState {
    /// A fresh client state for an endpoint bound to `local_addr`.
    pub fn new(id: String, local_addr: SockAddr) -> (r: ClientState)
        ensures
            r@.id == id@,
            r@.peers == Seq::<(Seq<char>, SockAddr)>::empty(),
            r@.logger.peers == Seq::<(Seq<char>, StatsView)>::empty(),
            r@.logger.local_addr == local_addr,
            r@.logger.external_addr is None,
    {
        ClientState { id, peers: PeerTable::new(), logger: NatConsoleLogger::new(local_addr) }
    }

    /// This client's identifier.
    pub fn id(&self) -> (r: &String)
        ensures
            r@ == self@.id,
    {
        &self.id
    }

    /// Records the externally observed address after registration.
    pub fn set_external_addr(&mut self, external_addr: SockAddr)
        ensures
            final(self)@.id == old(self)@.id,
            final(self)@.peers == old(self)@.peers,
            final(self)@.logger.peers == old(self)@.logger.peers,
            final(self)@.logger.local_addr == old(self)@.logger.local_addr,
            final(self)@.logger.external_addr == Some(external_addr),
    {
        self.logger.set_external_addr(external_addr);
    }

    /// The traversal statistics, for the reports.
    pub fn logger(&self) -> (r: &NatConsoleLogger)
        ensures
            r@ == self@.logger,
    {
        &self.logger
    }

    /// The statistics tracker, to log the caller's own operations.
    pub fn logger_mut(&mut self) -> (r: &mut NatConsoleLogger)
        ensures
            r@ == old(self)@.logger,
            final(self)@.id == old(self)@.id,
            final(self)@.peers == old(self)@.peers,
            final(self)@.logger == final(r)@,
    {
        &mut self.logger
    }

    /// The address recorded under the fixed peer key, once a punch
    /// exchange has succeeded.
    pub fn connected_peer_addr(&self) -> (r: Option<SockAddr>)
        ensures
            r == table_lookup(self@.peers, peer_key()),
    {
        self.peers.lookup("peer")
    }

    /// All recorded peer addresses.
    pub fn get_connected_peers(&self) -> (r: Vec<SockAddr>)
        ensures
            r@.len() == self@.peers.len(),
            forall|i: int| 0 <= i < self@.peers.len() ==> #[trigger] r@[i] == self@.peers[i].1,
    {
        self.peers.addresses()
    }

    /// Whether any peer connection is recorded.
    pub fn has_connections(&self) -> (r: bool)
        ensures
            r == (self@.peers.len() != 0),
    {
        !self.peers.is_empty()
    }

    /// Handles one inbound datagram, exactly as `receiver_step` says.
    pub fn handle_datagram(
        &mut self,
        sender: SockAddr,
        data: &str,
        rendezvous_port: u16,
        now_ms: u64,
    ) -> (actions: Vec<ClientAction>)
        ensures
            final(self)@ == receiver_step(old(self)@, sender, data@, rendezvous_port, now_ms).0,
            actions@.len() == receiver_step(
                old(self)@,
                sender,
                data@,
                rendezvous_port,
                now_ms,
            ).1.len(),
            forall|i: int|
                0 <= i < actions@.len() ==> (#[trigger] actions@[i])@ == receiver_step(
                    old(self)@,
                    sender,
                    data@,
                    rendezvous_port,
                    now_ms,
                ).1[i],
    {
        if sender.port == rendezvous_port {
            self.handle_signaling(sender, data, rendezvous_port, now_ms)
        } else {
            self.handle_peer_traffic(sender, data, rendezvous_port, now_ms)
        }
    }

    /// Handles a datagram from the rendezvous server.
    fn handle_signaling(
        &mut self,
        sender: SockAddr,
        data: &str,
        rendezvous_port: u16,
        now_ms: u64,
    ) -> (actions: Vec<ClientAction>)
        requires
            sender.port == rendezvous_port,
        ensures
            final(self)@ == receiver_step(old(self)@, sender, data@, rendezvous_port, now_ms).0,
            actions@.len() == receiver_step(
                old(self)@,
                sender,
                data@,
                rendezvous_port,
                now_ms,
            ).1.len(),
            forall|i: int|
                0 <= i < actions@.len() ==> (#[trigger] actions@[i])@ == receiver_step(
                    old(self)@,
                    sender,
                    data@,
                    rendezvous_port,
                    now_ms,
                ).1[i],
    {
        let mut actions: Vec<ClientAction> = Vec::new();
        match Message::decode(data) {
            Ok(Message::StartPunchWithPeer { timestamp, peer_addr }) => {
                self.run_coordination(peer_addr, now_ms);
                actions.push(ClientAction::ExecuteBurst { peer: peer_addr, start_at_ms: timestamp });
            },
            Ok(Message::PeerFound { id, addr }) => {
                self.logger.log_peer_discovery(id, Some(addr));
            },
            _ => {},
        }
        actions
    }

    /// Records a punch coordination: the peer discovered under the
    /// fixed key, one attempt per probe of the burst, and the peer
    /// stored as connected.
    fn run_coordination(&mut self, peer_addr: SockAddr, now_ms: u64)
        ensures
            final(self)@.id == old(self)@.id,
            final(self)@.peers == table_upserted(old(self)@.peers, peer_key(), peer_addr),
            final(self)@.logger == logger_after_coordination(old(self)@.logger, peer_addr, now_ms),
    {
        let ghost lv = self@.logger;
        proof {
            lemma_find_key(lv.peers, peer_key());
        }
        let ghost j: int = match find_key(lv.peers, peer_key()) {
            Some(i) => i,
            None => lv.peers.len() as int,
        };
        self.logger.log_peer_discovery("peer".to_owned(), Some(peer_addr));
        let ghost lv1 = self@.logger;
        proof {
            assert(lv1 == logger_after_discovery(lv, peer_key(), Some(peer_addr)));
            match find_key(lv.peers, peer_key()) {
                Some(i) => {
                    lemma_find_key_update(
                        lv.peers,
                        i,
                        peer_key(),
                        after_discovery(lv.peers[i].1, Some(peer_addr)),
                    );
                },
                None => {
                    lemma_find_key_push(
                        lv.peers,
                        peer_key(),
                        fresh_stats(lv.local_addr, lv.external_addr, peer_key(), Some(peer_addr)),
                    );
                },
            }
            assert(find_key(lv1.peers, peer_key()) == Some(j));
            assert(lv1.peers.update(j, (peer_key(), attempts(lv1.peers[j].1, now_ms, 0)))
                =~= lv1.peers);
        }
        let mut it: usize = 0;
        while it < PUNCH_BURST_COUNT
            invariant
                0 <= it <= PUNCH_BURST_COUNT,
                0 <= j < lv1.peers.len(),
                lv1.peers[j].0 == peer_key(),
                self@.id == old(self)@.id,
                self@.peers == old(self)@.peers,
                self@.logger == lv1.with_peers(
                    lv1.peers.update(j, (peer_key(), attempts(lv1.peers[j].1, now_ms, it as nat))),
                ),
                find_key(self@.logger.peers, peer_key()) == Some(j),
            decreases PUNCH_BURST_COUNT - it,
        {
            let ghost before = self@.logger;
            self.logger.log_hole_punch_attempt("peer", now_ms);
            it += 1;
            proof {
                assert(before.peers[j].1 == attempts(lv1.peers[j].1, now_ms, (it - 1) as nat));
                assert(self@.logger == before.with_peers(
                    before.peers.update(
                        j,
                        (before.peers[j].0, after_attempt(before.peers[j].1, now_ms)),
                    ),
                ));
                assert(self@.logger.peers =~= lv1.peers.update(
                    j,
                    (peer_key(), attempts(lv1.peers[j].1, now_ms, it as nat)),
                ));
                lemma_find_key_update(
                    before.peers,
                    j,
                    peer_key(),
                    attempts(lv1.peers[j].1, now_ms, it as nat),
                );
                assert(self@.logger.peers =~= before.peers.update(
                    j,
                    (peer_key(), attempts(lv1.peers[j].1, now_ms, it as nat)),
                ));
            }
        }
        self.peers.upsert("peer".to_owned(), peer_addr);
    }

    /// Handles a datagram from a peer.
    fn handle_peer_traffic(
        &mut self,
        sender: SockAddr,
        data: &str,
        rendezvous_port: u16,
        now_ms: u64,
    ) -> (actions: Vec<ClientAction>)
        requires
            sender.port != rendezvous_port,
        ensures
            final(self)@ == receiver_step(old(self)@, sender, data@, rendezvous_port, now_ms).0,
            actions@.len() == receiver_step(
                old(self)@,
                sender,
                data@,
                rendezvous_port,
                now_ms,
            ).1.len(),
            forall|i: int|
                0 <= i < actions@.len() ==> (#[trigger] actions@[i])@ == receiver_step(
                    old(self)@,
                    sender,
                    data@,
                    rendezvous_port,
                    now_ms,
                ).1[i],
    {
        let mut actions: Vec<ClientAction> = Vec::new();
        if starts_with_str(data, "MSG:") {
            proof {
                reveal_strlit("MSG:");
            }
            let len = data.unicode_len();
            let text = data.substring_char(4, len).to_owned();
            self.logger.log_direct_message_received("peer", text.as_str(), sender);
            actions.push(ClientAction::DeliverMessage { from: sender, text });
        } else if starts_with_str(data, "PUNCH:") {
            proof {
                reveal_strlit("MSG:");
                reveal_strlit("PUNCH:");
            }
            let mut payload = String::new();
            payload.append("PUNCH_ACK:");
            payload.append(self.id.as_str());
            proof {
                reveal_strlit("PUNCH_ACK:");
                assert(payload@ =~= punch_ack_prefix() + self@.id);
            }
            self.logger.log_hole_punch_success("peer", 50);
            self.peers.upsert("peer".to_owned(), sender);
            actions.push(ClientAction::SendTo { dest: sender, payload });
        } else if starts_with_str(data, "PUNCH_ACK:") {
            proof {
                reveal_strlit("MSG:");
                reveal_strlit("PUNCH:");
                reveal_strlit("PUNCH_ACK:");
            }
            self.logger.log_hole_punch_success("peer", 100);
            self.peers.upsert("peer".to_owned(), sender);
        } else {
            proof {
                reveal_strlit("MSG:");
                reveal_strlit("PUNCH:");
                reveal_strlit("PUNCH_ACK:");
            }
        }
        actions
    }
}

/// The registration reply check: only a registration acknowledgment
/// carries the external address; any other reply fails the
/// registration.
pub fn register_reply_external_addr(msg: &Message) -> (r: Option<SockAddr>)
    ensures
        r == (match msg@ {
            MsgView::RegisterOk { external_addr } => Some(external_addr),
            _ => None,
        }),
{
    match msg {
        Message::RegisterOk { external_addr } => Some(*external_addr),
        _ => None,
    }
}

/// The payload of an outbound application message: the tag and the text.
pub fn message_payload(text: &str) -> (r: String)
    ensures
        r@ == msg_prefix() + text@,
{
    let mut out = String::new();
    out.append("MSG:");
    out.append(text);
    out
}

/// The punch burst: exactly `PUNCH_BURST_COUNT` numbered probe
/// datagrams, whatever becomes of each send.
pub fn punch_burst_packets() -> (r: Vec<String>)
    ensures
        r@.len() == PUNCH_BURST_COUNT,
        forall|i: int|
            0 <= i < PUNCH_BURST_COUNT ==> (#[trigger] r@[i])@ == punch_prefix()
                + crate::num::spec_dec_digits(i as nat),
{
    let mut r: Vec<String> = Vec::new();
    let mut i: usize = 0;
    while i < PUNCH_BURST_COUNT
        invariant
            0 <= i <= PUNCH_BURST_COUNT,
            r@.len() == i,
            forall|k: int|
                0 <= k < i ==> (#[trigger] r@[k])@ == punch_prefix()
                    + crate::num::spec_dec_digits(k as nat),
        decreases PUNCH_BURST_COUNT - i,
    {
        let mut p = String::new();
        p.append("PUNCH:");
        crate::num::push_dec_u64(i as u64, &mut p);
        proof {
            reveal_strlit("PUNCH:");
            assert(p@ =~= punch_prefix() + crate::num::spec_dec_digits(i as nat));
        }
        r.push(p);
        i += 1;
    }
    r
}

} // verus!
