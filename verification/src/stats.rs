//! NAT traversal bookkeeping on the client side: per-peer statistics,
//! the connection lifecycle state, and the text helpers the report
//! tables are built from. Every logging step's effect on the table is
//! pinned down, and the lifecycle law is proved.

use vstd::prelude::*;

use crate::addr::SockAddr;
use crate::text::str_eq;

verus! {

/// The lifecycle of one peer connection.
#[derive(Clone, Copy, Debug, PartialEq, Eq, Structural)]
pub enum ConnectionState {
    /// The peer's address is being looked up.
    Discovering,
    /// Punch packets are being exchanged.
    HolePunching,
    /// A direct exchange has succeeded.
    Connected,
    /// Punching gave up.
    Failed,
    /// A connection existed and is gone.
    Disconnected,
}

impl ConnectionState {
    /// The short label each state shows in the report tables.
    pub open spec fn label_view(self) -> Seq<char> {
        match self {
            ConnectionState::Discovering => "DISC"@,
            ConnectionState::HolePunching => "PUNCH"@,
            ConnectionState::Connected => "CONN"@,
            ConnectionState::Failed => "FAIL"@,
            ConnectionState::Disconnected => "DISC"@,
        }
    }

    /// The short label each state shows in the report tables.
    pub fn label(&self) -> (r: &'static str)
        ensures
            r@ == self.label_view(),
    {
        match self {
            ConnectionState::Discovering => "DISC",
            ConnectionState::HolePunching => "PUNCH",
            ConnectionState::Connected => "CONN",
            ConnectionState::Failed => "FAIL",
            ConnectionState::Disconnected => "DISC",
        }
    }
}

/// Everything tracked about one peer.
#[derive(Clone, Debug)]
pub struct NatTraversalStats {
    pub local_addr: SockAddr,
    pub external_addr: Option<SockAddr>,
    pub peer_id: String,
    pub peer_addr: Option<SockAddr>,
    pub hole_punch_attempts: u32,
    pub successful_hole_punches: u32,
    pub direct_messages_sent: u32,
    pub direct_messages_received: u32,
    pub traversal_success: bool,
    pub last_attempt_time_ms: Option<u64>,
    pub total_latency_ms: u64,
    pub connection_state: ConnectionState,
    pub error_count: u32,
}

/// The mathematical shape of one peer's statistics.
pub struct StatsView {
    pub local_addr: SockAddr,
    pub external_addr: Option<SockAddr>,
    pub peer_id: Seq<char>,
    pub peer_addr: Option<SockAddr>,
    pub hole_punch_attempts: u32,
    pub successful_hole_punches: u32,
    pub direct_messages_sent: u32,
    pub direct_messages_received: u32,
    pub traversal_success: bool,
    pub last_attempt_time_ms: Option<u64>,
    pub total_latency_ms: u64,
    pub connection_state: ConnectionState,
    pub error_count: u32,
}

impl View for NatTraversalStats {
    type V = StatsView;

    open spec fn view(&self) -> StatsView {
        StatsView {
            local_addr: self.local_addr,
            external_addr: self.external_addr,
            peer_id: self.peer_id@,
            peer_addr: self.peer_addr,
            hole_punch_attempts: self.hole_punch_attempts,
            successful_hole_punches: self.successful_hole_punches,
            direct_messages_sent: self.direct_messages_sent,
            direct_messages_received: self.direct_messages_received,
            traversal_success: self.traversal_success,
            last_attempt_time_ms: self.last_attempt_time_ms,
            total_latency_ms: self.total_latency_ms,
            connection_state: self.connection_state,
            error_count: self.error_count,
        }
    }
}

/// Adds one, stopping at the counter's ceiling.
pub open spec fn sat_inc32(x: u32) -> u32 {
    if x < u32::MAX {
        (x + 1) as u32
    } else {
        x
    }
}

/// Adds, stopping at the counter's ceiling.
pub open spec fn sat_add64(x: u64, y: u64) -> u64 {
    if x <= u64::MAX - y {
        (x + y) as u64
    } else {
        u64::MAX
    }
}

/// A freshly discovered peer's statistics.
pub open spec fn fresh_stats(
    local: SockAddr,
    ext: Option<SockAddr>,
    id: Seq<char>,
    addr: Option<SockAddr>,
) -> StatsView {
    StatsView {
        local_addr: local,
        external_addr: ext,
        peer_id: id,
        peer_addr: addr,
        hole_punch_attempts: 0,
        successful_hole_punches: 0,
        direct_messages_sent: 0,
        direct_messages_received: 0,
        traversal_success: false,
        last_attempt_time_ms: None,
        total_latency_ms: 0,
        connection_state: ConnectionState::Discovering,
        error_count: 0,
    }
}

/// A repeated discovery refreshes the address and restarts the
/// lifecycle at discovering, keeping the counters.
pub open spec fn after_discovery(s: StatsView, addr: Option<SockAddr>) -> StatsView {
    StatsView { peer_addr: addr, connection_state: ConnectionState::Discovering, ..s }
}

/// A punch attempt counts itself, stamps the time, and moves the
/// lifecycle to punching.
pub open spec fn after_attempt(s: StatsView, now_ms: u64) -> StatsView {
    StatsView {
        hole_punch_attempts: sat_inc32(s.hole_punch_attempts),
        last_attempt_time_ms: Some(now_ms),
        connection_state: ConnectionState::HolePunching,
        ..s
    }
}

/// A punch success counts itself, adds the observed latency, marks the
/// traversal successful, and moves the lifecycle to connected.
pub open spec fn after_success(s: StatsView, latency_ms: u64) -> StatsView {
    StatsView {
        successful_hole_punches: sat_inc32(s.successful_hole_punches),
        traversal_success: true,
        total_latency_ms: sat_add64(s.total_latency_ms, latency_ms),
        connection_state: ConnectionState::Connected,
        ..s
    }
}

/// A punch failure counts an error and moves the lifecycle to failed.
pub open spec fn after_failure(s: StatsView) -> StatsView {
    StatsView {
        connection_state: ConnectionState::Failed,
        error_count: sat_inc32(s.error_count),
        ..s
    }
}

/// An outbound direct message only counts itself.
pub open spec fn after_msg_sent(s: StatsView) -> StatsView {
    StatsView { direct_messages_sent: sat_inc32(s.direct_messages_sent), ..s }
}

/// An inbound direct message only counts itself.
pub open spec fn after_msg_received(s: StatsView) -> StatsView {
    StatsView { direct_messages_received: sat_inc32(s.direct_messages_received), ..s }
}

/// The first entry under a key, if any.
pub open spec fn find_key<V>(s: Seq<(Seq<char>, V)>, k: Seq<char>) -> Option<int>
    decreases s.len(),
{
    if s.len() == 0 {
        None
    } else if s[0].0 == k {
        Some(0)
    } else {
        match find_key(s.drop_first(), k) {
            None => None,
            Some(i) => Some(i + 1),
        }
    }
}

/// `find_key` finds exactly the first entry under the key.
pub proof fn lemma_find_key<V>(s: Seq<(Seq<char>, V)>, k: Seq<char>)
    ensures
        match find_key(s, k) {
            Some(i) => 0 <= i < s.len() && s[i].0 == k && (forall|j: int|
                0 <= j < i ==> (#[trigger] s[j]).0 != k),
            None => forall|j: int| 0 <= j < s.len() ==> (#[trigger] s[j]).0 != k,
        },
    decreases s.len(),
{
    if s.len() > 0 && s[0].0 != k {
        lemma_find_key(s.drop_first(), k);
        match find_key(s.drop_first(), k) {
            None => {
                assert forall|j: int| 0 <= j < s.len() implies (#[trigger] s[j]).0 != k by {
                    if j >= 1 {
                        assert(s.drop_first()[j - 1] == s[j]);
                    }
                }
            },
            Some(i0) => {
                assert(s.drop_first()[i0] == s[i0 + 1]);
                assert forall|j: int| 0 <= j < i0 + 1 implies (#[trigger] s[j]).0 != k by {
                    if j >= 1 {
                        assert(s.drop_first()[j - 1] == s[j]);
                    }
                }
            },
        }
    }
}

/// Overwriting the entry a key was found at leaves it the first entry
/// under that key.
pub proof fn lemma_find_key_update<V>(s: Seq<(Seq<char>, V)>, i: int, k: Seq<char>, v: V)
    requires
        find_key(s, k) == Some(i),
    ensures
        find_key(s.update(i, (k, v)), k) == Some(i),
    decreases s.len(),
{
    lemma_find_key(s, k);
    let s2 = s.update(i, (k, v));
    if i == 0 {
        assert(s2[0].0 == k);
    } else {
        assert(s[0].0 != k);
        assert(s2[0].0 == s[0].0);
        assert(s.drop_first().update(i - 1, (k, v)) =~= s2.drop_first());
        assert(find_key(s.drop_first(), k) == Some(i - 1));
        lemma_find_key_update(s.drop_first(), i - 1, k, v);
    }
}

/// Appending an entry under an absent key makes it the first entry
/// under that key.
pub proof fn lemma_find_key_push<V>(s: Seq<(Seq<char>, V)>, k: Seq<char>, v: V)
    requires
        find_key(s, k) is None,
    ensures
        find_key(s.push((k, v)), k) == Some(s.len() as int),
    decreases s.len(),
{
    let s2 = s.push((k, v));
    if s.len() == 0 {
        assert(s2[0].0 == k);
    } else {
        assert(s2[0].0 == s[0].0);
        assert(s[0].0 != k);
        assert(s.drop_first().push((k, v)) =~= s2.drop_first());
        lemma_find_key_push(s.drop_first(), k, v);
    }
}

/// The logger's mathematical shape: the peer table in insertion order,
/// and the two addresses of this endpoint.
pub struct LoggerView {
    pub peers: Seq<(Seq<char>, StatsView)>,
    pub local_addr: SockAddr,
    pub external_addr: Option<SockAddr>,
}

impl LoggerView {
    /// The same logger with another peer table.
    pub open spec fn with_peers(self, peers: Seq<(Seq<char>, StatsView)>) -> LoggerView {
        LoggerView { peers, local_addr: self.local_addr, external_addr: self.external_addr }
    }
}

/// The view of the entry list.
pub open spec fn entries_view(s: Seq<(String, NatTraversalStats)>) -> Seq<(Seq<char>, StatsView)> {
    s.map_values(|p: (String, NatTraversalStats)| (p.0@, p.1@))
}

/// The per-peer statistics tracker.
pub struct NatConsoleLogger {
    stats: Vec<(String, NatTraversalStats)>,
    local_addr: SockAddr,
    external_addr: Option<SockAddr>,
}

impl View for NatConsoleLogger {
    type V = LoggerView;

    closed spec fn view(&self) -> LoggerView {
        LoggerView {
            peers: entries_view(self.stats@),
            local_addr: self.local_addr,
            external_addr: self.external_addr,
        }
    }
}

impl NatConsoleLogger {
    /// A fresh tracker for an endpoint bound to `local_addr`.
    pub fn new(local_addr: SockAddr) -> (r: NatConsoleLogger)
        ensures
            r@.peers == Seq::<(Seq<char>, StatsView)>::empty(),
            r@.local_addr == local_addr,
            r@.external_addr is None,
    {
        let r = NatConsoleLogger { stats: Vec::new(), local_addr, external_addr: None };
        proof {
            assert(r@.peers =~= Seq::<(Seq<char>, StatsView)>::empty());
        }
        r
    }

    /// Records the externally observed address of this endpoint.
    pub fn set_external_addr(&mut self, external_addr: SockAddr)
        ensures
            final(self)@.peers == old(self)@.peers,
            final(self)@.local_addr == old(self)@.local_addr,
            final(self)@.external_addr == Some(external_addr),
    {
        self.external_addr = Some(external_addr);
    }

    /// This endpoint's bound address.
    pub fn local_addr(&self) -> (r: SockAddr)
        ensures
            r == self@.local_addr,
    {
        self.local_addr
    }

    /// This endpoint's externally observed address, once known.
    pub fn external_addr(&self) -> (r: Option<SockAddr>)
        ensures
            r == self@.external_addr,
    {
        self.external_addr
    }

    /// How many peers have an entry.
    pub fn peer_count(&self) -> (r: usize)
        ensures
            r == self@.peers.len(),
    {
        self.stats.len()
    }

    /// The first entry index under a peer key, if any.
    fn find_index(&self, peer_id: &str) -> (r: Option<usize>)
        ensures
            match r {
                Some(i) => find_key(self@.peers, peer_id@) == Some(i as int),
                None => find_key(self@.peers, peer_id@) is None,
            },
    {
        let n = self.stats.len();
        let mut i: usize = 0;
        while i < n
            invariant
                n == self.stats@.len(),
                0 <= i <= n,
                forall|j: int| 0 <= j < i ==> (#[trigger] self.stats@[j]).0@ != peer_id@,
            decreases n - i,
        {
            if str_eq(self.stats[i].0.as_str(), peer_id) {
                proof {
                    lemma_find_key(self@.peers, peer_id@);
                    assert(self@.peers[i as int].0 == peer_id@);
                    assert forall|j: int| 0 <= j < i implies (#[trigger] self@.peers[j]).0
                        != peer_id@ by {
                        assert(self.stats@[j].0@ != peer_id@);
                    }
                }
                return Some(i);
            }
            i += 1;
        }
        proof {
            lemma_find_key(self@.peers, peer_id@);
            assert forall|j: int| 0 <= j < self@.peers.len() implies (#[trigger] self@.peers[j]).0
                != peer_id@ by {
                assert(self.stats@[j].0@ != peer_id@);
            }
        }
        None
    }

    /// The statistics entry for a peer, if one exists.
    pub fn get_stats(&self, peer_id: &str) -> (r: Option<&NatTraversalStats>)
        ensures
            match r {
                Some(st) => {
                    &&& find_key(self@.peers, peer_id@) is Some
                    &&& st@ == self@.peers[find_key(self@.peers, peer_id@).unwrap()].1
                },
                None => find_key(self@.peers, peer_id@) is None,
            },
    {
        proof {
            lemma_find_key(self@.peers, peer_id@);
        }
        match self.find_index(peer_id) {
            Some(i) => Some(&self.stats[i].1),
            None => None,
        }
    }

    /// Whether a peer has an entry.
    pub fn has_peer(&self, peer_id: &str) -> (r: bool)
        ensures
            r == (find_key(self@.peers, peer_id@) is Some),
    {
        match self.find_index(peer_id) {
            Some(_) => true,
            None => false,
        }
    }

    /// A copy of an entry's statistics, field by field.
    fn copy_stats(st: &NatTraversalStats) -> (r: NatTraversalStats)
        ensures
            r@ == st@,
    {
        NatTraversalStats {
            local_addr: st.local_addr,
            external_addr: st.external_addr,
            peer_id: st.peer_id.clone(),
            peer_addr: st.peer_addr,
            hole_punch_attempts: st.hole_punch_attempts,
            successful_hole_punches: st.successful_hole_punches,
            direct_messages_sent: st.direct_messages_sent,
            direct_messages_received: st.direct_messages_received,
            traversal_success: st.traversal_success,
            last_attempt_time_ms: st.last_attempt_time_ms,
            total_latency_ms: st.total_latency_ms,
            connection_state: st.connection_state,
            error_count: st.error_count,
        }
    }

    /// Records a discovery: a new entry starts at discovering, an old
    /// one gets the refreshed address and restarts at discovering.
    pub fn log_peer_discovery(&mut self, peer_id: String, peer_addr: Option<SockAddr>)
        ensures
            match find_key(old(self)@.peers, peer_id@) {
                Some(i) => final(self)@ == old(self)@.with_peers(
                    old(self)@.peers.update(
                        i,
                        (peer_id@, after_discovery(old(self)@.peers[i].1, peer_addr)),
                    ),
                ),
                None => final(self)@ == old(self)@.with_peers(
                    old(self)@.peers.push(
                        (
                            peer_id@,
                            fresh_stats(
                                old(self)@.local_addr,
                                old(self)@.external_addr,
                                peer_id@,
                                peer_addr,
                            ),
                        ),
                    ),
                ),
            },
    {
        match self.find_index(peer_id.as_str()) {
            Some(i) => {
                proof {
                    lemma_find_key(self@.peers, peer_id@);
                }
                let mut updated = Self::copy_stats(&self.stats[i].1);
                updated.peer_addr = peer_addr;
                updated.connection_state = ConnectionState::Discovering;
                self.stats[i] = (peer_id, updated);
                proof {
                    assert(self@.peers =~= old(self)@.peers.update(
                        find_key(old(self)@.peers, peer_id@).unwrap(),
                        (
                            peer_id@,
                            after_discovery(
                                old(self)@.peers[find_key(old(self)@.peers, peer_id@).unwrap()].1,
                                peer_addr,
                            ),
                        ),
                    ));
                }
            },
            None => {
                let entry = NatTraversalStats {
                    local_addr: self.local_addr,
                    external_addr: self.external_addr,
                    peer_id: peer_id.clone(),
                    peer_addr,
                    hole_punch_attempts: 0,
                    successful_hole_punches: 0,
                    direct_messages_sent: 0,
                    direct_messages_received: 0,
                    traversal_success: false,
                    last_attempt_time_ms: None,
                    total_latency_ms: 0,
                    connection_state: ConnectionState::Discovering,
                    error_count: 0,
                };
                self.stats.push((peer_id, entry));
                proof {
                    assert(self@.peers =~= old(self)@.peers.push(
                        (
                            peer_id@,
                            fresh_stats(
                                old(self)@.local_addr,
                                old(self)@.external_addr,
                                peer_id@,
                                peer_addr,
                            ),
                        ),
                    ));
                }
            },
        }
    }

    /// Applies an update to the entry under a key, if one exists.
    fn update_entry(&mut self, i: usize, updated: NatTraversalStats)
        requires
            i < old(self)@.peers.len(),
        ensures
            final(self)@ == old(self)@.with_peers(
                old(self)@.peers.update(i as int, (old(self)@.peers[i as int].0, updated@)),
            ),
    {
        let key = self.stats[i].0.clone();
        self.stats[i] = (key, updated);
        proof {
            assert(self@.peers =~= old(self)@.peers.update(
                i as int,
                (old(self)@.peers[i as int].0, updated@),
            ));
        }
    }

    /// Records a punch attempt for a known peer; unknown peers are
    /// left untouched.
    pub fn log_hole_punch_attempt(&mut self, peer_id: &str, now_ms: u64)
        ensures
            match find_key(old(self)@.peers, peer_id@) {
                Some(i) => final(self)@ == old(self)@.with_peers(
                    old(self)@.peers.update(
                        i,
                        (old(self)@.peers[i].0, after_attempt(old(self)@.peers[i].1, now_ms)),
                    ),
                ),
                None => final(self)@ == old(self)@,
            },
    {
        match self.find_index(peer_id) {
            Some(i) => {
                proof {
                    lemma_find_key(self@.peers, peer_id@);
                }
                let mut updated = Self::copy_stats(&self.stats[i].1);
                updated.hole_punch_attempts = if updated.hole_punch_attempts < u32::MAX {
                    updated.hole_punch_attempts + 1
                } else {
                    updated.hole_punch_attempts
                };
                updated.last_attempt_time_ms = Some(now_ms);
                updated.connection_state = ConnectionState::HolePunching;
                self.update_entry(i, updated);
            },
            None => {},
        }
    }

    /// Records a punch success for a known peer; unknown peers are
    /// left untouched.
    pub fn log_hole_punch_success(&mut self, peer_id: &str, latency_ms: u64)
        ensures
            match find_key(old(self)@.peers, peer_id@) {
                Some(i) => final(self)@ == old(self)@.with_peers(
                    old(self)@.peers.update(
                        i,
                        (old(self)@.peers[i].0, after_success(old(self)@.peers[i].1, latency_ms)),
                    ),
                ),
                None => final(self)@ == old(self)@,
            },
    {
        match self.find_index(peer_id) {
            Some(i) => {
                proof {
                    lemma_find_key(self@.peers, peer_id@);
                }
                let mut updated = Self::copy_stats(&self.stats[i].1);
                updated.successful_hole_punches = if updated.successful_hole_punches < u32::MAX {
                    updated.successful_hole_punches + 1
                } else {
                    updated.successful_hole_punches
                };
                updated.traversal_success = true;
                updated.total_latency_ms = if updated.total_latency_ms <= u64::MAX - latency_ms {
                    updated.total_latency_ms + latency_ms
                } else {
                    u64::MAX
                };
                updated.connection_state = ConnectionState::Connected;
                self.update_entry(i, updated);
            },
            None => {},
        }
    }

    /// Records a punch failure for a known peer; unknown peers are
    /// left untouched.
    pub fn log_hole_punch_failure(&mut self, peer_id: &str)
        ensures
            match find_key(old(self)@.peers, peer_id@) {
                Some(i) => final(self)@ == old(self)@.with_peers(
                    old(self)@.peers.update(
                        i,
                        (old(self)@.peers[i].0, after_failure(old(self)@.peers[i].1)),
                    ),
                ),
                None => final(self)@ == old(self)@,
            },
    {
        match self.find_index(peer_id) {
            Some(i) => {
                proof {
                    lemma_find_key(self@.peers, peer_id@);
                }
                let mut updated = Self::copy_stats(&self.stats[i].1);
                updated.connection_state = ConnectionState::Failed;
                updated.error_count = if updated.error_count < u32::MAX {
                    updated.error_count + 1
                } else {
                    updated.error_count
                };
                self.update_entry(i, updated);
            },
            None => {},
        }
    }

    /// Records an outbound direct message for a known peer.
    pub fn log_direct_message_sent(&mut self, peer_id: &str, message: &str)
        ensures
            match find_key(old(self)@.peers, peer_id@) {
                Some(i) => final(self)@ == old(self)@.with_peers(
                    old(self)@.peers.update(
                        i,
                        (old(self)@.peers[i].0, after_msg_sent(old(self)@.peers[i].1)),
                    ),
                ),
                None => final(self)@ == old(self)@,
            },
    {
        match self.find_index(peer_id) {
            Some(i) => {
                proof {
                    lemma_find_key(self@.peers, peer_id@);
                }
                let mut updated = Self::copy_stats(&self.stats[i].1);
                updated.direct_messages_sent = if updated.direct_messages_sent < u32::MAX {
                    updated.direct_messages_sent + 1
                } else {
                    updated.direct_messages_sent
                };
                self.update_entry(i, updated);
            },
            None => {},
        }
    }

    /// Records an inbound direct message for a known peer.
    pub fn log_direct_message_received(&mut self, peer_id: &str, message: &str, sender_addr: SockAddr)
        ensures
            match find_key(old(self)@.peers, peer_id@) {
                Some(i) => final(self)@ == old(self)@.with_peers(
                    old(self)@.peers.update(
                        i,
                        (old(self)@.peers[i].0, after_msg_received(old(self)@.peers[i].1)),
                    ),
                ),
                None => final(self)@ == old(self)@,
            },
    {
        match self.find_index(peer_id) {
            Some(i) => {
                proof {
                    lemma_find_key(self@.peers, peer_id@);
                }
                let mut updated = Self::copy_stats(&self.stats[i].1);
                updated.direct_messages_received = if updated.direct_messages_received < u32::MAX {
                    updated.direct_messages_received + 1
                } else {
                    updated.direct_messages_received
                };
                self.update_entry(i, updated);
            },
            None => {},
        }
    }

    /// Records a failed connection for a known peer.
    pub fn log_connection_failed(&mut self, peer_id: &str, error: &str)
        ensures
            match find_key(old(self)@.peers, peer_id@) {
                Some(i) => final(self)@ == old(self)@.with_peers(
                    old(self)@.peers.update(
                        i,
                        (old(self)@.peers[i].0, after_failure(old(self)@.peers[i].1)),
                    ),
                ),
                None => final(self)@ == old(self)@,
            },
    {
        self.log_hole_punch_failure(peer_id);
    }

    /// The totals over all peers: how many are tracked, how many
    /// traversed successfully, and the attempt, success and message
    /// counts added up (held to the counter's ceiling).
    pub fn summary(&self) -> (r: NatSummary)
        ensures
            r.total_peers == self@.peers.len(),
            r.successful_connections == count_successful(self@.peers),
            r.total_attempts == clamp64(sum_attempts(self@.peers)),
            r.total_successes == clamp64(sum_successes(self@.peers)),
            r.total_messages == clamp64(sum_messages(self@.peers)),
    {
        let n = self.stats.len();
        let mut successful: usize = 0;
        let mut attempts: u64 = 0;
        let mut successes: u64 = 0;
        let mut messages: u64 = 0;
        let mut i: usize = 0;
        while i < n
            invariant
                n == self.stats@.len(),
                0 <= i <= n,
                successful <= i,
                successful as int == count_successful(self@.peers.subrange(0, i as int)),
                attempts == clamp64(sum_attempts(self@.peers.subrange(0, i as int))),
                successes == clamp64(sum_successes(self@.peers.subrange(0, i as int))),
                messages == clamp64(sum_messages(self@.peers.subrange(0, i as int))),
            decreases n - i,
        {
            let e = &self.stats[i];
            let ghost pre = self@.peers.subrange(0, i as int);
            proof {
                lemma_sums_nonneg(pre);
            }
            if e.1.traversal_success {
                successful = successful + 1;
            }
            let a = e.1.hole_punch_attempts as u64;
            attempts = if attempts <= u64::MAX - a {
                attempts + a
            } else {
                u64::MAX
            };
            let sc = e.1.successful_hole_punches as u64;
            successes = if successes <= u64::MAX - sc {
                successes + sc
            } else {
                u64::MAX
            };
            let m = e.1.direct_messages_sent as u64 + e.1.direct_messages_received as u64;
            messages = if messages <= u64::MAX - m {
                messages + m
            } else {
                u64::MAX
            };
            i += 1;
            proof {
                let cur = self@.peers.subrange(0, i as int);
                assert(cur.drop_last() =~= pre);
                assert(cur.last() == self@.peers[i - 1]);
                assert(a as int == self@.peers[i - 1].1.hole_punch_attempts);
                assert(sc as int == self@.peers[i - 1].1.successful_hole_punches);
                assert(sum_attempts(cur) == sum_attempts(pre) + a);
                assert(sum_successes(cur) == sum_successes(pre) + sc);
                assert(sum_messages(cur) == sum_messages(pre) + m);
            }
        }
        proof {
            assert(self@.peers.subrange(0, n as int) =~= self@.peers);
        }
        NatSummary {
            total_peers: n,
            successful_connections: successful,
            total_attempts: attempts,
            total_successes: successes,
            total_messages: messages,
        }
    }

    /// The entries, in insertion order, for the report tables.
    pub fn entries(&self) -> (r: &Vec<(String, NatTraversalStats)>)
        ensures
            entries_view(r@) == self@.peers,
    {
        &self.stats
    }
}


/// How many peers completed a traversal.
pub open spec fn count_successful(s: Seq<(Seq<char>, StatsView)>) -> int
    decreases s.len(),
{
    if s.len() == 0 {
        0
    } else {
        count_successful(s.drop_last()) + if s.last().1.traversal_success {
            1int
        } else {
            0int
        }
    }
}

/// The punch attempts of all peers together.
pub open spec fn sum_attempts(s: Seq<(Seq<char>, StatsView)>) -> int
    decreases s.len(),
{
    if s.len() == 0 {
        0
    } else {
        sum_attempts(s.drop_last()) + s.last().1.hole_punch_attempts
    }
}

/// The punch successes of all peers together.
pub open spec fn sum_successes(s: Seq<(Seq<char>, StatsView)>) -> int
    decreases s.len(),
{
    if s.len() == 0 {
        0
    } else {
        sum_successes(s.drop_last()) + s.last().1.successful_hole_punches
    }
}

/// The direct messages, sent and received, of all peers together.
pub open spec fn sum_messages(s: Seq<(Seq<char>, StatsView)>) -> int
    decreases s.len(),
{
    if s.len() == 0 {
        0
    } else {
        sum_messages(s.drop_last()) + s.last().1.direct_messages_sent
            + s.last().1.direct_messages_received
    }
}

/// A nonnegative total held to the counter's ceiling.
pub open spec fn clamp64(x: int) -> u64 {
    if x > u64::MAX {
        u64::MAX
    } else if x < 0 {
        0
    } else {
        x as u64
    }
}

/// No total is ever negative.
pub proof fn lemma_sums_nonneg(s: Seq<(Seq<char>, StatsView)>)
    ensures
        0 <= count_successful(s) <= s.len(),
        sum_attempts(s) >= 0,
        sum_successes(s) >= 0,
        sum_messages(s) >= 0,
    decreases s.len(),
{
    if s.len() > 0 {
        lemma_sums_nonneg(s.drop_last());
    }
}

/// The totals the summary line of the reports shows.
#[derive(Clone, Copy, Debug)]
pub struct NatSummary {
    pub total_peers: usize,
    pub successful_connections: usize,
    pub total_attempts: u64,
    pub total_successes: u64,
    pub total_messages: u64,
}

/// The lifecycle law: a fresh discovery starts at discovering, an
/// attempt moves to punching, a success moves to connected; and no
/// logging step short of a fresh discovery ever moves a peer back to
/// discovering — in particular a connected peer stays connected under
/// message traffic.
pub proof fn lemma_connection_lifecycle(
    local: SockAddr,
    ext: Option<SockAddr>,
    id: Seq<char>,
    addr: Option<SockAddr>,
    s: StatsView,
    now_ms: u64,
    latency_ms: u64,
)
    ensures
        fresh_stats(local, ext, id, addr).connection_state == ConnectionState::Discovering,
        after_attempt(fresh_stats(local, ext, id, addr), now_ms).connection_state
            == ConnectionState::HolePunching,
        after_success(after_attempt(fresh_stats(local, ext, id, addr), now_ms), latency_ms)
            .connection_state == ConnectionState::Connected,
        after_attempt(s, now_ms).connection_state != ConnectionState::Discovering,
        after_success(s, latency_ms).connection_state != ConnectionState::Discovering,
        after_failure(s).connection_state != ConnectionState::Discovering,
        s.connection_state == ConnectionState::Connected ==> after_msg_sent(s).connection_state
            == ConnectionState::Connected,
        s.connection_state == ConnectionState::Connected ==> after_msg_received(s).connection_state
            == ConnectionState::Connected,
{
}

/// Cuts a string down to at most `max_len` characters, marking a cut
/// with a trailing ellipsis, as the report tables need.
pub open spec fn truncated(s: Seq<char>, max_len: nat) -> Seq<char> {
    if s.len() <= max_len {
        s
    } else {
        s.subrange(0, max_len - 3) + "..."@
    }
}

/// Cuts a string down to at most `max_len` characters, marking a cut
/// with a trailing ellipsis.
pub fn truncate_string(s: &str, max_len: usize) -> (r: String)
    requires
        max_len >= 3,
    ensures
        r@ == truncated(s@, max_len as nat),
{
    let n = s.unicode_len();
    if n <= max_len {
        s.to_owned()
    } else {
        let mut out = s.substring_char(0, max_len - 3).to_owned();
        out.append("...");
        proof {
            assert(out@ =~= truncated(s@, max_len as nat));
        }
        out
    }
}

/// A run of spaces.
pub open spec fn blanks(n: nat) -> Seq<char>
    decreases n,
{
    if n == 0 {
        Seq::empty()
    } else {
        blanks((n - 1) as nat).push(' ')
    }
}

/// Pads a string with spaces on the right up to `width` characters, or
/// truncates it to that width.
pub fn pad_string(s: &str, width: usize) -> (r: String)
    requires
        width >= 3,
    ensures
        r@ == (if s@.len() >= width {
            truncated(s@, width as nat)
        } else {
            s@ + blanks((width - s@.len()) as nat)
        }),
{
    proof {
        reveal_strlit(" ");
    }
    let n = s.unicode_len();
    if n >= width {
        truncate_string(s, width)
    } else {
        let mut out = s.to_owned();
        let mut i: usize = 0;
        while i < width - n
            invariant
                n == s@.len(),
                n < width,
                0 <= i <= width - n,
                out@ == s@ + blanks(i as nat),
                " "@ == seq![' '],
            decreases width - n - i,
        {
            out.append(" ");
            i += 1;
            proof {
                assert(out@ =~= s@ + blanks(i as nat));
            }
        }
        out
    }
}

} // verus!
