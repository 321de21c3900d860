//! The rendezvous server's core: a registry of observed client
//! addresses and the pure handling of each inbound message, yielding
//! the datagrams to send back.

use vstd::prelude::*;

use crate::addr::SockAddr;
use crate::protocol::Message;
use crate::protocol::MsgView;
use crate::text::str_eq;

verus! {

/// How far in the future the server schedules a coordinated punch, in
/// milliseconds, so both sides have time to receive and prepare.
pub const PUNCH_OFFSET_MS: u64 = 2000;

/// The map held by a list of registration entries; a later entry for
/// the same identifier wins, as re-registration overwrites.
pub open spec fn assoc_map(s: Seq<(String, SockAddr)>) -> Map<Seq<char>, SockAddr>
    decreases s.len(),
{
    if s.len() == 0 {
        Map::empty()
    } else {
        assoc_map(s.drop_last()).insert(s.last().0@, s.last().1)
    }
}

proof fn lemma_assoc_absent(s: Seq<(String, SockAddr)>, k: Seq<char>)
    requires
        forall|j: int| 0 <= j < s.len() ==> (#[trigger] s[j]).0@ != k,
    ensures
        !assoc_map(s).contains_key(k),
    decreases s.len(),
{
    if s.len() > 0 {
        lemma_assoc_absent(s.drop_last(), k);
    }
}

proof fn lemma_assoc_last_match(s: Seq<(String, SockAddr)>, i: int, k: Seq<char>)
    requires
        0 <= i < s.len(),
        s[i].0@ == k,
        forall|j: int| i < j < s.len() ==> (#[trigger] s[j]).0@ != k,
    ensures
        assoc_map(s).contains_key(k),
        assoc_map(s)[k] == s[i].1,
    decreases s.len(),
{
    if i < s.len() - 1 {
        lemma_assoc_last_match(s.drop_last(), i, k);
        assert(s[s.len() - 1].0@ != k);
    }
}

/// The registry: each client identifier mapped to the externally
/// observed address it registered from.
pub struct Registry {
    entries: Vec<(String, SockAddr)>,
}

impl View for Registry {
    type V = Map<Seq<char>, SockAddr>;

    closed spec fn view(&self) -> Map<Seq<char>, SockAddr> {
        assoc_map(self.entries@)
    }
}

impl Registry {
    /// An empty registry.
    pub fn new() -> (r: Registry)
        ensures
            r@ == Map::<Seq<char>, SockAddr>::empty(),
    {
        Registry { entries: Vec::new() }
    }

    /// Stores an address under an identifier; a repeated identifier is
    /// overwritten.
    pub fn upsert(&mut self, id: String, addr: SockAddr)
        ensures
            final(self)@ == old(self)@.insert(id@, addr),
    {
        self.entries.push((id, addr));
        proof {
            assert(self.entries@.drop_last() =~= old(self).entries@);
        }
    }

    /// Looks an identifier up; the address it was last registered with,
    /// if any.
    pub fn lookup(&self, id: &str) -> (r: Option<SockAddr>)
        ensures
            match r {
                Some(a) => self@.contains_key(id@) && self@[id@] == a,
                None => !self@.contains_key(id@),
            },
    {
        let n = self.entries.len();
        let mut i: usize = n;
        while i > 0
            invariant
                i <= n == self.entries@.len(),
                forall|j: int| i <= j < n ==> (#[trigger] self.entries@[j]).0@ != id@,
            decreases i,
        {
            i = i - 1;
            let e = &self.entries[i];
            if str_eq(e.0.as_str(), id) {
                proof {
                    lemma_assoc_last_match(self.entries@, i as int, id@);
                }
                return Some(e.1);
            }
        }
        proof {
            lemma_assoc_absent(self.entries@, id@);
        }
        None
    }
}

/// What the server does with one inbound message: the registry
/// afterwards, and the replies to send, in order. A registration
/// stores the sender's observed IP with the client-claimed port; a
/// punch request reaches out to both parties with one shared
/// timestamp, or to nobody when either party is unknown.
pub open spec fn server_step(
    reg: Map<Seq<char>, SockAddr>,
    m: MsgView,
    sender: SockAddr,
    now_ms: u64,
) -> (Map<Seq<char>, SockAddr>, Seq<(SockAddr, MsgView)>) {
    match m {
        MsgView::Register { id, port } => {
            let ext = SockAddr { ip: sender.ip, port };
            (reg.insert(id, ext), seq![(sender, MsgView::RegisterOk { external_addr: ext })])
        },
        MsgView::Discover { target } => (
            reg,
            if reg.contains_key(target) {
                seq![(sender, MsgView::PeerFound { id: target, addr: reg[target] })]
            } else {
                seq![(sender, MsgView::PeerNotFound { id: target })]
            },
        ),
        MsgView::HolePunch { from, to } => if reg.contains_key(from) && reg.contains_key(to) {
            let ts = (now_ms + PUNCH_OFFSET_MS) as u64;
            (
                reg,
                seq![
                    (
                        reg[from],
                        MsgView::StartPunchWithPeer { timestamp: ts, peer_addr: reg[to] },
                    ),
                    (
                        reg[to],
                        MsgView::StartPunchWithPeer { timestamp: ts, peer_addr: reg[from] },
                    ),
                ],
            )
        } else {
            (reg, seq![])
        },
        _ => (reg, seq![]),
    }
}

/// The rendezvous server's state: its registry, nothing else.
pub struct Server {
    registry: Registry,
}

impl View for Server {
    type V = Map<Seq<char>, SockAddr>;

    closed spec fn view(&self) -> Map<Seq<char>, SockAddr> {
        self.registry@
    }
}

impl Server {
    /// A fresh server with an empty registry.
    pub fn new() -> (r: Server)
        ensures
            r@ == Map::<Seq<char>, SockAddr>::empty(),
    {
        Server { registry: Registry::new() }
    }

    /// Handles one inbound message from `sender` at wall-clock time
    /// `now_ms`, mutating the registry and returning the datagrams to
    /// send, exactly as `server_step` says.
    pub fn handle_message(&mut self, msg: Message, sender: SockAddr, now_ms: u64) -> (replies: Vec<
        (SockAddr, Message),
    >)
        requires
            msg@ is HolePunch ==> now_ms <= u64::MAX - PUNCH_OFFSET_MS,
        ensures
            final(self)@ == server_step(old(self)@, msg@, sender, now_ms).0,
            replies@.len() == server_step(old(self)@, msg@, sender, now_ms).1.len(),
            forall|i: int|
                0 <= i < replies@.len() ==> ((#[trigger] replies@[i]).0, replies@[i].1@)
                    == server_step(old(self)@, msg@, sender, now_ms).1[i],
    {
        let mut replies: Vec<(SockAddr, Message)> = Vec::new();
        match msg {
            Message::Register { id, port } => {
                let ext = SockAddr { ip: sender.ip, port };
                self.registry.upsert(id, ext);
                replies.push((sender, Message::RegisterOk { external_addr: ext }));
            },
            Message::Discover { target } => {
                match self.registry.lookup(target.as_str()) {
                    Some(addr) => {
                        replies.push((sender, Message::PeerFound { id: target, addr }));
                    },
                    None => {
                        replies.push((sender, Message::PeerNotFound { id: target }));
                    },
                }
            },
            Message::HolePunch { from, to } => {
                let from_addr = self.registry.lookup(from.as_str());
                let to_addr = self.registry.lookup(to.as_str());
                match (from_addr, to_addr) {
                    (Some(fa), Some(ta)) => {
                        let ts = now_ms + PUNCH_OFFSET_MS;
                        replies.push(
                            (fa, Message::StartPunchWithPeer { timestamp: ts, peer_addr: ta }),
                        );
                        replies.push(
                            (ta, Message::StartPunchWithPeer { timestamp: ts, peer_addr: fa }),
                        );
                    },
                    _ => {},
                }
            },
            _ => {},
        }
        replies
    }
}

} // verus!
