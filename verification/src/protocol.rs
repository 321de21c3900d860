//! The wire protocol between client and rendezvous server: message
//! variants, their textual encoding, and a decoder whose acceptance and
//! errors are pinned down exactly, with the encode/decode round trip
//! proved.

use vstd::prelude::*;

use crate::addr::SockAddr;
use crate::addr::lemma_addr_round_trip;
use crate::addr::lemma_addr_str_no_pipe;
use crate::addr::parse_sock_addr;
use crate::addr::push_sock_addr;
use crate::addr::spec_addr_str;
use crate::addr::spec_parse_sock_addr;
use crate::num::dec_parse_ok;
use crate::num::dec_val;
use crate::num::lemma_dec_digits_are_digits;
use crate::num::lemma_dec_digits_val;
use crate::num::parse_dec_u16;
use crate::num::parse_dec_u64;
use crate::num::push_dec_u64;
use crate::num::spec_dec_digits;
use crate::text::has_no;
use crate::text::has_prefix;
use crate::text::lemma_prefix_of_concat;
use crate::text::lemma_split_concat;
use crate::text::lemma_split_no_sep;
use crate::text::lemma_split_on_len;
use crate::text::lemma_split_structure;
use crate::text::split_on;
use crate::text::rest_after_piece;
use crate::text::split_str;
use crate::text::starts_with_str;
use crate::text::str_eq;

verus! {

/// A message of the rendezvous protocol.
#[derive(Clone, Debug)]
pub enum Message {
    /// A client announces itself under an identifier, claiming a port.
    Register { id: String, port: u16 },
    /// The server answers a registration with the externally observed address.
    RegisterOk { external_addr: SockAddr },
    /// A client asks where a peer is registered.
    Discover { target: String },
    /// The server answers a discovery with the peer's address.
    PeerFound { id: String, addr: SockAddr },
    /// The server answers a discovery for an unknown identifier.
    PeerNotFound { id: String },
    /// A client asks the server to coordinate punching between two peers.
    HolePunch { from: String, to: String },
    /// Legacy punch coordination: a start time with no peer address.
    StartPunch { timestamp: u64 },
    /// Punch coordination: a start time and the other peer's address.
    StartPunchWithPeer { timestamp: u64, peer_addr: SockAddr },
}

/// The mathematical shape of a message: identifiers as character
/// sequences, everything else plain values.
pub enum MsgView {
    Register { id: Seq<char>, port: u16 },
    RegisterOk { external_addr: SockAddr },
    Discover { target: Seq<char> },
    PeerFound { id: Seq<char>, addr: SockAddr },
    PeerNotFound { id: Seq<char> },
    HolePunch { from: Seq<char>, to: Seq<char> },
    StartPunch { timestamp: u64 },
    StartPunchWithPeer { timestamp: u64, peer_addr: SockAddr },
}

impl View for Message {
    type V = MsgView;

    open spec fn view(&self) -> MsgView {
        match self {
            Message::Register { id, port } => MsgView::Register { id: id@, port: *port },
            Message::RegisterOk { external_addr } => MsgView::RegisterOk {
                external_addr: *external_addr,
            },
            Message::Discover { target } => MsgView::Discover { target: target@ },
            Message::PeerFound { id, addr } => MsgView::PeerFound { id: id@, addr: *addr },
            Message::PeerNotFound { id } => MsgView::PeerNotFound { id: id@ },
            Message::HolePunch { from, to } => MsgView::HolePunch { from: from@, to: to@ },
            Message::StartPunch { timestamp } => MsgView::StartPunch { timestamp: *timestamp },
            Message::StartPunchWithPeer { timestamp, peer_addr } => MsgView::StartPunchWithPeer {
                timestamp: *timestamp,
                peer_addr: *peer_addr,
            },
        }
    }
}

impl PartialEq for Message {
    fn eq(&self, other: &Message) -> (r: bool) {
        match (self, other) {
            (Message::Register { id: a, port: p }, Message::Register { id: b, port: q }) => str_eq(
                a.as_str(),
                b.as_str(),
            ) && *p == *q,
            (
                Message::RegisterOk { external_addr: a },
                Message::RegisterOk { external_addr: b },
            ) => *a == *b,
            (Message::Discover { target: a }, Message::Discover { target: b }) => str_eq(
                a.as_str(),
                b.as_str(),
            ),
            (Message::PeerFound { id: a, addr: x }, Message::PeerFound { id: b, addr: y }) => str_eq(
                a.as_str(),
                b.as_str(),
            ) && *x == *y,
            (Message::PeerNotFound { id: a }, Message::PeerNotFound { id: b }) => str_eq(
                a.as_str(),
                b.as_str(),
            ),
            (Message::HolePunch { from: a, to: x }, Message::HolePunch { from: b, to: y }) => str_eq(
                a.as_str(),
                b.as_str(),
            ) && str_eq(x.as_str(), y.as_str()),
            (Message::StartPunch { timestamp: a }, Message::StartPunch { timestamp: b }) => *a
                == *b,
            (
                Message::StartPunchWithPeer { timestamp: a, peer_addr: x },
                Message::StartPunchWithPeer { timestamp: b, peer_addr: y },
            ) => *a == *b && *x == *y,
            _ => false,
        }
    }
}

impl vstd::std_specs::cmp::PartialEqSpecImpl for Message {
    open spec fn obeys_eq_spec() -> bool {
        true
    }

    open spec fn eq_spec(&self, other: &Message) -> bool {
        self@ == other@
    }
}

/// Why a wire string was rejected.
#[derive(Clone, Copy, Debug, PartialEq, Eq, Structural)]
pub enum DecodeError {
    /// Fewer than two colon-delimited pieces.
    InvalidFormat,
    /// A pipe-delimited coordination message with the wrong piece count.
    InvalidStartPeerFormat,
    /// A registration whose port is not a `u16` numeral.
    InvalidPort,
    /// A registration reply whose address does not parse.
    InvalidAddress,
    /// A peer or coordination address that does not parse.
    InvalidPeerAddress,
    /// A timestamp that is not a `u64` numeral.
    InvalidTimestamp,
    /// A known-looking head with the wrong shape, or an unknown head.
    UnknownType,
}

impl DecodeError {
    /// The human-readable reason for each rejection.
    pub open spec fn reason_view(self) -> Seq<char> {
        match self {
            DecodeError::InvalidFormat => "Invalid message format"@,
            DecodeError::InvalidStartPeerFormat => "Invalid START_PEER format"@,
            DecodeError::InvalidPort => "Invalid port"@,
            DecodeError::InvalidAddress => "Invalid address"@,
            DecodeError::InvalidPeerAddress => "Invalid peer address"@,
            DecodeError::InvalidTimestamp => "Invalid timestamp"@,
            DecodeError::UnknownType => "Unknown message type"@,
        }
    }

    /// The human-readable reason, as the protocol reports it.
    pub fn reason(&self) -> (r: &'static str)
        ensures
            r@ == self.reason_view(),
    {
        match self {
            DecodeError::InvalidFormat => "Invalid message format",
            DecodeError::InvalidStartPeerFormat => "Invalid START_PEER format",
            DecodeError::InvalidPort => "Invalid port",
            DecodeError::InvalidAddress => "Invalid address",
            DecodeError::InvalidPeerAddress => "Invalid peer address",
            DecodeError::InvalidTimestamp => "Invalid timestamp",
            DecodeError::UnknownType => "Unknown message type",
        }
    }
}

/// The head of a registration.
pub open spec fn tag_reg() -> Seq<char> {
    seq!['R', 'E', 'G']
}

/// The head of a registration reply.
pub open spec fn tag_ok() -> Seq<char> {
    seq!['O', 'K']
}

/// The head of a discovery request.
pub open spec fn tag_find() -> Seq<char> {
    seq!['F', 'I', 'N', 'D']
}

/// The head of a discovery answer.
pub open spec fn tag_peer() -> Seq<char> {
    seq!['P', 'E', 'E', 'R']
}

/// The head of a failed discovery answer.
pub open spec fn tag_nope() -> Seq<char> {
    seq!['N', 'O', 'P', 'E']
}

/// The head of a punch request.
pub open spec fn tag_punch() -> Seq<char> {
    seq!['P', 'U', 'N', 'C', 'H']
}

/// The head of the legacy coordination message.
pub open spec fn tag_start() -> Seq<char> {
    seq!['S', 'T', 'A', 'R', 'T']
}

/// The head of the pipe-delimited coordination message.
pub open spec fn tag_start_peer() -> Seq<char> {
    seq!['S', 'T', 'A', 'R', 'T', '_', 'P', 'E', 'E', 'R']
}

/// The prefix that marks the pipe-delimited form.
pub open spec fn start_peer_prefix() -> Seq<char> {
    tag_start_peer() + seq!['|']
}

/// The textual wire form of a message: colon-delimited for every
/// variant but the pipe-delimited punch coordination.
pub open spec fn spec_encode(v: MsgView) -> Seq<char> {
    match v {
        MsgView::Register { id, port } => tag_reg() + seq![':'] + id + seq![':'] + spec_dec_digits(
            port as nat,
        ),
        MsgView::RegisterOk { external_addr } => tag_ok() + seq![':'] + spec_addr_str(
            external_addr,
        ),
        MsgView::Discover { target } => tag_find() + seq![':'] + target,
        MsgView::PeerFound { id, addr } => tag_peer() + seq![':'] + id + seq![':'] + spec_addr_str(
            addr,
        ),
        MsgView::PeerNotFound { id } => tag_nope() + seq![':'] + id,
        MsgView::HolePunch { from, to } => tag_punch() + seq![':'] + from + seq![':'] + to,
        MsgView::StartPunch { timestamp } => tag_start() + seq![':'] + spec_dec_digits(
            timestamp as nat,
        ),
        MsgView::StartPunchWithPeer { timestamp, peer_addr } => tag_start_peer() + seq!['|']
            + spec_addr_str(peer_addr) + seq!['|'] + spec_dec_digits(timestamp as nat),
    }
}

/// Exactly which strings decode to which message, and the error every
/// rejected string is answered with.
pub open spec fn spec_decode(s: Seq<char>) -> Result<MsgView, DecodeError> {
    if has_prefix(s, start_peer_prefix()) {
        let parts = split_on(s, '|');
        if parts.len() == 3 {
            match spec_parse_sock_addr(parts[1]) {
                Some(addr) => if dec_parse_ok(parts[2], u64::MAX as nat) {
                    Ok(
                        MsgView::StartPunchWithPeer {
                            timestamp: dec_val(parts[2]) as u64,
                            peer_addr: addr,
                        },
                    )
                } else {
                    Err(DecodeError::InvalidTimestamp)
                },
                None => Err(DecodeError::InvalidPeerAddress),
            }
        } else {
            Err(DecodeError::InvalidStartPeerFormat)
        }
    } else {
        let parts = split_on(s, ':');
        if parts.len() < 2 {
            Err(DecodeError::InvalidFormat)
        } else if parts[0] == tag_reg() {
            if parts.len() == 3 {
                if dec_parse_ok(parts[2], u16::MAX as nat) {
                    Ok(MsgView::Register { id: parts[1], port: dec_val(parts[2]) as u16 })
                } else {
                    Err(DecodeError::InvalidPort)
                }
            } else {
                Err(DecodeError::UnknownType)
            }
        } else if parts[0] == tag_ok() {
            let addr_s = s.subrange(parts[0].len() as int + 1, s.len() as int);
            match spec_parse_sock_addr(addr_s) {
                Some(a) => Ok(MsgView::RegisterOk { external_addr: a }),
                None => Err(DecodeError::InvalidAddress),
            }
        } else if parts[0] == tag_find() {
            Ok(MsgView::Discover { target: parts[1] })
        } else if parts[0] == tag_peer() {
            if parts.len() >= 3 {
                let addr_s = s.subrange(
                    parts[0].len() as int + 1 + parts[1].len() as int + 1,
                    s.len() as int,
                );
                match spec_parse_sock_addr(addr_s) {
                    Some(a) => Ok(MsgView::PeerFound { id: parts[1], addr: a }),
                    None => Err(DecodeError::InvalidPeerAddress),
                }
            } else {
                Err(DecodeError::UnknownType)
            }
        } else if parts[0] == tag_nope() {
            Ok(MsgView::PeerNotFound { id: parts[1] })
        } else if parts[0] == tag_punch() {
            if parts.len() == 3 {
                Ok(MsgView::HolePunch { from: parts[1], to: parts[2] })
            } else {
                Err(DecodeError::UnknownType)
            }
        } else if parts[0] == tag_start() {
            if dec_parse_ok(parts[1], u64::MAX as nat) {
                Ok(MsgView::StartPunch { timestamp: dec_val(parts[1]) as u64 })
            } else {
                Err(DecodeError::InvalidTimestamp)
            }
        } else {
            Err(DecodeError::UnknownType)
        }
    }
}

/// The view of a decode result, for stating the decoder's contract.
pub open spec fn decode_result_view(r: Result<Message, DecodeError>) -> Result<
    MsgView,
    DecodeError,
> {
    match r {
        Ok(m) => Ok(m@),
        Err(e) => Err(e),
    }
}

impl MsgView {
    /// A message is well formed when its identifiers are free of the
    /// colon delimiter; only such messages survive the wire unchanged.
    pub open spec fn wf(self) -> bool {
        match self {
            MsgView::Register { id, .. } => has_no(id, ':'),
            MsgView::Discover { target } => has_no(target, ':'),
            MsgView::PeerFound { id, .. } => has_no(id, ':'),
            MsgView::PeerNotFound { id } => has_no(id, ':'),
            MsgView::HolePunch { from, to } => has_no(from, ':') && has_no(to, ':'),
            _ => true,
        }
    }
}

impl Message {
    /// A message is well formed when its view is.
    pub open spec fn wf(&self) -> bool {
        self@.wf()
    }

    /// Encodes the message in its textual wire form.
    pub fn encode(&self) -> (r: String)
        ensures
            r@ == spec_encode(self@),
    {
        proof {
            reveal_strlit("REG:");
            reveal_strlit("OK:");
            reveal_strlit("FIND:");
            reveal_strlit("PEER:");
            reveal_strlit("NOPE:");
            reveal_strlit("PUNCH:");
            reveal_strlit("START:");
            reveal_strlit("START_PEER|");
            reveal_strlit(":");
            reveal_strlit("|");
        }
        let mut out = String::new();
        match self {
            Message::Register { id, port } => {
                out.append("REG:");
                out.append(id.as_str());
                out.append(":");
                push_dec_u64(*port as u64, &mut out);
            },
            Message::RegisterOk { external_addr } => {
                out.append("OK:");
                push_sock_addr(*external_addr, &mut out);
            },
            Message::Discover { target } => {
                out.append("FIND:");
                out.append(target.as_str());
            },
            Message::PeerFound { id, addr } => {
                out.append("PEER:");
                out.append(id.as_str());
                out.append(":");
                push_sock_addr(*addr, &mut out);
            },
            Message::PeerNotFound { id } => {
                out.append("NOPE:");
                out.append(id.as_str());
            },
            Message::HolePunch { from, to } => {
                out.append("PUNCH:");
                out.append(from.as_str());
                out.append(":");
                out.append(to.as_str());
            },
            Message::StartPunch { timestamp } => {
                out.append("START:");
                push_dec_u64(*timestamp, &mut out);
            },
            Message::StartPunchWithPeer { timestamp, peer_addr } => {
                out.append("START_PEER|");
                push_sock_addr(*peer_addr, &mut out);
                out.append("|");
                push_dec_u64(*timestamp, &mut out);
            },
        }
        assert(out@ =~= spec_encode(self@));
        out
    }

    /// Decodes a textual wire form; accepts exactly what `spec_decode`
    /// accepts and reports exactly the error it names.
    pub fn decode(s: &str) -> (r: Result<Message, DecodeError>)
        ensures
            decode_result_view(r) == spec_decode(s@),
    {
        proof {
            reveal_strlit("START_PEER|");
            assert("START_PEER|"@ =~= start_peer_prefix());
        }
        if starts_with_str(s, "START_PEER|") {
            let parts = split_str(s, '|');
            if parts.len() == 3 {
                match parse_sock_addr(parts[1]) {
                    Some(addr) => match parse_dec_u64(parts[2]) {
                        Some(ts) => Ok(
                            Message::StartPunchWithPeer { timestamp: ts, peer_addr: addr },
                        ),
                        None => Err(DecodeError::InvalidTimestamp),
                    },
                    None => Err(DecodeError::InvalidPeerAddress),
                }
            } else {
                Err(DecodeError::InvalidStartPeerFormat)
            }
        } else {
            Message::decode_colon_form(s)
        }
    }

    /// Decodes the colon-delimited wire forms.
    #[verifier::rlimit(100)]
    fn decode_colon_form(s: &str) -> (r: Result<Message, DecodeError>)
        requires
            !has_prefix(s@, start_peer_prefix()),
        ensures
            decode_result_view(r) == spec_decode(s@),
    {
        proof {
            reveal_strlit("REG");
            reveal_strlit("OK");
            reveal_strlit("FIND");
            assert("REG"@ =~= tag_reg());
            assert("OK"@ =~= tag_ok());
            assert("FIND"@ =~= tag_find());
        }
        let parts = split_str(s, ':');
        if parts.len() < 2 {
            return Err(DecodeError::InvalidFormat);
        }
        if str_eq(parts[0], "REG") {
            if parts.len() == 3 {
                match parse_dec_u16(parts[2]) {
                    Some(port) => Ok(Message::Register { id: parts[1].to_owned(), port }),
                    None => Err(DecodeError::InvalidPort),
                }
            } else {
                Err(DecodeError::UnknownType)
            }
        } else if str_eq(parts[0], "OK") {
            let rest = rest_after_piece(s, ':');
            match parse_sock_addr(rest) {
                Some(a) => Ok(Message::RegisterOk { external_addr: a }),
                None => Err(DecodeError::InvalidAddress),
            }
        } else if str_eq(parts[0], "FIND") {
            Ok(Message::Discover { target: parts[1].to_owned() })
        } else {
            Message::decode_colon_late(s)
        }
    }

    /// Decodes a peer-found answer: the identifier, then the address in
    /// everything after the second delimiter.
    #[verifier::rlimit(50)]
    fn decode_peer_found(s: &str) -> (r: Result<Message, DecodeError>)
        requires
            !has_prefix(s@, start_peer_prefix()),
            split_on(s@, ':').len() >= 3,
            split_on(s@, ':')[0] == tag_peer(),
        ensures
            decode_result_view(r) == spec_decode(s@),
    {
        proof {
            assert(tag_peer() != tag_reg());
            assert(tag_peer() != tag_ok());
            assert(tag_peer()[0] != tag_find()[0]);
        }
        let parts = split_str(s, ':');
        proof {
            lemma_split_structure(s@, ':');
        }
        let rest1 = rest_after_piece(s, ':');
        proof {
            assert(split_on(rest1@, ':') == split_on(s@, ':').drop_first());
            assert(split_on(rest1@, ':')[0] == split_on(s@, ':')[1]);
        }
        proof {
            lemma_split_structure(rest1@, ':');
        }
        let rest = rest_after_piece(rest1, ':');
        proof {
            let k1 = split_on(s@, ':')[0].len() as int;
            let k2 = split_on(s@, ':')[1].len() as int;
            assert(k2 < rest1@.len());
            assert(rest@ =~= s@.subrange(k1 + 1 + k2 + 1, s@.len() as int));
        }
        match parse_sock_addr(rest) {
            Some(a) => Ok(Message::PeerFound { id: parts[1].to_owned(), addr: a }),
            None => Err(DecodeError::InvalidPeerAddress),
        }
    }

    /// Decodes the later colon-delimited arms: peer answers, punch
    /// requests, and the legacy coordination form.
    #[verifier::rlimit(50)]
    fn decode_colon_late(s: &str) -> (r: Result<Message, DecodeError>)
        requires
            !has_prefix(s@, start_peer_prefix()),
            split_on(s@, ':').len() >= 2,
            split_on(s@, ':')[0] != tag_reg(),
            split_on(s@, ':')[0] != tag_ok(),
            split_on(s@, ':')[0] != tag_find(),
        ensures
            decode_result_view(r) == spec_decode(s@),
    {
        proof {
            reveal_strlit("PEER");
            reveal_strlit("NOPE");
            reveal_strlit("PUNCH");
            reveal_strlit("START");
            assert("PEER"@ =~= tag_peer());
            assert("NOPE"@ =~= tag_nope());
            assert("PUNCH"@ =~= tag_punch());
            assert("START"@ =~= tag_start());
        }
        let parts = split_str(s, ':');
        if str_eq(parts[0], "PEER") {
            if parts.len() >= 3 {
                Message::decode_peer_found(s)
            } else {
                Err(DecodeError::UnknownType)
            }
        } else if str_eq(parts[0], "NOPE") {
            Ok(Message::PeerNotFound { id: parts[1].to_owned() })
        } else if str_eq(parts[0], "PUNCH") {
            if parts.len() == 3 {
                Ok(Message::HolePunch { from: parts[1].to_owned(), to: parts[2].to_owned() })
            } else {
                Err(DecodeError::UnknownType)
            }
        } else if str_eq(parts[0], "START") {
            match parse_dec_u64(parts[1]) {
                Some(ts) => Ok(Message::StartPunch { timestamp: ts }),
                None => Err(DecodeError::InvalidTimestamp),
            }
        } else {
            Err(DecodeError::UnknownType)
        }
    }
}

/// The tag of each colon-delimited form is free of the delimiter.
proof fn lemma_tags_sep_free()
    ensures
        has_no(tag_reg(), ':'),
        has_no(tag_ok(), ':'),
        has_no(tag_find(), ':'),
        has_no(tag_peer(), ':'),
        has_no(tag_nope(), ':'),
        has_no(tag_punch(), ':'),
        has_no(tag_start(), ':'),
        has_no(tag_start_peer(), '|'),
{
}

proof fn lemma_rt_register(id: Seq<char>, port: u16)
    requires
        has_no(id, ':'),
    ensures
        spec_decode(spec_encode(MsgView::Register { id, port })) == Ok::<MsgView, DecodeError>(
            MsgView::Register { id, port },
        ),
{
    let v = MsgView::Register { id, port };
    let p = spec_dec_digits(port as nat);
    lemma_dec_digits_are_digits(port as nat);
    lemma_dec_digits_val(port as nat);
    lemma_tags_sep_free();
    let s = spec_encode(v);
    assert(s[0] == 'R');
    if has_prefix(s, start_peer_prefix()) {
        assert(s.subrange(0, start_peer_prefix().len() as int)[0] == s[0]);
        assert(false);
    }
    let y = id + seq![':'] + p;
    assert(s =~= tag_reg() + seq![':'] + y);
    lemma_split_concat(tag_reg(), y, ':');
    lemma_split_concat(id, p, ':');
    lemma_split_no_sep(tag_reg(), ':');
    lemma_split_no_sep(id, ':');
    lemma_split_no_sep(p, ':');
    let parts = split_on(s, ':');
    assert(parts =~= seq![tag_reg(), id, p]);
    assert(dec_parse_ok(p, u16::MAX as nat));
    assert(spec_decode(s) == Ok::<MsgView, DecodeError>(v));
}

proof fn lemma_rt_register_ok(a: SockAddr)
    ensures
        spec_decode(spec_encode(MsgView::RegisterOk { external_addr: a })) == Ok::<
            MsgView,
            DecodeError,
        >(MsgView::RegisterOk { external_addr: a }),
{
    let v = MsgView::RegisterOk { external_addr: a };
    let astr = spec_addr_str(a);
    lemma_tags_sep_free();
    let s = spec_encode(v);
    assert(s[0] == 'O');
    if has_prefix(s, start_peer_prefix()) {
        assert(s.subrange(0, start_peer_prefix().len() as int)[0] == s[0]);
        assert(false);
    }
    lemma_split_concat(tag_ok(), astr, ':');
    lemma_split_no_sep(tag_ok(), ':');
    lemma_split_on_len(astr, ':');
    let parts = split_on(s, ':');
    assert(parts == seq![tag_ok()] + split_on(astr, ':'));
    assert(parts.len() >= 2);
    assert(parts[0] == tag_ok());
    assert(parts[0] != tag_reg());
    assert(s.subrange(parts[0].len() as int + 1, s.len() as int) =~= astr);
    lemma_addr_round_trip(a);
    assert(spec_decode(s) == Ok::<MsgView, DecodeError>(v));
}

proof fn lemma_rt_discover(target: Seq<char>)
    requires
        has_no(target, ':'),
    ensures
        spec_decode(spec_encode(MsgView::Discover { target })) == Ok::<MsgView, DecodeError>(
            MsgView::Discover { target },
        ),
{
    let v = MsgView::Discover { target };
    lemma_tags_sep_free();
    let s = spec_encode(v);
    assert(s[0] == 'F');
    if has_prefix(s, start_peer_prefix()) {
        assert(s.subrange(0, start_peer_prefix().len() as int)[0] == s[0]);
        assert(false);
    }
    lemma_split_concat(tag_find(), target, ':');
    lemma_split_no_sep(tag_find(), ':');
    lemma_split_no_sep(target, ':');
    let parts = split_on(s, ':');
    assert(parts =~= seq![tag_find(), target]);
    assert(spec_decode(s) == Ok::<MsgView, DecodeError>(v));
}

#[verifier::rlimit(100)]
proof fn lemma_rt_peer_found(id: Seq<char>, a: SockAddr)
    requires
        has_no(id, ':'),
    ensures
        spec_decode(spec_encode(MsgView::PeerFound { id, addr: a })) == Ok::<MsgView, DecodeError>(
            MsgView::PeerFound { id, addr: a },
        ),
{
    let v = MsgView::PeerFound { id, addr: a };
    let astr = spec_addr_str(a);
    lemma_tags_sep_free();
    let s = spec_encode(v);
    assert(s[0] == 'P');
    if has_prefix(s, start_peer_prefix()) {
        assert(s.subrange(0, start_peer_prefix().len() as int)[0] == s[0]);
        assert(false);
    }
    let y = id + seq![':'] + astr;
    assert(s =~= tag_peer() + seq![':'] + y);
    lemma_split_concat(tag_peer(), y, ':');
    lemma_split_concat(id, astr, ':');
    lemma_split_no_sep(tag_peer(), ':');
    lemma_split_no_sep(id, ':');
    lemma_split_on_len(astr, ':');
    let parts = split_on(s, ':');
    assert(parts == seq![tag_peer(), id] + split_on(astr, ':'));
    assert(parts.len() >= 3);
    assert(parts[0] == tag_peer());
    assert(parts[1] == id);
    assert(tag_peer().len() == 4);
    assert(tag_reg().len() == 3);
    assert(tag_ok().len() == 2);
    assert(parts[0] != tag_reg());
    assert(parts[0] != tag_ok());
    assert(tag_peer()[0] == 'P' && tag_find()[0] == 'F');
    assert(parts[0] != tag_find());
    assert(s.subrange(
        parts[0].len() as int + 1 + parts[1].len() as int + 1,
        s.len() as int,
    ) =~= astr);
    lemma_addr_round_trip(a);
    assert(spec_decode(s) == Ok::<MsgView, DecodeError>(v));
}

proof fn lemma_rt_peer_not_found(id: Seq<char>)
    requires
        has_no(id, ':'),
    ensures
        spec_decode(spec_encode(MsgView::PeerNotFound { id })) == Ok::<MsgView, DecodeError>(
            MsgView::PeerNotFound { id },
        ),
{
    let v = MsgView::PeerNotFound { id };
    lemma_tags_sep_free();
    let s = spec_encode(v);
    assert(s[0] == 'N');
    if has_prefix(s, start_peer_prefix()) {
        assert(s.subrange(0, start_peer_prefix().len() as int)[0] == s[0]);
        assert(false);
    }
    lemma_split_concat(tag_nope(), id, ':');
    lemma_split_no_sep(tag_nope(), ':');
    lemma_split_no_sep(id, ':');
    let parts = split_on(s, ':');
    assert(parts =~= seq![tag_nope(), id]);
    assert(parts[0][0] != tag_find()[0]);
    assert(parts[0][0] != tag_peer()[0]);
    assert(spec_decode(s) == Ok::<MsgView, DecodeError>(v));
}

#[verifier::rlimit(100)]
proof fn lemma_rt_hole_punch(from: Seq<char>, to: Seq<char>)
    requires
        has_no(from, ':'),
        has_no(to, ':'),
    ensures
        spec_decode(spec_encode(MsgView::HolePunch { from, to })) == Ok::<MsgView, DecodeError>(
            MsgView::HolePunch { from, to },
        ),
{
    let v = MsgView::HolePunch { from, to };
    lemma_tags_sep_free();
    let s = spec_encode(v);
    assert(s[0] == 'P');
    if has_prefix(s, start_peer_prefix()) {
        assert(s.subrange(0, start_peer_prefix().len() as int)[0] == s[0]);
        assert(false);
    }
    let y = from + seq![':'] + to;
    assert(s =~= tag_punch() + seq![':'] + y);
    lemma_split_concat(tag_punch(), y, ':');
    lemma_split_concat(from, to, ':');
    lemma_split_no_sep(tag_punch(), ':');
    lemma_split_no_sep(from, ':');
    lemma_split_no_sep(to, ':');
    let parts = split_on(s, ':');
    assert(parts =~= seq![tag_punch(), from, to]);
    assert(tag_punch().len() == 5);
    assert(tag_reg().len() == 3);
    assert(tag_ok().len() == 2);
    assert(tag_find().len() == 4);
    assert(tag_peer().len() == 4);
    assert(tag_nope().len() == 4);
    assert(parts[0] != tag_reg());
    assert(parts[0] != tag_ok());
    assert(parts[0] != tag_find());
    assert(parts[0] != tag_peer());
    assert(parts[0] != tag_nope());
    assert(spec_decode(s) == Ok::<MsgView, DecodeError>(v));
}

proof fn lemma_rt_start_punch(timestamp: u64)
    ensures
        spec_decode(spec_encode(MsgView::StartPunch { timestamp })) == Ok::<MsgView, DecodeError>(
            MsgView::StartPunch { timestamp },
        ),
{
    let v = MsgView::StartPunch { timestamp };
    let d = spec_dec_digits(timestamp as nat);
    lemma_dec_digits_are_digits(timestamp as nat);
    lemma_dec_digits_val(timestamp as nat);
    lemma_tags_sep_free();
    let s = spec_encode(v);
    assert(s[5] == ':');
    if has_prefix(s, start_peer_prefix()) {
        assert(s.subrange(0, start_peer_prefix().len() as int)[5] == s[5]);
        assert(start_peer_prefix()[5] == '_');
        assert(false);
    }
    lemma_split_concat(tag_start(), d, ':');
    lemma_split_no_sep(tag_start(), ':');
    lemma_split_no_sep(d, ':');
    let parts = split_on(s, ':');
    assert(parts =~= seq![tag_start(), d]);
    assert(parts[0][0] != tag_find()[0]);
    assert(parts[0][0] != tag_peer()[0]);
    assert(parts[0][0] != tag_nope()[0]);
    assert(parts[0][0] != tag_punch()[0]);
    assert(dec_parse_ok(d, u64::MAX as nat));
    assert(spec_decode(s) == Ok::<MsgView, DecodeError>(v));
}

#[verifier::rlimit(100)]
proof fn lemma_rt_start_punch_with_peer(timestamp: u64, a: SockAddr)
    ensures
        spec_decode(spec_encode(MsgView::StartPunchWithPeer { timestamp, peer_addr: a })) == Ok::<
            MsgView,
            DecodeError,
        >(MsgView::StartPunchWithPeer { timestamp, peer_addr: a }),
{
    let v = MsgView::StartPunchWithPeer { timestamp, peer_addr: a };
    let astr = spec_addr_str(a);
    let d = spec_dec_digits(timestamp as nat);
    lemma_dec_digits_are_digits(timestamp as nat);
    lemma_dec_digits_val(timestamp as nat);
    lemma_addr_str_no_pipe(a);
    lemma_tags_sep_free();
    let s = spec_encode(v);
    let y = astr + seq!['|'] + d;
    assert(s =~= start_peer_prefix() + y);
    lemma_prefix_of_concat(start_peer_prefix(), y);
    assert(has_prefix(s, start_peer_prefix()));
    assert(s =~= tag_start_peer() + seq!['|'] + y);
    lemma_split_concat(tag_start_peer(), y, '|');
    lemma_split_concat(astr, d, '|');
    lemma_split_no_sep(tag_start_peer(), '|');
    lemma_split_no_sep(astr, '|');
    lemma_split_no_sep(d, '|');
    let parts = split_on(s, '|');
    assert(parts =~= seq![tag_start_peer(), astr, d]);
    lemma_addr_round_trip(a);
    assert(dec_parse_ok(d, u64::MAX as nat));
    assert(spec_decode(s) == Ok::<MsgView, DecodeError>(v));
}

/// The round-trip law: every well-formed message, encoded to its wire
/// form and decoded again, comes back equal, for v4 and v6 addresses
/// alike.
pub proof fn lemma_encode_decode_round_trip(v: MsgView)
    requires
        v.wf(),
    ensures
        spec_decode(spec_encode(v)) == Ok::<MsgView, DecodeError>(v),
{
    match v {
        MsgView::Register { id, port } => lemma_rt_register(id, port),
        MsgView::RegisterOk { external_addr } => lemma_rt_register_ok(external_addr),
        MsgView::Discover { target } => lemma_rt_discover(target),
        MsgView::PeerFound { id, addr } => lemma_rt_peer_found(id, addr),
        MsgView::PeerNotFound { id } => lemma_rt_peer_not_found(id),
        MsgView::HolePunch { from, to } => lemma_rt_hole_punch(from, to),
        MsgView::StartPunch { timestamp } => lemma_rt_start_punch(timestamp),
        MsgView::StartPunchWithPeer { timestamp, peer_addr } => lemma_rt_start_punch_with_peer(
            timestamp,
            peer_addr,
        ),
    }
}

} // verus!
