//! Socket addresses as plain values: an IP address (v4 octets or v6
//! groups) with a port, and their textual form on the wire, with the
//! parse/render round trip proved.

use vstd::prelude::*;

use crate::num::dec_parse_ok;
use crate::num::dec_val;
use crate::num::hex_parse_ok;
use crate::num::hex_val;
use crate::num::is_dec_digit;
use crate::num::lemma_dec_digits_are_digits;
use crate::num::lemma_dec_digits_val;
use crate::num::lemma_hex_digits_are_digits;
use crate::num::lemma_hex_digits_val;
use crate::num::parse_dec_u16;
use crate::num::parse_dec_u8;
use crate::num::parse_hex_u16;
use crate::num::push_dec_u64;
use crate::num::push_hex_u16;
use crate::num::spec_dec_digits;
use crate::num::spec_hex_digits;
use crate::text::has_no;
use crate::text::lemma_has_no_concat;
use crate::text::lemma_split_concat;
use crate::text::lemma_split_no_sep;
use crate::text::lemma_split_structure;
use crate::text::split_on;
use crate::text::split_str;

verus! {

/// An IP address, held as plain integers.
#[derive(Clone, Copy, Debug, PartialEq, Eq, Structural)]
pub enum IpAddress {
    /// Four dotted octets.
    V4 { a: u8, b: u8, c: u8, d: u8 },
    /// Eight hexadecimal groups.
    V6 { g0: u16, g1: u16, g2: u16, g3: u16, g4: u16, g5: u16, g6: u16, g7: u16 },
}

/// An IP address with a port: what the rendezvous server observes and
/// what the wire format carries.
#[derive(Clone, Copy, Debug, PartialEq, Eq, Structural)]
pub struct SockAddr {
    pub ip: IpAddress,
    pub port: u16,
}

/// The textual form of an IP address: dotted decimal octets for v4,
/// bracketed colon-joined lowercase hexadecimal groups for v6.
pub open spec fn spec_ip_str(ip: IpAddress) -> Seq<char> {
    match ip {
        IpAddress::V4 { a, b, c, d } => spec_dec_digits(a as nat) + seq!['.'] + spec_dec_digits(
            b as nat,
        ) + seq!['.'] + spec_dec_digits(c as nat) + seq!['.'] + spec_dec_digits(d as nat),
        IpAddress::V6 { g0, g1, g2, g3, g4, g5, g6, g7 } => seq!['['] + spec_hex_digits(g0 as nat)
            + seq![':'] + spec_hex_digits(g1 as nat) + seq![':'] + spec_hex_digits(g2 as nat)
            + seq![':'] + spec_hex_digits(g3 as nat) + seq![':'] + spec_hex_digits(g4 as nat)
            + seq![':'] + spec_hex_digits(g5 as nat) + seq![':'] + spec_hex_digits(g6 as nat)
            + seq![':'] + spec_hex_digits(g7 as nat) + seq![']'],
    }
}

/// The textual form of a socket address: the IP followed by a colon and
/// the decimal port.
pub open spec fn spec_addr_str(a: SockAddr) -> Seq<char> {
    spec_ip_str(a.ip) + seq![':'] + spec_dec_digits(a.port as nat)
}

/// What parsing a socket address accepts and yields: a bracketed form
/// with exactly eight hexadecimal groups and a decimal port, or a
/// two-piece dotted-decimal form.
#[verifier::opaque]
pub open spec fn spec_parse_sock_addr(s: Seq<char>) -> Option<SockAddr> {
    if s.len() > 0 && s[0] == '[' {
        let parts = split_on(s, ']');
        if parts.len() == 2 && parts[1].len() >= 1 && parts[1][0] == ':' {
            let inner = parts[0].subrange(1, parts[0].len() as int);
            let groups = split_on(inner, ':');
            let port_s = parts[1].subrange(1, parts[1].len() as int);
            if groups.len() == 8 && (forall|i: int|
                0 <= i < 8 ==> hex_parse_ok(#[trigger] groups[i], 0xffff)) && dec_parse_ok(
                port_s,
                0xffff,
            ) {
                Some(
                    SockAddr {
                        ip: IpAddress::V6 {
                            g0: hex_val(groups[0]) as u16,
                            g1: hex_val(groups[1]) as u16,
                            g2: hex_val(groups[2]) as u16,
                            g3: hex_val(groups[3]) as u16,
                            g4: hex_val(groups[4]) as u16,
                            g5: hex_val(groups[5]) as u16,
                            g6: hex_val(groups[6]) as u16,
                            g7: hex_val(groups[7]) as u16,
                        },
                        port: dec_val(port_s) as u16,
                    },
                )
            } else {
                None
            }
        } else {
            None
        }
    } else {
        let parts = split_on(s, ':');
        if parts.len() == 2 {
            let octs = split_on(parts[0], '.');
            if octs.len() == 4 && (forall|i: int|
                0 <= i < 4 ==> dec_parse_ok(#[trigger] octs[i], 255)) && dec_parse_ok(
                parts[1],
                0xffff,
            ) {
                Some(
                    SockAddr {
                        ip: IpAddress::V4 {
                            a: dec_val(octs[0]) as u8,
                            b: dec_val(octs[1]) as u8,
                            c: dec_val(octs[2]) as u8,
                            d: dec_val(octs[3]) as u8,
                        },
                        port: dec_val(parts[1]) as u16,
                    },
                )
            } else {
                None
            }
        } else {
            None
        }
    }
}

/// Appends the textual form of `a` to `out`.
pub fn push_sock_addr(a: SockAddr, out: &mut String)
    ensures
        final(out)@ == old(out)@ + spec_addr_str(a),
{
    proof {
        reveal_strlit(".");
        reveal_strlit(":");
        reveal_strlit("[");
        reveal_strlit("]");
    }
    match a.ip {
        IpAddress::V4 { a: o1, b: o2, c: o3, d: o4 } => {
            push_dec_u64(o1 as u64, out);
            out.append(".");
            push_dec_u64(o2 as u64, out);
            out.append(".");
            push_dec_u64(o3 as u64, out);
            out.append(".");
            push_dec_u64(o4 as u64, out);
        },
        IpAddress::V6 { g0, g1, g2, g3, g4, g5, g6, g7 } => {
            out.append("[");
            push_hex_u16(g0, out);
            out.append(":");
            push_hex_u16(g1, out);
            out.append(":");
            push_hex_u16(g2, out);
            out.append(":");
            push_hex_u16(g3, out);
            out.append(":");
            push_hex_u16(g4, out);
            out.append(":");
            push_hex_u16(g5, out);
            out.append(":");
            push_hex_u16(g6, out);
            out.append(":");
            push_hex_u16(g7, out);
            out.append("]");
        },
    }
    out.append(":");
    push_dec_u64(a.port as u64, out);
    assert(out@ =~= old(out)@ + spec_addr_str(a));
}

/// Parses the textual form of a socket address.
pub fn parse_sock_addr(s: &str) -> (r: Option<SockAddr>)
    ensures
        r == spec_parse_sock_addr(s@),
{
    proof {
        reveal(spec_parse_sock_addr);
    }
    let len = s.unicode_len();
    if len > 0 && s.get_char(0) == '[' {
        let parts = split_str(s, ']');
        if parts.len() != 2 {
            return None;
        }
        let p1 = parts[1];
        let p1len = p1.unicode_len();
        if p1len < 1 || p1.get_char(0) != ':' {
            return None;
        }
        let p0 = parts[0];
        let p0len = p0.unicode_len();
        proof {
            lemma_split_structure(s@, ']');
            assert(p0@ == split_on(s@, ']')[0]);
            if p0@.len() == 0 {
                assert(s@[0] == ']');
            }
        }
        let inner = p0.substring_char(1, p0len);
        let groups = split_str(inner, ':');
        if groups.len() != 8 {
            return None;
        }
        let g0 = match parse_hex_u16(groups[0]) {
            Some(v) => v,
            None => {
                return None;
            },
        };
        let g1 = match parse_hex_u16(groups[1]) {
            Some(v) => v,
            None => {
                return None;
            },
        };
        let g2 = match parse_hex_u16(groups[2]) {
            Some(v) => v,
            None => {
                return None;
            },
        };
        let g3 = match parse_hex_u16(groups[3]) {
            Some(v) => v,
            None => {
                return None;
            },
        };
        let g4 = match parse_hex_u16(groups[4]) {
            Some(v) => v,
            None => {
                return None;
            },
        };
        let g5 = match parse_hex_u16(groups[5]) {
            Some(v) => v,
            None => {
                return None;
            },
        };
        let g6 = match parse_hex_u16(groups[6]) {
            Some(v) => v,
            None => {
                return None;
            },
        };
        let g7 = match parse_hex_u16(groups[7]) {
            Some(v) => v,
            None => {
                return None;
            },
        };
        let port_s = p1.substring_char(1, p1len);
        let port = match parse_dec_u16(port_s) {
            Some(v) => v,
            None => {
                return None;
            },
        };
        Some(SockAddr { ip: IpAddress::V6 { g0, g1, g2, g3, g4, g5, g6, g7 }, port })
    } else {
        let parts = split_str(s, ':');
        if parts.len() != 2 {
            return None;
        }
        let octs = split_str(parts[0], '.');
        if octs.len() != 4 {
            return None;
        }
        let a = match parse_dec_u8(octs[0]) {
            Some(v) => v,
            None => {
                return None;
            },
        };
        let b = match parse_dec_u8(octs[1]) {
            Some(v) => v,
            None => {
                return None;
            },
        };
        let c = match parse_dec_u8(octs[2]) {
            Some(v) => v,
            None => {
                return None;
            },
        };
        let d = match parse_dec_u8(octs[3]) {
            Some(v) => v,
            None => {
                return None;
            },
        };
        let port = match parse_dec_u16(parts[1]) {
            Some(v) => v,
            None => {
                return None;
            },
        };
        Some(SockAddr { ip: IpAddress::V4 { a, b, c, d }, port })
    }
}

/// The textual form of an address never contains a pipe, so it can sit
/// between pipe delimiters on the wire.
pub proof fn lemma_addr_str_no_pipe(a: SockAddr)
    ensures
        has_no(spec_addr_str(a), '|'),
{
    let pipe = '|';
    let port_s = spec_dec_digits(a.port as nat);
    lemma_dec_digits_are_digits(a.port as nat);
    assert(has_no(port_s, pipe));
    match a.ip {
        IpAddress::V4 { a: o1, b: o2, c: o3, d: o4 } => {
            let s1 = spec_dec_digits(o1 as nat);
            let s2 = spec_dec_digits(o2 as nat);
            let s3 = spec_dec_digits(o3 as nat);
            let s4 = spec_dec_digits(o4 as nat);
            lemma_dec_digits_are_digits(o1 as nat);
            lemma_dec_digits_are_digits(o2 as nat);
            lemma_dec_digits_are_digits(o3 as nat);
            lemma_dec_digits_are_digits(o4 as nat);
            lemma_has_no_concat(s1, seq!['.'], pipe);
            lemma_has_no_concat(s1 + seq!['.'], s2, pipe);
            lemma_has_no_concat(s1 + seq!['.'] + s2, seq!['.'], pipe);
            lemma_has_no_concat(s1 + seq!['.'] + s2 + seq!['.'], s3, pipe);
            lemma_has_no_concat(s1 + seq!['.'] + s2 + seq!['.'] + s3, seq!['.'], pipe);
            lemma_has_no_concat(s1 + seq!['.'] + s2 + seq!['.'] + s3 + seq!['.'], s4, pipe);
            let ip_s = spec_ip_str(a.ip);
            lemma_has_no_concat(ip_s, seq![':'], pipe);
            lemma_has_no_concat(ip_s + seq![':'], port_s, pipe);
        },
        IpAddress::V6 { g0, g1, g2, g3, g4, g5, g6, g7 } => {
            let h0 = spec_hex_digits(g0 as nat);
            let h1 = spec_hex_digits(g1 as nat);
            let h2 = spec_hex_digits(g2 as nat);
            let h3 = spec_hex_digits(g3 as nat);
            let h4 = spec_hex_digits(g4 as nat);
            let h5 = spec_hex_digits(g5 as nat);
            let h6 = spec_hex_digits(g6 as nat);
            let h7 = spec_hex_digits(g7 as nat);
            lemma_hex_digits_are_digits(g0 as nat);
            lemma_hex_digits_are_digits(g1 as nat);
            lemma_hex_digits_are_digits(g2 as nat);
            lemma_hex_digits_are_digits(g3 as nat);
            lemma_hex_digits_are_digits(g4 as nat);
            lemma_hex_digits_are_digits(g5 as nat);
            lemma_hex_digits_are_digits(g6 as nat);
            lemma_hex_digits_are_digits(g7 as nat);
            let p0 = seq!['['] + h0;
            let p1 = p0 + seq![':'] + h1;
            let p2 = p1 + seq![':'] + h2;
            let p3 = p2 + seq![':'] + h3;
            let p4 = p3 + seq![':'] + h4;
            let p5 = p4 + seq![':'] + h5;
            let p6 = p5 + seq![':'] + h6;
            let p7 = p6 + seq![':'] + h7;
            lemma_has_no_concat(seq!['['], h0, pipe);
            lemma_has_no_concat(p0, seq![':'], pipe);
            lemma_has_no_concat(p0 + seq![':'], h1, pipe);
            lemma_has_no_concat(p1, seq![':'], pipe);
            lemma_has_no_concat(p1 + seq![':'], h2, pipe);
            lemma_has_no_concat(p2, seq![':'], pipe);
            lemma_has_no_concat(p2 + seq![':'], h3, pipe);
            lemma_has_no_concat(p3, seq![':'], pipe);
            lemma_has_no_concat(p3 + seq![':'], h4, pipe);
            lemma_has_no_concat(p4, seq![':'], pipe);
            lemma_has_no_concat(p4 + seq![':'], h5, pipe);
            lemma_has_no_concat(p5, seq![':'], pipe);
            lemma_has_no_concat(p5 + seq![':'], h6, pipe);
            lemma_has_no_concat(p6, seq![':'], pipe);
            lemma_has_no_concat(p6 + seq![':'], h7, pipe);
            lemma_has_no_concat(p7, seq![']'], pipe);
            let ip_s = spec_ip_str(a.ip);
            assert(ip_s =~= p7 + seq![']']);
            assert(has_no(ip_s, pipe));
            lemma_has_no_concat(ip_s, seq![':'], pipe);
            lemma_has_no_concat(ip_s + seq![':'], port_s, pipe);
        },
    }
}

/// Splitting eight colon-joined separator-free groups gives the groups.
#[verifier::rlimit(100)]
proof fn lemma_v6_inner_split(
    h0: Seq<char>,
    h1: Seq<char>,
    h2: Seq<char>,
    h3: Seq<char>,
    h4: Seq<char>,
    h5: Seq<char>,
    h6: Seq<char>,
    h7: Seq<char>,
)
    requires
        has_no(h0, ':'),
        has_no(h1, ':'),
        has_no(h2, ':'),
        has_no(h3, ':'),
        has_no(h4, ':'),
        has_no(h5, ':'),
        has_no(h6, ':'),
        has_no(h7, ':'),
    ensures
        split_on(
            h0 + seq![':'] + h1 + seq![':'] + h2 + seq![':'] + h3 + seq![':'] + h4 + seq![':'] + h5
                + seq![':'] + h6 + seq![':'] + h7,
            ':',
        ) == seq![h0, h1, h2, h3, h4, h5, h6, h7],
{
    let inner = h0 + seq![':'] + h1 + seq![':'] + h2 + seq![':'] + h3 + seq![':'] + h4 + seq![':']
        + h5 + seq![':'] + h6 + seq![':'] + h7;
    let t1 = h1 + seq![':'] + h2 + seq![':'] + h3 + seq![':'] + h4 + seq![':'] + h5 + seq![':'] + h6
        + seq![':'] + h7;
    let t2 = h2 + seq![':'] + h3 + seq![':'] + h4 + seq![':'] + h5 + seq![':'] + h6 + seq![':']
        + h7;
    let t3 = h3 + seq![':'] + h4 + seq![':'] + h5 + seq![':'] + h6 + seq![':'] + h7;
    let t4 = h4 + seq![':'] + h5 + seq![':'] + h6 + seq![':'] + h7;
    let t5 = h5 + seq![':'] + h6 + seq![':'] + h7;
    let t6 = h6 + seq![':'] + h7;
    assert(inner =~= h0 + seq![':'] + t1);
    assert(t1 =~= h1 + seq![':'] + t2);
    assert(t2 =~= h2 + seq![':'] + t3);
    assert(t3 =~= h3 + seq![':'] + t4);
    assert(t4 =~= h4 + seq![':'] + t5);
    assert(t5 =~= h5 + seq![':'] + t6);
    lemma_split_concat(h0, t1, ':');
    lemma_split_concat(h1, t2, ':');
    lemma_split_concat(h2, t3, ':');
    lemma_split_concat(h3, t4, ':');
    lemma_split_concat(h4, t5, ':');
    lemma_split_concat(h5, t6, ':');
    lemma_split_concat(h6, h7, ':');
    lemma_split_no_sep(h0, ':');
    lemma_split_no_sep(h1, ':');
    lemma_split_no_sep(h2, ':');
    lemma_split_no_sep(h3, ':');
    lemma_split_no_sep(h4, ':');
    lemma_split_no_sep(h5, ':');
    lemma_split_no_sep(h6, ':');
    lemma_split_no_sep(h7, ':');
    assert(split_on(inner, ':') =~= seq![h0, h1, h2, h3, h4, h5, h6, h7]);
}

/// Rendering a socket address and parsing it back gives the address.
pub proof fn lemma_addr_round_trip(a: SockAddr)
    ensures
        spec_parse_sock_addr(spec_addr_str(a)) == Some(a),
{
    match a.ip {
        IpAddress::V4 { .. } => lemma_addr_round_trip_v4(a),
        IpAddress::V6 { .. } => lemma_addr_round_trip_v6(a),
    }
}

proof fn lemma_addr_round_trip_v4(a: SockAddr)
    requires
        a.ip is V4,
    ensures
        spec_parse_sock_addr(spec_addr_str(a)) == Some(a),
{
    reveal(spec_parse_sock_addr);
    let s = spec_addr_str(a);
    let port_s = spec_dec_digits(a.port as nat);
    lemma_dec_digits_are_digits(a.port as nat);
    lemma_dec_digits_val(a.port as nat);
    match a.ip {
        IpAddress::V4 { a: o1, b: o2, c: o3, d: o4 } => {
            let s1 = spec_dec_digits(o1 as nat);
            let s2 = spec_dec_digits(o2 as nat);
            let s3 = spec_dec_digits(o3 as nat);
            let s4 = spec_dec_digits(o4 as nat);
            lemma_dec_digits_are_digits(o1 as nat);
            lemma_dec_digits_are_digits(o2 as nat);
            lemma_dec_digits_are_digits(o3 as nat);
            lemma_dec_digits_are_digits(o4 as nat);
            lemma_dec_digits_val(o1 as nat);
            lemma_dec_digits_val(o2 as nat);
            lemma_dec_digits_val(o3 as nat);
            lemma_dec_digits_val(o4 as nat);
            let ip_s = spec_ip_str(a.ip);
            assert(s[0] == s1[0]);
            assert(is_dec_digit(s[0]));
            assert(s[0] != '[');
            assert(has_no(ip_s, ':'));
            assert(has_no(port_s, ':'));
            assert(s =~= ip_s + seq![':'] + port_s);
            lemma_split_concat(ip_s, port_s, ':');
            lemma_split_no_sep(ip_s, ':');
            lemma_split_no_sep(port_s, ':');
            let parts = split_on(s, ':');
            assert(parts =~= seq![ip_s, port_s]);
            let y2 = s2 + seq!['.'] + s3 + seq!['.'] + s4;
            let y3 = s3 + seq!['.'] + s4;
            assert(ip_s =~= s1 + seq!['.'] + y2);
            assert(y2 =~= s2 + seq!['.'] + y3);
            lemma_split_concat(s1, y2, '.');
            lemma_split_concat(s2, y3, '.');
            lemma_split_concat(s3, s4, '.');
            lemma_split_no_sep(s1, '.');
            lemma_split_no_sep(s2, '.');
            lemma_split_no_sep(s3, '.');
            lemma_split_no_sep(s4, '.');
            let octs = split_on(parts[0], '.');
            assert(octs =~= seq![s1, s2, s3, s4]);
            assert(forall|i: int| 0 <= i < 4 ==> dec_parse_ok(#[trigger] octs[i], 255));
            assert(dec_parse_ok(parts[1], 0xffff));
            assert(spec_parse_sock_addr(s) == Some(a));
        },
        IpAddress::V6 { .. } => {},
    }
}

#[verifier::rlimit(100)]
proof fn lemma_addr_round_trip_v6(a: SockAddr)
    requires
        a.ip is V6,
    ensures
        spec_parse_sock_addr(spec_addr_str(a)) == Some(a),
{
    reveal(spec_parse_sock_addr);
    let s = spec_addr_str(a);
    let port_s = spec_dec_digits(a.port as nat);
    lemma_dec_digits_are_digits(a.port as nat);
    lemma_dec_digits_val(a.port as nat);
    match a.ip {
        IpAddress::V4 { .. } => {},
        IpAddress::V6 { g0, g1, g2, g3, g4, g5, g6, g7 } => {
            let h0 = spec_hex_digits(g0 as nat);
            let h1 = spec_hex_digits(g1 as nat);
            let h2 = spec_hex_digits(g2 as nat);
            let h3 = spec_hex_digits(g3 as nat);
            let h4 = spec_hex_digits(g4 as nat);
            let h5 = spec_hex_digits(g5 as nat);
            let h6 = spec_hex_digits(g6 as nat);
            let h7 = spec_hex_digits(g7 as nat);
            lemma_hex_digits_are_digits(g0 as nat);
            lemma_hex_digits_are_digits(g1 as nat);
            lemma_hex_digits_are_digits(g2 as nat);
            lemma_hex_digits_are_digits(g3 as nat);
            lemma_hex_digits_are_digits(g4 as nat);
            lemma_hex_digits_are_digits(g5 as nat);
            lemma_hex_digits_are_digits(g6 as nat);
            lemma_hex_digits_are_digits(g7 as nat);
            lemma_hex_digits_val(g0 as nat);
            lemma_hex_digits_val(g1 as nat);
            lemma_hex_digits_val(g2 as nat);
            lemma_hex_digits_val(g3 as nat);
            lemma_hex_digits_val(g4 as nat);
            lemma_hex_digits_val(g5 as nat);
            lemma_hex_digits_val(g6 as nat);
            lemma_hex_digits_val(g7 as nat);
            let inner = h0 + seq![':'] + h1 + seq![':'] + h2 + seq![':'] + h3 + seq![':'] + h4
                + seq![':'] + h5 + seq![':'] + h6 + seq![':'] + h7;
            let x = seq!['['] + inner;
            let y = seq![':'] + port_s;
            assert(s[0] == '[');
            assert(has_no(x, ']'));
            assert(has_no(y, ']'));
            assert(s =~= x + seq![']'] + y);
            lemma_split_concat(x, y, ']');
            lemma_split_no_sep(x, ']');
            lemma_split_no_sep(y, ']');
            let parts = split_on(s, ']');
            assert(parts =~= seq![x, y]);
            assert(parts[1][0] == ':');
            assert(parts[0].subrange(1, parts[0].len() as int) =~= inner);
            assert(parts[1].subrange(1, parts[1].len() as int) =~= port_s);
            lemma_v6_inner_split(h0, h1, h2, h3, h4, h5, h6, h7);
            let groups = split_on(inner, ':');
            assert(groups == seq![h0, h1, h2, h3, h4, h5, h6, h7]);
            assert(forall|i: int| 0 <= i < 8 ==> hex_parse_ok(#[trigger] groups[i], 0xffff));
            assert(dec_parse_ok(port_s, 0xffff));
            assert(spec_parse_sock_addr(s) == Some(a));
        },
    }
}


} // verus!
