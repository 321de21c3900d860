//! UDP NAT hole punching, verified: the textual rendezvous protocol
//! between clients and a rendezvous server, the server's registry and
//! punch-coordination rules, the client-side connection state machine
//! driven by inbound datagrams, and the traversal statistics. Sockets,
//! threads and clocks stay with the caller: the library takes plain
//! values (datagram text, sender addresses, the time in milliseconds)
//! and returns the replies to send and the actions to perform.

pub mod addr;
pub mod num;
pub mod protocol;
pub mod server;
pub mod session;
pub mod stats;
pub mod text;
