//! A structured stream transport: many ordered, flow-controlled, optionally
//! record-delimited byte streams, nested to any depth, multiplexed over one
//! unreliable datagram channel between two identified hosts.
//!
//! The crate holds the packet framing codec and the multiplexing engine. It
//! performs no socket I/O and no cryptography: datagrams and verified peer
//! identities are handed in by the caller, and encoded bytes are handed back.
//!
//! From the wire upwards:
//!
//! - [`framing`] reads and writes what stands in a datagram: the packet
//!   header with its variable-width sequence number, and the frames behind
//!   it.
//! - [`queue`] keeps bytes and record boundaries in order.
//! - [`stream`] is one stream: its state machine, buffers and windows.
//! - [`arena`] and [`schedule`] say what holds of the streams of a peer
//!   taken together: how they hang together, and which is served next.
//! - [`peer`] owns the streams of one peer.
//! - [`server`] and [`host`] own the sessions of all peers and the pairs of
//!   names that the application listens on.
//!
//! Everything runs on the caller's thread. Nothing blocks and nothing is
//! called back: what the application should hear of is queued for it to
//! poll.

pub mod framing;
pub mod queue;
pub mod stream;
pub mod arena;
pub mod schedule;
pub mod peer;
pub mod server;
pub mod host;
