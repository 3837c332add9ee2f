//! Bluefin: a user-space, peer-to-peer transport protocol over UDP datagrams.
//!
//! The crate holds the protocol itself: the wire format, the handshake and
//! close state machines, packetisation, reassembly, and the decisions that the
//! asynchronous runtime takes. It does no I/O of its own.
pub mod addr;
pub mod bench;
pub mod connection;
pub mod context;
pub mod endpoint;
pub mod error;
pub mod handshake;
pub mod net;
pub mod shared_bytes;
pub mod socket;
pub mod text;
pub mod tool;
pub mod utils;
pub mod wire;
pub mod worker;
