//! Per-connection state machines that do no I/O.
pub mod close;
