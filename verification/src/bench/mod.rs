//! The benchmark of the protocol: its settings, how its client paces itself, and
//! what its server counts.
pub mod client;
pub mod server;
pub mod settings;
