//! A netcat-like tool for the protocol: what it reads from its command line, what
//! it tells of a connection, and how it pipes between a terminal and a
//! connection.
pub mod args;
pub mod dump;
pub mod pipe;
