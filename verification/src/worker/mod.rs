//! What the reader and writer tasks of a connection decide and compute.
pub mod ack;
pub mod acknowledging;
pub mod arrival;
pub mod channel;
pub mod conn_reader;
pub mod end_of_stream;
pub mod flush;
pub mod handle;
pub mod packing;
pub mod pending;
pub mod pump;
pub mod reader;
pub mod writer;
