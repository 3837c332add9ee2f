//! Utilities.
pub mod cpu_affinity;
pub mod ring_buffer;
