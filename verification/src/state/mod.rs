//! Per-connection state: ordered byte storage for reassembling streams.
pub mod mergeable;
pub mod reordered_buffer;
pub mod ring_buffer;
pub mod tcp_window;
