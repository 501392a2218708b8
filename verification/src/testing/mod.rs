//! Utilities for writing tests: the settable fields of generated packets.
pub mod packet;
