//! Internet control messages.
pub mod v6;
