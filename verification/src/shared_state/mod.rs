//! Shareable data structures.
pub mod directory;
