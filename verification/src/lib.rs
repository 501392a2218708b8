//! Packet processing building blocks: message buffers, protocol headers,
//! checksums and flow state, each with a machine-checked contract.
pub mod packet_batch;
pub mod packets;
pub mod shared_state;
pub mod state;
pub mod testing;
pub mod text;
