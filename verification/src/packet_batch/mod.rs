//! Batches of packets and the iteration over them.
pub mod iterator;
pub mod packet_batch;
