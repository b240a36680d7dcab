//! What a cluster of workers computes together.

pub mod join;
pub mod assignment;
pub mod block_store;
pub mod data_plane;
pub mod hash_exchange;
pub mod join_rows;
pub mod spread_join;
