//! Verified core of a key-value storage cluster: configuration defaults,
//! quadkey and hash routing, the write-coalescing buffer, log buffering,
//! process supervision policy and the text formatting these rely on.

pub mod error;
pub mod text;
pub mod config;
pub mod meta;
pub mod write_buffer;
pub mod hashing;
pub mod listing;
pub mod store;
pub mod master;
pub mod guardian;
pub mod health;
pub mod quad_shard;
pub mod logger;
pub mod shard;
pub mod worker;
pub mod startup;
pub mod wire;
pub mod api;
pub mod log_intake;
pub mod meta_stats;
pub mod pending;
pub mod transfer;
pub mod broadcast;
