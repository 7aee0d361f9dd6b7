//! The server: state, endpoints and storage.
pub mod api;
pub mod compression;
pub mod error;
pub mod middleware;
pub mod migration;
pub mod state;
pub mod storage;
pub mod ttl_cache;
