//! The data that clients and servers exchange.

pub mod cache_config;
pub mod get_missing_chunks;
pub mod get_missing_paths;
pub mod upload_path;
