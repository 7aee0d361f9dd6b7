//! The verified core of the Attic binary cache.

pub mod api;
pub mod byte_buf;
pub mod client;
pub mod encoding;
pub mod hash;
pub mod json;
pub mod key_map;
pub mod names;
pub mod server;
pub mod text;
pub mod urls;
