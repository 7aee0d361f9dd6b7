//! Endpoints.
pub mod binary_cache;
pub mod get_missing_chunks;
pub mod oidc;
