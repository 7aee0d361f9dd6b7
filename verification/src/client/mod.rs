//! The client: talking to a server, logging in and pushing store paths.
pub mod api;
pub mod error;
pub mod oidc;
pub mod push;
