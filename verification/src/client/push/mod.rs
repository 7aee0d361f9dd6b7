//! Store path uploader.
pub mod negotiation;
pub mod plan;
pub mod session;
pub mod stream;
pub mod upload;
