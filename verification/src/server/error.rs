//! Errors of the server.
use vstd::prelude::*;

verus! {

/// The kind of an error.
#[derive(Debug)]
pub enum ErrorKind {
    /// The URL you requested was not found.
    NotFound,

    /// Unauthorized.
    Unauthorized,

    /// The identity is known and may not do this.
    Forbidden,

    /// A service that the server depends on is unavailable.
    ServiceUnavailable,

    /// The requested cache does not exist.
    NoSuchCache,

    /// The requested NAR has missing chunks and needs to be repaired.
    IncompleteNar,

    /// General request error.
    RequestError(String),

    /// Storage error.
    StorageError(String),

    /// Invalid keypair.
    InvalidKeypair(String),
}

} // verus!
