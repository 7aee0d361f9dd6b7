//! Storage of files.
use vstd::prelude::*;

use crate::server::storage::s3::S3RemoteFile;

pub mod s3;

verus! {

/// Reference to a file in the local storage.
#[derive(Debug)]
pub struct LocalRemoteFile {
    /// Name of the file.
    pub name: String,
}

/// Reference to a location where a NAR is stored.
#[derive(Debug)]
pub enum RemoteFile {
    /// A file in the local storage.
    Local(LocalRemoteFile),

    /// A file in an S3-compatible storage bucket.
    S3(S3RemoteFile),
}

/// How a file is handed out.
#[derive(Clone, Copy, Debug, PartialEq, Eq, Structural)]
pub enum DownloadKind {
    /// By a URL that can be fetched for a while.
    Url {
        /// For how long, in seconds.
        expires_in_seconds: u64,
    },

    /// As a stream.
    AsyncRead,
}

} // verus!
