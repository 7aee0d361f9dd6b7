//! `POST /_api/v1/get-missing-chunks`, which requires "push" permission.
use vstd::prelude::*;

use crate::hash;
use crate::names::CacheName;

verus! {

/// Asks which chunks a cache lacks.
#[derive(Debug)]
pub struct GetMissingChunksRequest {
    /// The name of the cache.
    pub cache: CacheName,

    /// The list of chunk hashes.
    pub chunk_hashes: Vec<hash::Hash>,
}

/// The chunks that a cache lacks.
#[derive(Debug)]
pub struct GetMissingChunksResponse {
    /// A list of chunk hashes that are not in the cache.
    pub missing_chunks: Vec<hash::Hash>,
}

} // verus!
