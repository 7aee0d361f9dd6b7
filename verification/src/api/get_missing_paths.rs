//! `POST /_api/v1/get-missing-paths`.
use vstd::prelude::*;

use crate::names::{CacheName, StorePathHash};

verus! {

/// Asks which paths a cache lacks.
#[derive(Debug)]
pub struct GetMissingPathsRequest {
    /// The name of the cache.
    pub cache: CacheName,

    /// The list of store path hashes.
    pub store_path_hashes: Vec<StorePathHash>,
}

/// The paths that a cache lacks.
#[derive(Debug)]
pub struct GetMissingPathsResponse {
    /// A list of store path hashes that are not in the cache.
    pub missing_paths: Vec<StorePathHash>,
}

} // verus!
