//! Cache configuration endpoint.
use vstd::prelude::*;

use crate::names::{CacheName, NixKeypair};

verus! {

/// List of caches discoverable by the caller.
#[derive(Debug)]
pub struct ListCachesResponse {
    /// Cache names, sorted lexicographically.
    pub caches: Vec<CacheName>,
}

/// A request to create a cache.
#[derive(Debug)]
pub struct CreateCacheRequest {
    /// The keypair of the cache.
    pub keypair: KeypairConfig,

    /// Whether the cache is public or not.
    ///
    /// Anonymous clients are implicitly granted the "pull" permission to public caches.
    pub is_public: bool,

    /// The Nix store path this binary cache uses, usually `/nix/store`.
    pub store_dir: String,

    /// The priority of the binary cache. A lower number denotes a higher priority.
    pub priority: i32,

    /// A list of signing key names of upstream caches.
    ///
    /// The list serves as a hint to clients to avoid uploading store paths signed with such keys.
    pub upstream_cache_key_names: Vec<String>,
}

/// Configuration of a cache.
///
/// `None` means using the default value or keeping the current value.
#[derive(Debug)]
pub struct CacheConfig {
    /// The keypair of the cache: never returned by the server, but configurable by the client.
    pub keypair: Option<KeypairConfig>,

    /// The Nix binary cache endpoint, to be added to `nix.conf`. Read-only.
    pub substituter_endpoint: Option<String>,

    /// The Attic API endpoint. Read-only.
    pub api_endpoint: Option<String>,

    /// The public key of the cache, in the canonical format used by Nix. Read-only.
    pub public_key: Option<String>,

    /// Whether the cache is public or not.
    pub is_public: Option<bool>,

    /// The Nix store path this binary cache uses.
    pub store_dir: Option<String>,

    /// The priority of the binary cache. A lower number denotes a higher priority.
    pub priority: Option<i32>,

    /// A list of signing key names of upstream caches.
    pub upstream_cache_key_names: Option<Vec<String>>,

    /// The retention period of the cache.
    pub retention_period: Option<RetentionPeriodConfig>,

    /// The chunking parameters advertised by the server. Read-only.
    ///
    /// Its presence also signals that the server supports chunk-level dedup negotiation. It is
    /// absent when chunking is disabled on the server, or when the server requires proof of
    /// possession of uploaded data.
    pub chunking: Option<ChunkingParameters>,
}

/// Chunking parameters used by the server.
#[derive(Clone, Copy, Debug)]
pub struct ChunkingParameters {
    /// The minimum NAR size to trigger chunking.
    pub nar_size_threshold: usize,

    /// The preferred minimum size of a chunk, in bytes.
    pub min_size: usize,

    /// The preferred average size of a chunk, in bytes.
    pub avg_size: usize,

    /// The preferred maximum size of a chunk, in bytes.
    pub max_size: usize,
}

/// Configuration of a keypair.
#[derive(Debug)]
pub enum KeypairConfig {
    /// Use a randomly-generated keypair.
    Generate,

    /// Use a client-specified keypair.
    Keypair(NixKeypair),
}

/// Configuration of retention period.
#[derive(Clone, Copy, Debug)]
pub enum RetentionPeriodConfig {
    /// Use the global default.
    Global,

    /// Specify a retention period in seconds. If 0, time-based garbage collection is disabled.
    Period(u32),
}

impl CacheConfig {
    /// A configuration that sets nothing.
    pub fn blank() -> (r: CacheConfig)
        ensures
            r.keypair is None,
            r.substituter_endpoint is None,
            r.api_endpoint is None,
            r.public_key is None,
            r.is_public is None,
            r.store_dir is None,
            r.priority is None,
            r.upstream_cache_key_names is None,
            r.retention_period is None,
            r.chunking is None,
    {
        CacheConfig {
            keypair: None,
            substituter_endpoint: None,
            api_endpoint: None,
            public_key: None,
            is_public: None,
            store_dir: None,
            priority: None,
            upstream_cache_key_names: None,
            retention_period: None,
            chunking: None,
        }
    }
}

} // verus!
