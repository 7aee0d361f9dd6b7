//! Names of caches, store paths and keypairs.
use vstd::prelude::*;

use crate::hash;

verus! {

/// The name of a binary cache.
#[derive(Debug)]
pub struct CacheName {
    name: String,
}

impl View for CacheName {
    type V = Seq<char>;

    closed spec fn view(&self) -> Seq<char> {
        self.name@
    }
}

impl CacheName {
    /// The cache called `name`.
    pub fn new(name: String) -> (r: CacheName)
        ensures
            r@ == name@,
    {
        CacheName { name }
    }

    /// The name as text.
    pub fn as_str(&self) -> (r: &str)
        ensures
            r@ == self@,
    {
        self.name.as_str()
    }
}

impl Clone for CacheName {
    fn clone(&self) -> (r: Self)
        ensures
            r == *self,
    {
        CacheName { name: self.name.clone() }
    }
}

/// The hash portion of a store path.
#[derive(Debug)]
pub struct StorePathHash {
    hash: String,
}

impl View for StorePathHash {
    type V = Seq<char>;

    closed spec fn view(&self) -> Seq<char> {
        self.hash@
    }
}

impl StorePathHash {
    /// The store path hash written as `hash`.
    pub fn new(hash: String) -> (r: StorePathHash)
        ensures
            r@ == hash@,
    {
        StorePathHash { hash }
    }

    /// The hash as text.
    pub fn as_str(&self) -> (r: &str)
        ensures
            r@ == self@,
    {
        self.hash.as_str()
    }
}

impl Clone for StorePathHash {
    fn clone(&self) -> (r: Self)
        ensures
            r == *self,
    {
        StorePathHash { hash: self.hash.clone() }
    }
}

/// A store path: its base name, as the bytes the file system has, and the hash portion of it.
#[derive(Debug)]
pub struct StorePath {
    pub base_name: Vec<u8>,
    pub hash: StorePathHash,
}

impl View for StorePath {
    type V = (Seq<u8>, Seq<char>);

    open spec fn view(&self) -> (Seq<u8>, Seq<char>) {
        (self.base_name@, self.hash@)
    }
}

impl StorePath {
    /// The hash portion of the path.
    pub fn to_hash(&self) -> (r: StorePathHash)
        ensures
            r == self.hash,
    {
        self.hash.clone()
    }
}

impl Clone for StorePath {
    fn clone(&self) -> (r: Self)
        ensures
            r@ == self@,
            r.hash == self.hash,
    {
        let base_name = self.base_name.clone();
        proof {
            assert(base_name@ =~= self.base_name@);
        }
        StorePath { base_name, hash: self.hash.clone() }
    }
}

/// What the store knows of a valid path.
#[derive(Debug)]
pub struct ValidPathInfo {
    /// The store path.
    pub path: StorePath,

    /// The size of the NAR.
    pub nar_size: u64,

    /// The hash of the NAR.
    pub nar_hash: hash::Hash,

    /// Base names of the paths that this path refers to, as the bytes the file system has.
    pub references: Vec<Vec<u8>>,

    /// Signatures, each with the name of its key before the first colon.
    pub sigs: Vec<String>,

    /// The content-address field.
    pub ca: Option<String>,
}

/// A signing keypair in its exported, textual form.
#[derive(Debug)]
pub struct NixKeypair {
    exported: String,
}

impl View for NixKeypair {
    type V = Seq<char>;

    closed spec fn view(&self) -> Seq<char> {
        self.exported@
    }
}

impl NixKeypair {
    /// The keypair with the given exported form.
    pub fn new(exported: String) -> (r: NixKeypair)
        ensures
            r@ == exported@,
    {
        NixKeypair { exported }
    }

    /// The exported form.
    pub fn as_str(&self) -> (r: &str)
        ensures
            r@ == self@,
    {
        self.exported.as_str()
    }
}

} // verus!
