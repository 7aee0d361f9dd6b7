//! State of the server and of requests.
use axum::http::uri::Scheme;
use axum::http::Uri;
use vstd::prelude::*;

use crate::key_map::KeyMap;
use crate::names::CacheName;
use crate::server::error::ErrorKind;
use crate::server::middleware::RequestId;
use crate::server::ttl_cache::{after_lookup, hits, TtlCache};
use crate::text::{concat2, starts_with};

verus! {

/// Maximum number of parsed keypairs that are kept.
///
/// They are kept for speed only and never expire on their own, so they are dropped outright once
/// there are this many, to bound memory use in deployments where keypairs rotate frequently.
pub const MAX_PARSED_KEYPAIRS: usize = 256;

/// Cached metadata of caches, the rows `M` of the database, by the name of the cache.
#[derive(Debug)]
pub struct CacheMetadata<M> {
    ttl: u128,
    cache: TtlCache<CacheName, M>,
}

/// What comes of looking for a cache.
#[derive(Debug)]
pub enum CacheLookup<M> {
    /// It was found.
    Found(M),

    /// The database has to be asked.
    AskDatabase,
}

impl<M> CacheMetadata<M> {
    /// How long metadata stays in the cache, in nanoseconds; zero if it is never kept.
    pub closed spec fn spec_ttl(&self) -> u128 {
        self.ttl
    }

    /// For each name, when the metadata was fetched, and the metadata.
    pub closed spec fn entries(&self) -> Map<Seq<char>, (u128, M)> {
        self.cache@
    }

    /// `now` is what the clock can show, in nanoseconds since this cache was made.
    pub closed spec fn is_reading(&self, now: u128) -> bool {
        self.cache.is_reading(now)
    }

    /// The times of `other` count from when this cache was made, too, and metadata stays as long.
    pub closed spec fn same_settings(&self, other: &CacheMetadata<M>) -> bool {
        self.ttl == other.ttl && self.cache.same_clock(&other.cache)
    }

    /// Nothing is cached yet.
    pub fn new(ttl: u128) -> (r: CacheMetadata<M>)
        ensures
            r.spec_ttl() == ttl,
            r.entries() == Map::<Seq<char>, (u128, M)>::empty(),
    {
        CacheMetadata { ttl, cache: TtlCache::new() }
    }

    /// Looks for the metadata of a cache, with an explicit "current time".
    pub fn find_cache_at(&mut self, cache_name: &CacheName, now: u128) -> (r: CacheLookup<
        M,
    >) where M: Clone
        ensures
            final(self).spec_ttl() == old(self).spec_ttl(),
            final(self).same_settings(old(self)),
            r is Found <==> old(self).spec_ttl() != 0 && hits(
                old(self).entries(),
                cache_name@,
                old(self).spec_ttl(),
                now,
            ),
            r matches CacheLookup::Found(found) ==> cloned(
                old(self).entries()[cache_name@].1,
                found,
            ),
            final(self).entries() == (if old(self).spec_ttl() == 0 {
                old(self).entries()
            } else {
                after_lookup(old(self).entries(), cache_name@, old(self).spec_ttl(), now)
            }),
    {
        if self.ttl == 0 {
            return CacheLookup::AskDatabase;
        }
        match self.cache.get_at(cache_name, self.ttl, now) {
            Some(found) => CacheLookup::Found(found),
            None => CacheLookup::AskDatabase,
        }
    }

    /// Looks for the metadata of a cache.
    pub fn find_cache_cached(&mut self, cache_name: &CacheName) -> (r: CacheLookup<
        M,
    >) where M: Clone
        ensures
            final(self).spec_ttl() == old(self).spec_ttl(),
            final(self).same_settings(old(self)),
            old(self).spec_ttl() == 0 ==> r is AskDatabase && final(self).entries() == old(
                self,
            ).entries(),
            old(self).spec_ttl() != 0 ==> exists|now: u128|
                #![trigger after_lookup(old(self).entries(), cache_name@, old(self).spec_ttl(), now)]
                {
                    &&& old(self).is_reading(now)
                    &&& r is Found <==> hits(
                        old(self).entries(),
                        cache_name@,
                        old(self).spec_ttl(),
                        now,
                    )
                    &&& final(self).entries() == after_lookup(
                        old(self).entries(),
                        cache_name@,
                        old(self).spec_ttl(),
                        now,
                    )
                },
            r matches CacheLookup::Found(found) ==> cloned(
                old(self).entries()[cache_name@].1,
                found,
            ),
    {
        if self.ttl == 0 {
            return CacheLookup::AskDatabase;
        }
        let now: u128 = self.cache.now();
        self.find_cache_at(cache_name, now)
    }

    /// Takes in what the database answered: metadata is cached, unless caching is off. An error,
    /// such as that there is no such cache, is never cached.
    pub fn database_answered(
        &mut self,
        cache_name: &CacheName,
        answer: Result<M, ErrorKind>,
    ) -> (r: Result<M, ErrorKind>) where M: Clone
        ensures
            r == answer,
            final(self).spec_ttl() == old(self).spec_ttl(),
            final(self).same_settings(old(self)),
            match answer {
                Ok(metadata) => if old(self).spec_ttl() == 0 {
                    final(self).entries() == old(self).entries()
                } else {
                    exists|now: u128, copy: M|
                        old(self).is_reading(now) && cloned(metadata, copy) && final(self).entries()
                            == #[trigger] old(self).entries().insert(cache_name@, (now, copy))
                },
                Err(error) => final(self).entries() == old(self).entries(),
            },
    {
        match answer {
            Ok(metadata) => {
                if self.ttl != 0 {
                    let copy = metadata.clone();
                    let ghost before = self.cache@;
                    self.cache.insert(cache_name.clone(), copy);
                    proof {
                        let now = choose|now: u128|
                            old(self).cache.is_reading(now) && self.cache@ == #[trigger] before.insert(cache_name@, (now, copy));
                        assert(self.entries() == old(self).entries().insert(
                            cache_name@,
                            (now, copy),
                        ));
                    }
                }
                Ok(metadata)
            },
            Err(error) => Err(error),
        }
    }

    /// Evicts any cached metadata for `cache_name`.
    ///
    /// Called after any mutation (create/configure/destroy) so that changes made through this
    /// server instance are visible immediately, even though other replicas may still observe the
    /// old data for a while.
    pub fn invalidate_cache_metadata(&mut self, cache_name: &CacheName)
        ensures
            final(self).spec_ttl() == old(self).spec_ttl(),
            final(self).same_settings(old(self)),
            final(self).entries() == old(self).entries().remove(cache_name@),
    {
        self.cache.invalidate(cache_name);
    }
}

/// Parsed keypairs `P`, by the full text of the keypair.
///
/// They are found by content rather than by the cache they belong to, so a rotated keypair is
/// guaranteed to get an entry of its own: there's no invalidation to forget, and no risk of ever
/// handing out a stale keypair.
#[derive(Debug)]
pub struct ParsedKeypairs<P> {
    keypairs: KeyMap<String, P>,
}

/// What is kept after `parsed` has been added as the parse of `keypair`.
pub open spec fn after_parse<P>(
    kept: Map<Seq<char>, P>,
    keypair: Seq<char>,
    parsed: P,
) -> Map<Seq<char>, P> {
    if kept.dom().len() >= MAX_PARSED_KEYPAIRS {
        Map::empty().insert(keypair, parsed)
    } else {
        kept.insert(keypair, parsed)
    }
}

impl<P> View for ParsedKeypairs<P> {
    type V = Map<Seq<char>, P>;

    closed spec fn view(&self) -> Map<Seq<char>, P> {
        self.keypairs@
    }
}

impl<P> ParsedKeypairs<P> {
    /// Nothing is kept yet.
    pub fn new() -> (r: ParsedKeypairs<P>)
        ensures
            r@ == Map::<Seq<char>, P>::empty(),
    {
        ParsedKeypairs { keypairs: KeyMap::new() }
    }

    /// The parse of `keypair`, if it is kept.
    pub fn get(&self, keypair: &String) -> (r: Option<&P>)
        ensures
            match r {
                Some(parsed) => self@.contains_key(keypair@) && *parsed == self@[keypair@],
                None => !self@.contains_key(keypair@),
            },
    {
        self.keypairs.get(keypair)
    }

    /// Keeps `parsed` as the parse of `keypair`. If too many are kept, all others are dropped.
    pub fn insert(&mut self, keypair: &String, parsed: P)
        ensures
            final(self)@ == after_parse(old(self)@, keypair@, parsed),
    {
        if self.keypairs.len() >= MAX_PARSED_KEYPAIRS {
            self.keypairs.clear();
        }
        self.keypairs.insert(keypair.clone(), parsed);
    }

    /// Takes in what came of parsing `keypair`: a parse is kept and handed back, a failure is handed
    /// back and not kept.
    pub fn parsed(&mut self, keypair: &String, result: Result<P, ErrorKind>) -> (r: Result<
        P,
        ErrorKind,
    >) where P: Clone
        ensures
            r == result,
            match result {
                Ok(parsed) => exists|copy: P|
                    cloned(parsed, copy) && final(self)@ == #[trigger] after_parse(
                        old(self)@,
                        keypair@,
                        copy,
                    ),
                Err(error) => final(self)@ == old(self)@,
            },
    {
        match result {
            Ok(parsed) => {
                let copy = parsed.clone();
                self.insert(keypair, copy);
                Ok(parsed)
            },
            Err(error) => Err(error),
        }
    }
}

/// However often it is added to, the memory of parsed keypairs never holds more than
/// `MAX_PARSED_KEYPAIRS`, and never anything but the parse of a text under that text.
pub proof fn law_parsed_keypairs_are_bounded_and_never_stale<P>(
    kept: Map<Seq<char>, P>,
    parse: spec_fn(Seq<char>) -> P,
    keypair: Seq<char>,
)
    requires
        kept.dom().finite(),
        kept.dom().len() <= MAX_PARSED_KEYPAIRS,
        forall|k: Seq<char>| #[trigger] kept.contains_key(k) ==> kept[k] == parse(k),
    ensures
        ({
            let after = after_parse(kept, keypair, parse(keypair));
            &&& after.dom().finite()
            &&& after.dom().len() <= MAX_PARSED_KEYPAIRS
            &&& after.contains_key(keypair)
            &&& forall|k: Seq<char>| #[trigger] after.contains_key(k) ==> after[k] == parse(k)
        }),
{
    let parsed = parse(keypair);
    assert(kept.insert(keypair, parsed).dom() =~= kept.dom().insert(keypair));
    assert(Map::<Seq<char>, P>::empty().insert(keypair, parsed).dom() =~= Set::empty().insert(
        keypair,
    ));
}

/// Request state.
#[derive(Debug)]
pub struct RequestState {
    /// Request identifier returned to the client and written to the log.
    pub request_id: RequestId,

    /// The canonical API endpoint.
    pub api_endpoint: Option<String>,

    /// The canonical substituter endpoint.
    pub substituter_endpoint: Option<String>,

    /// The potentially-invalid `Host` header supplied by the client.
    pub host: String,

    /// Whether the client claims the connection is HTTPS or not.
    pub client_claims_https: bool,

    /// Whether the cache the client's interacting with is public.
    ///
    /// This is purely informational and used to add the `X-Attic-Cache-Visibility` header in
    /// responses.
    pub public_cache: bool,
}

/// What is wrong with `host` as the authority of a URI; `None` if it can be one.
pub uninterp spec fn authority_error(host: Seq<char>) -> Option<Seq<char>>;

/// `Uri::builder` with a scheme, the authority `host` and a path, which is `/`: the text of that URI,
/// or what is wrong with the authority. Whether something is, and what, depends on the authority
/// alone.
#[verifier::external_body]
fn build_uri(https: bool, host: &str, path: &str) -> (r: Result<String, String>)
    requires
        path@ == "/"@,
    ensures
        match r {
            Ok(uri) => authority_error(host@) is None && uri@ == (if https {
                "https://"@
            } else {
                "http://"@
            }) + host@ + path@,
            Err(message) => authority_error(host@) == Some(message@),
        },
{
    let scheme = if https { Scheme::HTTPS } else { Scheme::HTTP };
    let builder = Uri::builder().scheme(scheme).authority(host).path_and_query(path);
    builder.build().map(|uri| uri.to_string()).map_err(|error| error.to_string())
}

/// The result is the base API endpoint of a request: the configured one, or one made from the
/// client's `Host` header.
pub open spec fn is_api_endpoint(r: Result<String, ErrorKind>, state: RequestState) -> bool {
    match state.api_endpoint {
        Some(endpoint) => r matches Ok(text) && text@ == endpoint@,
        None => match r {
            Ok(text) => authority_error(state.host@) is None && text@ == (
            if state.client_claims_https {
                "https://"@
            } else {
                "http://"@
            }) + state.host@ + "/"@,
            Err(ErrorKind::RequestError(message)) => authority_error(state.host@) == Some(message@),
            Err(error) => false,
        },
    }
}

impl RequestState {
    /// Returns the base API endpoint for clients.
    ///
    /// The APIs encompass both the Attic API and the Nix binary cache API. Unless one is configured,
    /// it is naively made from the client's `Host` header, which shouldn't be used in production.
    pub fn api_endpoint(&self) -> (r: Result<String, ErrorKind>)
        ensures
            is_api_endpoint(r, *self),
    {
        match &self.api_endpoint {
            Some(endpoint) => Ok(endpoint.clone()),
            None => match build_uri(self.client_claims_https, self.host.as_str(), "/") {
                Ok(uri) => Ok(uri),
                Err(message) => Err(ErrorKind::RequestError(message)),
            },
        }
    }

    /// Returns the Nix binary cache endpoint for clients.
    ///
    /// The binary cache endpoint may live on another host than the canonical API endpoint.
    pub fn substituter_endpoint(&self, cache: &CacheName) -> (r: Result<String, ErrorKind>)
        ensures
            match (self.substituter_endpoint, r) {
                (Some(endpoint), Ok(text)) => text@ == endpoint@ + cache@,
                (Some(endpoint), Err(error)) => false,
                (None, Ok(text)) => exists|base: String| #[trigger]
                    is_api_endpoint(Ok(base), *self) && text@ == base@ + cache@,
                (None, Err(error)) => is_api_endpoint(Err(error), *self),
            },
    {
        match &self.substituter_endpoint {
            Some(endpoint) => Ok(concat2(endpoint.as_str(), cache.as_str())),
            None => match self.api_endpoint() {
                Ok(base) => Ok(concat2(base.as_str(), cache.as_str())),
                Err(error) => Err(error),
            },
        }
    }

    /// Indicates whether the cache the client is interacting with is public.
    pub fn set_public_cache(&mut self, public: bool)
        ensures
            *final(self) == (RequestState { public_cache: public, ..*old(self) }),
    {
        self.public_cache = public;
    }
}

/// Database configuration.
#[derive(Debug)]
pub struct DatabaseConfig {
    /// Connection URL.
    pub url: String,

    /// Whether to enable sending of periodic heartbeat queries.
    pub heartbeat: bool,

    /// Maximum number of pooled connections.
    pub max_connections: Option<u32>,

    /// Minimum number of pooled connections.
    pub min_connections: Option<u32>,

    /// How long a pooled connection may be idle, in nanoseconds.
    pub idle_timeout: Option<u128>,

    /// How long to wait for a lock on an SQLite database, in nanoseconds.
    pub busy_timeout: u128,

    /// How much of an SQLite database is mapped into memory, in bytes.
    pub mmap_size: u64,
}

/// Seconds between heartbeat queries.
pub const HEARTBEAT_SECONDS: u64 = 60;

impl DatabaseConfig {
    /// Whether the database is an SQLite database, to be connected to with tuned options.
    pub fn is_sqlite(&self) -> (r: bool)
        ensures
            r == "sqlite:"@.is_prefix_of(self.url@),
    {
        starts_with(self.url.as_str(), "sqlite:")
    }

    /// The configuration with which migrations run.
    ///
    /// Migrations must run on a single connection: consecutive statements on different pooled
    /// connections can observe stale schema state.
    pub fn for_migrations(self) -> (r: DatabaseConfig)
        ensures
            r == (DatabaseConfig { max_connections: Some(1), min_connections: None, ..self }),
    {
        DatabaseConfig { max_connections: Some(1), min_connections: None, ..self }
    }
}

/// Metadata is found as long as it was fetched less than the cache's time to live ago, which is never
/// if that is zero. What is found is a clone of what was fetched. A lookup takes away nothing but what
/// is stale under the name.
pub proof fn law_metadata_is_found_while_it_is_fresh<M: Clone>(
    metadata: &mut CacheMetadata<M>,
    name: &CacheName,
    now: u128,
    r: CacheLookup<M>,
)
    requires
        call_ensures(CacheMetadata::<M>::find_cache_at, (metadata, name, now), r),
    ensures
        ({
            let before = old(metadata).entries();
            let after = final(metadata).entries();
            let ttl = old(metadata).spec_ttl();
            &&& final(metadata).spec_ttl() == ttl
            &&& r is Found <==> before.contains_key(name@) && ttl > 0 && now < before[name@].0 + ttl
            &&& r matches CacheLookup::Found(found) ==> cloned(before[name@].1, found)
            &&& r is Found || ttl == 0 ==> after == before
            &&& r is AskDatabase && ttl > 0 ==> after == before.remove(name@)
        }),
{
    if r is AskDatabase && old(metadata).spec_ttl() > 0 {
        assert(final(metadata).entries() =~= old(metadata).entries().remove(name@));
    }
}

/// What the database answered is handed on. Metadata is kept under the name, and nothing else changes;
/// an error changes nothing, nor does anything if caching is off.
pub proof fn law_answers_are_kept_and_errors_are_not<M: Clone>(
    metadata: &mut CacheMetadata<M>,
    name: &CacheName,
    answer: Result<M, ErrorKind>,
    r: Result<M, ErrorKind>,
)
    requires
        call_ensures(CacheMetadata::<M>::database_answered, (metadata, name, answer), r),
    ensures
        r == answer,
        final(metadata).spec_ttl() == old(metadata).spec_ttl(),
        answer is Err || old(metadata).spec_ttl() == 0 ==> final(metadata).entries() == old(
            metadata,
        ).entries(),
        answer is Ok && old(metadata).spec_ttl() > 0 ==> {
            let after = final(metadata).entries();
            &&& after.contains_key(name@)
            &&& cloned(answer->Ok_0, after[name@].1)
            &&& old(metadata).is_reading(after[name@].0)
            &&& after.remove(name@) =~= old(metadata).entries().remove(name@)
        },
{
}

/// After metadata was invalidated the database is asked, whatever the time. Other metadata stays.
pub proof fn law_database_is_asked_after_an_invalidation<M: Clone>(
    metadata: &mut CacheMetadata<M>,
    name: &CacheName,
    after: &mut CacheMetadata<M>,
    now: u128,
    r: CacheLookup<M>,
)
    requires
        call_ensures(CacheMetadata::<M>::invalidate_cache_metadata, (metadata, name), ()),
        *old(after) == *final(metadata),
        call_ensures(CacheMetadata::<M>::find_cache_at, (after, name, now), r),
    ensures
        r is AskDatabase,
        forall|other: Seq<char>|
            other != name@ ==> (#[trigger] final(metadata).entries().contains_key(other) <==> old(
                metadata,
            ).entries().contains_key(other)) && (final(metadata).entries().contains_key(other)
                ==> final(metadata).entries()[other] == old(metadata).entries()[other]),
{
}

/// The parse of a keypair is found under the keypair's text once it was added. The others stay unless
/// there are 256 of them already, and are dropped then.
pub proof fn law_parses_are_found_again<P>(
    keypairs: &mut ParsedKeypairs<P>,
    keypair: &String,
    parsed: P,
    after: &ParsedKeypairs<P>,
    other: &String,
    r: Option<&P>,
)
    requires
        call_ensures(ParsedKeypairs::<P>::insert, (keypairs, keypair, parsed), ()),
        *after == *final(keypairs),
        call_ensures(ParsedKeypairs::<P>::get, (after, other), r),
    ensures
        other@ == keypair@ ==> (r matches Some(found) && *found == parsed),
        other@ != keypair@ && old(keypairs)@.dom().len() < 256 ==> (r is Some <==> old(
            keypairs,
        )@.contains_key(other@)) && (r matches Some(found) ==> *found == old(keypairs)@[other@]),
        other@ != keypair@ && old(keypairs)@.dom().len() >= 256 ==> r is None,
{
}

/// What came of parsing is handed on. A parse is kept as if it had been added, a failure is not.
pub proof fn law_only_parses_are_kept<P: Clone>(
    keypairs: &mut ParsedKeypairs<P>,
    keypair: &String,
    result: Result<P, ErrorKind>,
    r: Result<P, ErrorKind>,
    other: Seq<char>,
)
    requires
        call_ensures(ParsedKeypairs::<P>::parsed, (keypairs, keypair, result), r),
    ensures
        r == result,
        result is Err ==> final(keypairs)@ == old(keypairs)@,
        result matches Ok(parsed) ==> {
            let before = old(keypairs)@;
            let after = final(keypairs)@;
            &&& after.contains_key(keypair@)
            &&& cloned(parsed, after[keypair@])
            &&& other != keypair@ ==> {
                &&& after.contains_key(other) <==> before.contains_key(other) && before.dom().len()
                    < 256
                &&& after.contains_key(other) ==> after[other] == before[other]
            }
        },
{
}

/// The endpoint is the configured one. Without one it is made of the client's `Host` header, with the
/// scheme that the client claims, if the header can be the authority of a URI.
pub proof fn law_configured_endpoints_come_first(
    state: &RequestState,
    cache: &CacheName,
    api: Result<String, ErrorKind>,
    substituter: Result<String, ErrorKind>,
)
    requires
        call_ensures(RequestState::api_endpoint, (state,), api),
        call_ensures(RequestState::substituter_endpoint, (state, cache), substituter),
    ensures
        state.api_endpoint matches Some(endpoint) ==> (api matches Ok(text) && text@ == endpoint@),
        state.api_endpoint is None ==> {
            &&& api is Ok <==> authority_error(state.host@) is None
            &&& api matches Ok(text) ==> text@ == (if state.client_claims_https {
                "https://"@ + state.host@ + "/"@
            } else {
                "http://"@ + state.host@ + "/"@
            })
        },
        state.substituter_endpoint matches Some(endpoint) ==> (substituter matches Ok(text) && text@
            == endpoint@ + cache@),
        state.substituter_endpoint is None ==> {
            &&& substituter is Ok <==> api is Ok
            &&& substituter matches Ok(text) ==> text@ == api->Ok_0@ + cache@
        },
{
}

/// Migrations run against the same database, on one connection.
pub proof fn law_migrations_run_on_one_connection(
    config: DatabaseConfig,
    r: DatabaseConfig,
    sqlite: bool,
)
    requires
        call_ensures(DatabaseConfig::for_migrations, (config,), r),
        call_ensures(DatabaseConfig::is_sqlite, (&r,), sqlite),
    ensures
        r.max_connections == Some(1u32),
        r.min_connections is None,
        r.url@ == config.url@,
        r.heartbeat == config.heartbeat,
        r.idle_timeout == config.idle_timeout,
        r.busy_timeout == config.busy_timeout,
        r.mmap_size == config.mmap_size,
        sqlite <==> config.url@.len() >= 7 && config.url@.take(7) == "sqlite:"@,
{
    reveal_strlit("sqlite:");
    assert(config.url@.take(7) == config.url@.subrange(0, 7));
}

/// A lookup by the clock finds metadata that is fresh at the time that the clock shows, and asks the
/// database otherwise.
pub proof fn law_metadata_lookups_go_by_the_clock<M: Clone>(
    metadata: &mut CacheMetadata<M>,
    name: &CacheName,
    r: CacheLookup<M>,
)
    requires
        call_ensures(CacheMetadata::<M>::find_cache_cached, (metadata, name), r),
    ensures
        ({
            let before = old(metadata).entries();
            let ttl = old(metadata).spec_ttl();
            &&& ttl == 0 ==> r is AskDatabase && final(metadata).entries() == before
            &&& ttl > 0 ==> exists|now: u128| #[trigger]
                old(metadata).is_reading(now) && (r is Found <==> before.contains_key(name@) && now
                    < before[name@].0 + ttl)
            &&& r matches CacheLookup::Found(found) ==> cloned(before[name@].1, found)
        }),
{
    let before = old(metadata).entries();
    let ttl = old(metadata).spec_ttl();
    if ttl > 0 {
        let now = choose|now: u128|
            #![trigger after_lookup(before, name@, ttl, now)]
            {
                &&& old(metadata).is_reading(now)
                &&& r is Found <==> hits(before, name@, ttl, now)
                &&& final(metadata).entries() == after_lookup(before, name@, ttl, now)
            };
        assert(old(metadata).is_reading(now));
    }
}

} // verus!
