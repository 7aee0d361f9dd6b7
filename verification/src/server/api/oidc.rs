//! OIDC token exchange.
use std::time::Duration;

use chrono::TimeDelta;
use vstd::prelude::*;

use crate::client::api::OidcProviderMode;
use crate::encoding::{base64_decode, base64_decoded};
use crate::json::{member, parsed_json, text_member, Json, JsonView};
use crate::key_map::KeyMap;
use crate::server::error::ErrorKind;
use crate::text::{concat3, find_char, split_once, text_eq};

verus! {

/// A trusted issuer of ID tokens.
#[derive(Debug)]
pub struct OidcProviderConfig {
    pub name: String,
    pub display_name: Option<String>,
    pub mode: OidcProviderMode,
    pub issuer: String,
    pub audience: String,
    pub jwks_url: String,
    pub authorization_endpoint: Option<String>,
    pub token_endpoint: Option<String>,
    pub scopes: Vec<String>,

    /// For how long an exchanged token is valid: whole seconds.
    pub token_validity_seconds: u64,

    /// For how long an exchanged token is valid: nanoseconds on top of the seconds.
    pub token_validity_nanos: u32,
}

/// The providers that clients can log in with.
#[derive(Debug)]
pub struct ProvidersResponse {
    pub providers: Vec<ProviderResponse>,
}

/// What clients are told of a provider.
#[derive(Debug)]
pub struct ProviderResponse {
    pub name: String,
    pub display_name: String,
    pub mode: OidcProviderMode,
    pub issuer: String,
    pub audience: String,
    pub authorization_endpoint: Option<String>,
    pub token_endpoint: Option<String>,
    pub scopes: Vec<String>,
}

/// A request to exchange an ID token.
#[derive(Debug)]
pub struct ExchangeRequest {
    pub provider: String,
    pub id_token: String,
}

/// The answer to a request to exchange an ID token.
#[derive(Debug)]
pub struct ExchangeResponse {
    pub access_token: String,
    pub token_type: &'static str,
    pub expires_in: u64,
}

/// The `Cache-Control` header of an exchanged token.
pub const EXCHANGE_CACHE_CONTROL: &'static str = "no-store";

/// `response` tells what `provider` is. A provider without a display name goes by its name.
pub open spec fn describes(response: ProviderResponse, provider: OidcProviderConfig) -> bool {
    &&& response.name == provider.name
    &&& response.display_name == (match provider.display_name {
        Some(display_name) => display_name,
        None => provider.name,
    })
    &&& response.mode == provider.mode
    &&& response.issuer == provider.issuer
    &&& response.audience == provider.audience
    &&& response.authorization_endpoint == provider.authorization_endpoint
    &&& response.token_endpoint == provider.token_endpoint
    &&& response.scopes@ == provider.scopes@
}

fn copy_option(text: &Option<String>) -> (r: Option<String>)
    ensures
        r == *text,
{
    match text {
        Some(text) => Some(text.clone()),
        None => None,
    }
}

/// The providers that clients can log in with.
pub fn providers(configured: &Vec<OidcProviderConfig>) -> (r: ProvidersResponse)
    ensures
        r.providers@.len() == configured@.len(),
        forall|i: int|
            0 <= i < r.providers@.len() ==> describes(#[trigger] r.providers@[i], configured@[i]),
{
    let mut list: Vec<ProviderResponse> = Vec::new();
    let mut i: usize = 0;
    while i < configured.len()
        invariant
            i <= configured.len(),
            list@.len() == i,
            forall|k: int| 0 <= k < i ==> describes(#[trigger] list@[k], configured@[k]),
        decreases configured.len() - i,
    {
        let provider = &configured[i];
        let scopes = provider.scopes.clone();
        proof {
            assert(scopes@ =~= provider.scopes@);
        }
        let response = ProviderResponse {
            name: provider.name.clone(),
            display_name: match &provider.display_name {
                Some(display_name) => display_name.clone(),
                None => provider.name.clone(),
            },
            mode: provider.mode,
            issuer: provider.issuer.clone(),
            audience: provider.audience.clone(),
            authorization_endpoint: copy_option(&provider.authorization_endpoint),
            token_endpoint: copy_option(&provider.token_endpoint),
            scopes,
        };
        list.push(response);
        i = i + 1;
    }
    ProvidersResponse { providers: list }
}

/// The configured provider of the given name, the first one if there are several.
pub fn find_provider<'a>(configured: &'a Vec<OidcProviderConfig>, name: &str) -> (r: Result<
    &'a OidcProviderConfig,
    ErrorKind,
>)
    ensures
        match r {
            Ok(provider) => exists|i: int|
                {
                    &&& 0 <= i < configured@.len()
                    &&& #[trigger] configured@[i] == *provider
                    &&& provider.name@ == name@
                    &&& forall|j: int| 0 <= j < i ==> (#[trigger] configured@[j]).name@ != name@
                },
            Err(error) => {
                &&& error is NotFound
                &&& forall|j: int|
                    0 <= j < configured@.len() ==> (#[trigger] configured@[j]).name@ != name@
            },
        },
{
    let mut i: usize = 0;
    while i < configured.len()
        invariant
            i <= configured.len(),
            forall|j: int| 0 <= j < i ==> (#[trigger] configured@[j]).name@ != name@,
        decreases configured.len() - i,
    {
        if text_eq(configured[i].name.as_str(), name) {
            return Ok(&configured[i]);
        }
        i = i + 1;
    }
    Err(ErrorKind::NotFound)
}

/// The most milliseconds that a time difference can have.
pub const MAX_VALIDITY_MILLIS: i64 = 0x7fff_ffff_ffff_ffff;

/// A duration that can be added to a date: at most `MAX_VALIDITY_MILLIS` milliseconds.
pub open spec fn fits_time_delta(seconds: u64, nanos: u32) -> bool {
    seconds * 1_000_000_000 + nanos <= MAX_VALIDITY_MILLIS * 1_000_000
}

/// `TimeDelta::from_std`: the duration as one that can be added to a date, by its whole seconds and
/// the nanoseconds on top of them. It is refused exactly if it is too long, always with the same
/// message.
#[verifier::external_body]
fn time_delta_from_std(seconds: u64, nanos: u32) -> (r: Result<(i64, i32), String>)
    requires
        nanos < 1_000_000_000,
    ensures
        match r {
            Ok((s, n)) => fits_time_delta(seconds, nanos) && s == seconds && n == nanos,
            Err(message) => !fits_time_delta(seconds, nanos) && message@
                == "Source duration value is out of range for the target type"@,
        },
{
    let delta = TimeDelta::from_std(Duration::new(seconds, nanos));
    delta.map(|d| (d.num_seconds(), d.subsec_nanos())).map_err(|error| error.to_string())
}

/// What an exchanged token is to say.
#[derive(Debug)]
pub struct Grant {
    /// Whom it is for.
    pub subject: String,

    /// For how long it is valid: whole seconds, and nanoseconds on top of them.
    pub validity: (i64, i32),
}

/// Decides whether a verified identity gets a token.
///
/// `can_discover` tells, for each permission that the rules grant for the token's claims, whether it
/// allows anything at all; `subject` is the token's subject.
pub fn grant(provider: &OidcProviderConfig, can_discover: &Vec<bool>, subject: Option<&str>) -> (r:
    Result<Grant, ErrorKind>)
    requires
        provider.token_validity_nanos < 1_000_000_000,
    ensures
        ({
            let fits = fits_time_delta(
                provider.token_validity_seconds,
                provider.token_validity_nanos,
            );
            match r {
                Ok(grant) => {
                    &&& can_discover@.contains(true)
                    &&& subject matches Some(subject) && grant.subject@ == "oidc:"@ + provider.name@
                        + ":"@ + subject@
                    &&& fits
                    &&& grant.validity.0 == provider.token_validity_seconds
                    &&& grant.validity.1 == provider.token_validity_nanos
                },
                Err(ErrorKind::Forbidden) => !can_discover@.contains(true),
                Err(ErrorKind::Unauthorized) => can_discover@.contains(true) && subject is None,
                Err(ErrorKind::RequestError(message)) => {
                    &&& can_discover@.contains(true)
                    &&& subject is Some
                    &&& !fits
                    &&& message@ == "Source duration value is out of range for the target type"@
                },
                Err(error) => false,
            }
        }),
{
    let mut i: usize = 0;
    while i < can_discover.len() && !can_discover[i]
        invariant
            i <= can_discover.len(),
            forall|j: int| 0 <= j < i ==> !can_discover@[j],
        decreases can_discover.len() - i,
    {
        i = i + 1;
    }
    if i == can_discover.len() {
        return Err(ErrorKind::Forbidden);
    }
    proof {
        assert(can_discover@[i as int]);
    }
    let subject = match subject {
        Some(subject) => subject,
        None => {
            return Err(ErrorKind::Unauthorized);
        },
    };
    match time_delta_from_std(provider.token_validity_seconds, provider.token_validity_nanos) {
        Ok(validity) => {
            let mut text = concat3("oidc:", provider.name.as_str(), ":");
            text.append(subject);
            Ok(Grant { subject: text, validity })
        },
        Err(message) => Err(ErrorKind::RequestError(message)),
    }
}

/// The answer that carries an exchanged token.
pub fn exchange_response(provider: &OidcProviderConfig, access_token: String) -> (r:
    ExchangeResponse)
    ensures
        r.access_token == access_token,
        r.token_type@ == "Bearer"@,
        r.expires_in == provider.token_validity_seconds,
{
    ExchangeResponse {
        access_token,
        token_type: "Bearer",
        expires_in: provider.token_validity_seconds,
    }
}

/// The first of the parts that dots separate in a token; `None` if there is no dot.
pub open spec fn token_header(token: Seq<char>) -> Option<Seq<char>> {
    if token.contains('.') {
        Some(token.take(find_char(token, '.', 0)))
    } else {
        None
    }
}

proof fn lemma_find_char(s: Seq<char>, c: char, i: int, n: int)
    requires
        0 <= i <= n < s.len(),
        s[n] == c,
        forall|k: int| i <= k < n ==> s[k] != c,
    ensures
        find_char(s, c, i) == n,
    decreases n - i,
{
    if i < n {
        lemma_find_char(s, c, i + 1, n);
    }
}

/// Takes the header of a token out of base64. It is still in JSON.
pub fn parse_header(token: &str) -> (r: Result<Vec<u8>, ErrorKind>)
    ensures
        match r {
            Ok(bytes) => token_header(token@) matches Some(header) && base64_decoded(header) == Ok::<
                Seq<u8>,
                Seq<char>,
            >(bytes@),
            Err(error) => {
                &&& error is Unauthorized
                &&& token_header(token@) matches Some(header) ==> base64_decoded(header) is Err
            },
        },
{
    match split_once(token, '.') {
        Some((header, rest)) => {
            proof {
                let n = header@.len() as int;
                assert(token@[n] == '.');
                assert forall|k: int| 0 <= k < n implies token@[k] != '.' by {
                    assert(token@[k] == header@[k]);
                    assert(header@.contains(header@[k]));
                }
                lemma_find_char(token@, '.', 0, n);
                assert(token@.take(n) =~= header@);
            }
            match base64_decode(header.as_str()) {
                Ok(bytes) => Ok(bytes),
                Err(_) => Err(ErrorKind::Unauthorized),
            }
        },
        None => Err(ErrorKind::Unauthorized),
    }
}

/// The ID of the key that a token is signed with, from the algorithm and key ID in its header. Only
/// RS256 is accepted.
pub fn key_id(alg: &str, kid: Option<String>) -> (r: Result<String, ErrorKind>)
    ensures
        match r {
            Ok(id) => alg@ == "RS256"@ && kid == Some(id),
            Err(error) => error is Unauthorized && (alg@ != "RS256"@ || kid is None),
        },
{
    if !text_eq(alg, "RS256") {
        return Err(ErrorKind::Unauthorized);
    }
    match kid {
        Some(kid) => Ok(kid),
        None => Err(ErrorKind::Unauthorized),
    }
}

/// The key has the given ID.
pub open spec fn has_kid(key: JsonView, kid: Seq<char>) -> bool {
    text_member(key, "kid"@) == Some(kid)
}

/// The values that `keys` stand for.
pub open spec fn key_views(keys: Seq<Json>) -> Seq<JsonView> {
    keys.map_values(|k: Json| k@)
}

/// Whether a key set holds a key with the given ID.
pub open spec fn holds_key(keys: Seq<Json>, kid: Seq<char>) -> bool {
    exists|i: int| 0 <= i < keys.len() && has_kid((#[trigger] keys[i])@, kid)
}

/// The key can verify RS256 signatures: it is an RSA key, and not for another algorithm.
pub open spec fn is_rs256_key(key: JsonView) -> bool {
    &&& text_member(key, "kty"@) == Some("RSA"@)
    &&& match text_member(key, "alg"@) {
        Some(alg) => alg == "RS256"@,
        None => true,
    }
}

/// Whether a member of a key is the given text.
fn member_is(key: &Json, name: &str, text: &str) -> (r: bool)
    ensures
        r == (text_member(key@, name@) == Some(text@)),
{
    match key.get_str(name) {
        Some(value) => text_eq(value, text),
        None => false,
    }
}

fn position_of_key(keys: &Vec<Json>, kid: &str) -> (r: Option<usize>)
    ensures
        match r {
            Some(i) => {
                &&& i < keys@.len()
                &&& has_kid(keys@[i as int]@, kid@)
                &&& forall|j: int| 0 <= j < i ==> !has_kid((#[trigger] keys@[j])@, kid@)
            },
            None => !holds_key(keys@, kid@),
        },
{
    let mut i: usize = 0;
    while i < keys.len()
        invariant
            i <= keys.len(),
            forall|j: int| 0 <= j < i ==> !has_kid((#[trigger] keys@[j])@, kid@),
        decreases keys.len() - i,
    {
        if member_is(&keys[i], "kid", kid) {
            return Some(i);
        }
        i = i + 1;
    }
    None
}

/// Whether a key set holds a key with the given ID.
pub fn contains_key(keys: &Vec<Json>, kid: &str) -> (r: bool)
    ensures
        r == holds_key(keys@, kid@),
{
    match position_of_key(keys, kid) {
        Some(i) => {
            proof {
                assert(has_kid(keys@[i as int]@, kid@));
            }
            true
        },
        None => false,
    }
}

/// `i` is the position of the first key with the given ID.
pub open spec fn is_first_with_kid(keys: Seq<Json>, kid: Seq<char>, i: int) -> bool {
    &&& 0 <= i < keys.len()
    &&& has_kid(keys[i]@, kid)
    &&& forall|j: int| 0 <= j < i ==> !has_kid((#[trigger] keys[j])@, kid)
}

/// The modulus and exponent of a key, in base64, are the given bytes.
pub open spec fn has_components(key: JsonView, modulus: Seq<u8>, exponent: Seq<u8>) -> bool {
    &&& text_member(key, "n"@) matches Some(n) && base64_decoded(n) == Ok::<Seq<u8>, Seq<char>>(
        modulus,
    )
    &&& text_member(key, "e"@) matches Some(e) && base64_decoded(e) == Ok::<Seq<u8>, Seq<char>>(
        exponent,
    )
}

fn decoded_member(key: &Json, name: &str) -> (r: Option<Vec<u8>>)
    ensures
        match r {
            Some(bytes) => text_member(key@, name@) matches Some(text) && base64_decoded(text)
                == Ok::<Seq<u8>, Seq<char>>(bytes@),
            None => text_member(key@, name@) matches Some(text) ==> base64_decoded(text) is Err,
        },
{
    match key.get_str(name) {
        Some(text) => match base64_decode(text) {
            Ok(bytes) => Some(bytes),
            Err(_) => None,
        },
        None => None,
    }
}

/// The modulus and exponent of the key that a token with the given key ID is verified with: the
/// first key of that ID, provided that it can verify RS256 signatures.
pub fn key_components(keys: &Vec<Json>, kid: &str) -> (r: Result<(Vec<u8>, Vec<u8>), ErrorKind>)
    ensures
        match r {
            Ok((modulus, exponent)) => exists|i: int| #[trigger]
                is_first_with_kid(keys@, kid@, i) && is_rs256_key(keys@[i]@) && has_components(
                    keys@[i]@,
                    modulus@,
                    exponent@,
                ),
            Err(error) => {
                &&& error is Unauthorized
                &&& forall|i: int, modulus: Seq<u8>, exponent: Seq<u8>| #[trigger]
                    is_first_with_kid(keys@, kid@, i) && is_rs256_key(keys@[i]@)
                        ==> !#[trigger] has_components(keys@[i]@, modulus, exponent)
            },
        },
{
    let i: usize = match position_of_key(keys, kid) {
        Some(i) => i,
        None => {
            return Err(ErrorKind::Unauthorized);
        },
    };
    let key = &keys[i];
    proof {
        assert(is_first_with_kid(keys@, kid@, i as int));
        assert forall|j: int| #[trigger] is_first_with_kid(keys@, kid@, j) implies j == i by {
            if j < i {
                assert(!has_kid(keys@[j]@, kid@));
            } else if i < j {
                assert(!has_kid(keys@[i as int]@, kid@));
            }
        }
    }
    let other_algorithm = match key.get_str("alg") {
        Some(alg) => !text_eq(alg, "RS256"),
        None => false,
    };
    if !member_is(key, "kty", "RSA") || other_algorithm {
        return Err(ErrorKind::Unauthorized);
    }
    let modulus = match decoded_member(key, "n") {
        Some(modulus) => modulus,
        None => {
            return Err(ErrorKind::Unauthorized);
        },
    };
    let exponent = match decoded_member(key, "e") {
        Some(exponent) => exponent,
        None => {
            return Err(ErrorKind::Unauthorized);
        },
    };
    proof {
        assert(has_components(keys@[i as int]@, modulus@, exponent@));
    }
    Ok((modulus, exponent))
}

/// The keys of a JSON Web Key Set; `None` if it has no list of keys.
pub open spec fn keyset_of(json: JsonView) -> Option<Seq<JsonView>> {
    match member(json, "keys"@) {
        Some(JsonView::Array(keys)) => Some(keys),
        _ => None,
    }
}

/// The keys of a JSON Web Key Set that was fetched. One that cannot be read counts as unavailable.
pub fn parse_keyset(body: &[u8]) -> (r: Result<Vec<Json>, ErrorKind>)
    ensures
        match r {
            Ok(keys) => parsed_json(body@) matches Ok(json) && keyset_of(json) == Some(
                key_views(keys@),
            ),
            Err(error) => {
                &&& error is ServiceUnavailable
                &&& parsed_json(body@) matches Ok(json) ==> keyset_of(json) is None
            },
        },
{
    match Json::parse(body) {
        Ok(json) => match json.into_member("keys") {
            Some(keys) => match keys.into_array() {
                Some(keys) => Ok(keys),
                None => Err(ErrorKind::ServiceUnavailable),
            },
            None => Err(ErrorKind::ServiceUnavailable),
        },
        Err(_) => Err(ErrorKind::ServiceUnavailable),
    }
}

/// How long a key set is used before it is fetched again, in nanoseconds: an hour.
pub const KEYSET_LIFETIME: u128 = 3_600_000_000_000;

/// A key set cached until its next refresh.
#[derive(Debug)]
pub struct CachedOidcKeyset {
    /// When it is to be fetched again, in nanoseconds since the server started.
    pub refresh_at: u128,
    pub keys: Vec<Json>,
}

/// What comes of looking for the key set of a provider.
#[derive(Debug)]
pub enum KeysetLookup {
    /// The cached keys, which are to be used.
    Use(Vec<Json>),

    /// It has to be fetched; should that fail, there are the keys that are cached now, if any.
    Fetch(Option<Vec<Json>>),
}

/// The cached key sets, by the name of the provider.
#[derive(Debug)]
pub struct OidcKeysets {
    keysets: KeyMap<String, CachedOidcKeyset>,
}

impl View for OidcKeysets {
    type V = Map<Seq<char>, CachedOidcKeyset>;

    closed spec fn view(&self) -> Map<Seq<char>, CachedOidcKeyset> {
        self.keysets@
    }
}

/// A key set with the given key is cached for the provider.
pub open spec fn knows_key(
    cache: Map<Seq<char>, CachedOidcKeyset>,
    provider: Seq<char>,
    kid: Seq<char>,
) -> bool {
    cache.contains_key(provider) && holds_key(cache[provider].keys@, kid)
}

/// A key set with the given key is cached for the provider, and not due for a refresh.
pub open spec fn serves_key(
    cache: Map<Seq<char>, CachedOidcKeyset>,
    provider: Seq<char>,
    kid: Seq<char>,
    now: u128,
) -> bool {
    knows_key(cache, provider, kid) && cache[provider].refresh_at > now
}

/// What is cached after a fetch at the time `now`: what was fetched, for an hour, in place of what
/// was cached before.
pub open spec fn after_fetch(
    cache: Map<Seq<char>, CachedOidcKeyset>,
    provider: Seq<char>,
    now: u128,
    fetched: Result<Vec<Json>, ErrorKind>,
) -> Map<Seq<char>, CachedOidcKeyset> {
    match fetched {
        Ok(keys) => cache.insert(
            provider,
            CachedOidcKeyset { refresh_at: (now + KEYSET_LIFETIME) as u128, keys },
        ),
        Err(error) => cache,
    }
}

/// `keys` are copies of the keys that are cached for the provider, or `None` if none are.
pub open spec fn are_cached_keys(
    keys: Option<Vec<Json>>,
    cache: Map<Seq<char>, CachedOidcKeyset>,
    provider: Seq<char>,
) -> bool {
    match keys {
        Some(keys) => cache.contains_key(provider) && key_views(keys@) == key_views(
            cache[provider].keys@,
        ),
        None => !cache.contains_key(provider),
    }
}

/// `r` holds the keys to go on with after a fetch: those that were fetched, or else those that were
/// cached before, `cached`, provided that they hold the key.
pub open spec fn is_fetch_result(
    r: Result<Vec<Json>, ErrorKind>,
    cached: Option<Vec<Json>>,
    kid: Seq<char>,
    fetched: Result<Vec<Json>, ErrorKind>,
) -> bool {
    match fetched {
        Ok(keys) => r matches Ok(used) && key_views(used@) == key_views(keys@),
        Err(error) => match cached {
            Some(keys) => if holds_key(keys@, kid) {
                r == Ok::<Vec<Json>, ErrorKind>(keys)
            } else {
                r == Err::<Vec<Json>, ErrorKind>(error)
            },
            None => r == Err::<Vec<Json>, ErrorKind>(error),
        },
    }
}

/// Whether a key set holds a key depends on what its keys stand for alone.
proof fn lemma_copies_hold_the_same_keys(keys: Seq<Json>, copies: Seq<Json>, kid: Seq<char>)
    requires
        key_views(keys) == key_views(copies),
    ensures
        holds_key(keys, kid) == holds_key(copies, kid),
{
    assert(key_views(keys).len() == keys.len());
    assert(key_views(copies).len() == copies.len());
    assert forall|i: int| 0 <= i < keys.len() implies (#[trigger] keys[i])@ == copies[i]@ by {
        assert(key_views(keys)[i] == keys[i]@);
        assert(key_views(copies)[i] == copies[i]@);
    }
    if holds_key(keys, kid) {
        let i = choose|i: int| 0 <= i < keys.len() && has_kid((#[trigger] keys[i])@, kid);
        assert(has_kid(copies[i]@, kid));
    }
    if holds_key(copies, kid) {
        let i = choose|i: int| 0 <= i < copies.len() && has_kid((#[trigger] copies[i])@, kid);
        assert(has_kid(keys[i]@, kid));
    }
}

fn copy_keys(keys: &Vec<Json>) -> (r: Vec<Json>)
    ensures
        key_views(r@) == key_views(keys@),
{
    let mut copies: Vec<Json> = Vec::new();
    let mut i: usize = 0;
    while i < keys.len()
        invariant
            i <= keys.len(),
            copies@.len() == i,
            forall|k: int| 0 <= k < i ==> (#[trigger] copies@[k])@ == keys@[k]@,
        decreases keys.len() - i,
    {
        copies.push(keys[i].copy());
        i = i + 1;
    }
    proof {
        assert(key_views(copies@) =~= key_views(keys@));
    }
    copies
}

impl OidcKeysets {
    /// Nothing is cached yet.
    pub fn new() -> (r: OidcKeysets)
        ensures
            r@ == Map::<Seq<char>, CachedOidcKeyset>::empty(),
    {
        OidcKeysets { keysets: KeyMap::new() }
    }

    /// Looks for a key set with the given key: one that is not due for a refresh is used.
    pub fn keyset_for(&self, provider: &String, kid: &str, now: u128) -> (r: KeysetLookup)
        ensures
            match r {
                KeysetLookup::Use(keys) => {
                    &&& serves_key(self@, provider@, kid@, now)
                    &&& are_cached_keys(Some(keys), self@, provider@)
                },
                KeysetLookup::Fetch(cached) => {
                    &&& !serves_key(self@, provider@, kid@, now)
                    &&& are_cached_keys(cached, self@, provider@)
                },
            },
    {
        match self.keysets.get(provider) {
            Some(cached) => {
                let keys = copy_keys(&cached.keys);
                if cached.refresh_at > now && contains_key(&cached.keys, kid) {
                    KeysetLookup::Use(keys)
                } else {
                    KeysetLookup::Fetch(Some(keys))
                }
            },
            None => KeysetLookup::Fetch(None),
        }
    }

    /// Takes in what came of fetching a key set that was looked for at the time `now`, when the keys
    /// `cached` were there. What was fetched replaces what is cached; if it could not be fetched,
    /// the keys that were there serve on, even past their refresh, provided that they hold the key.
    pub fn fetched(
        &mut self,
        provider: &String,
        kid: &str,
        now: u128,
        cached: Option<Vec<Json>>,
        fetched: Result<Vec<Json>, ErrorKind>,
    ) -> (r: Result<Vec<Json>, ErrorKind>)
        requires
            now <= u128::MAX - KEYSET_LIFETIME,
        ensures
            is_fetch_result(r, cached, kid@, fetched),
            final(self)@ == after_fetch(old(self)@, provider@, now, fetched),
    {
        match fetched {
            Ok(keys) => {
                let copies = copy_keys(&keys);
                self.keysets.insert(
                    provider.clone(),
                    CachedOidcKeyset { refresh_at: now + KEYSET_LIFETIME, keys },
                );
                Ok(copies)
            },
            Err(error) => match cached {
                Some(keys) => if contains_key(&keys, kid) {
                    Ok(keys)
                } else {
                    Err(error)
                },
                None => Err(error),
            },
        }
    }
}

/// A key set that was fetched serves the keys that it holds, without another fetch, until an hour
/// has passed. A fetch that fails after that takes nothing away: what it leads to is the keys that
/// were there, among them the key.
pub proof fn law_known_keys_stay_usable(
    cache: Map<Seq<char>, CachedOidcKeyset>,
    provider: Seq<char>,
    kid: Seq<char>,
    keys: Vec<Json>,
    fetched_at: u128,
    now: u128,
    cached: Option<Vec<Json>>,
    error: ErrorKind,
    r: Result<Vec<Json>, ErrorKind>,
)
    requires
        holds_key(keys@, kid),
        fetched_at <= u128::MAX - KEYSET_LIFETIME,
        are_cached_keys(cached, after_fetch(cache, provider, fetched_at, Ok(keys)), provider),
        is_fetch_result(r, cached, kid, Err(error)),
    ensures
        ({
            let known = after_fetch(cache, provider, fetched_at, Ok(keys));
            &&& serves_key(known, provider, kid, now) <==> now - fetched_at < KEYSET_LIFETIME
            &&& r matches Ok(used) && key_views(used@) == key_views(keys@) && holds_key(used@, kid)
            &&& after_fetch(known, provider, now, Err(error)) == known
        }),
{
    lemma_copies_hold_the_same_keys(keys@, cached->0@, kid);
}

/// Clients are told of every configured provider, in order: its name, its issuer, whom its tokens have
/// to be for, its endpoints and its scopes are those of the configuration, and so is the name to
/// display, if there is one. Else it goes by its name.
pub proof fn law_clients_are_told_of_every_provider(
    configured: &Vec<OidcProviderConfig>,
    r: ProvidersResponse,
    i: int,
)
    requires
        call_ensures(providers, (configured,), r),
    ensures
        r.providers@.len() == configured@.len(),
        0 <= i < configured@.len() ==> {
            let told = r.providers@[i];
            let provider = configured@[i];
            &&& told.name@ == provider.name@
            &&& provider.display_name matches Some(display_name) ==> told.display_name@
                == display_name@
            &&& provider.display_name is None ==> told.display_name@ == provider.name@
            &&& told.mode == provider.mode
            &&& told.issuer@ == provider.issuer@
            &&& told.audience@ == provider.audience@
            &&& told.authorization_endpoint == provider.authorization_endpoint
            &&& told.token_endpoint == provider.token_endpoint
            &&& told.scopes@ == provider.scopes@
        },
{
}

/// A provider is found by its name, the first one if there are several of that name, and is found if
/// there is any.
pub proof fn law_providers_are_found_by_their_names(
    configured: &Vec<OidcProviderConfig>,
    name: &str,
    r: Result<&OidcProviderConfig, ErrorKind>,
    i: int,
)
    requires
        call_ensures(find_provider, (configured, name), r),
        0 <= i < configured@.len(),
        configured@[i].name@ == name@,
    ensures
        r matches Ok(provider) && provider.name@ == name@,
        (forall|j: int| 0 <= j < i ==> (#[trigger] configured@[j]).name@ != name@) ==> (
        r matches Ok(provider) && *provider == configured@[i]),
{
    assert(r is Ok);
}

/// A name that no provider has is not found.
pub proof fn law_other_names_are_not_found(
    configured: &Vec<OidcProviderConfig>,
    name: &str,
    r: Result<&OidcProviderConfig, ErrorKind>,
)
    requires
        call_ensures(find_provider, (configured, name), r),
        forall|j: int| 0 <= j < configured@.len() ==> (#[trigger] configured@[j]).name@ != name@,
    ensures
        r matches Err(error) && error is NotFound,
{
}

/// An identity gets a token exactly if any of its permissions allows anything, it has a subject, and
/// the time for which tokens of the provider are valid can be told in milliseconds. The token is for
/// that subject, as the provider knows it, and the client is told how long it is valid.
pub proof fn law_any_permission_is_enough_for_a_token(
    provider: &OidcProviderConfig,
    can_discover: &Vec<bool>,
    subject: Option<&str>,
    r: Result<Grant, ErrorKind>,
    access_token: String,
    response: ExchangeResponse,
)
    requires
        call_ensures(grant, (provider, can_discover, subject), r),
        call_ensures(exchange_response, (provider, access_token), response),
    ensures
        r is Ok <==> {
            &&& exists|i: int| 0 <= i < can_discover@.len() && #[trigger] can_discover@[i]
            &&& subject is Some
            &&& provider.token_validity_seconds * 1_000_000_000 + provider.token_validity_nanos
                <= 9_223_372_036_854_775_807 * 1_000_000
        },
        (forall|i: int| 0 <= i < can_discover@.len() ==> !#[trigger] can_discover@[i]) <==> (
        r matches Err(error) && error is Forbidden),
        (exists|i: int| 0 <= i < can_discover@.len() && #[trigger] can_discover@[i])
            && subject is None <==> (r matches Err(error) && error is Unauthorized),
        r matches Ok(granted) ==> {
            &&& granted.subject@ == "oidc:"@ + provider.name@ + ":"@ + subject->0@
            &&& granted.validity.0 == provider.token_validity_seconds
            &&& granted.validity.1 == provider.token_validity_nanos
            &&& response.expires_in == granted.validity.0
        },
        response.access_token@ == access_token@,
        response.token_type@ == "Bearer"@,
{
    if can_discover@.contains(true) {
        let i = choose|i: int| 0 <= i < can_discover@.len() && can_discover@[i] == true;
        assert(can_discover@[i]);
    }
    if exists|i: int| 0 <= i < can_discover@.len() && #[trigger] can_discover@[i] {
        let i = choose|i: int| 0 <= i < can_discover@.len() && #[trigger] can_discover@[i];
        assert(can_discover@[i] == true);
        assert(can_discover@.contains(true));
    }
}

/// The header of a token is what stands before its first dot. A token without a dot, or whose header
/// is not in base64, is refused.
pub proof fn law_header_stands_before_the_first_dot(
    token: &str,
    header: Seq<char>,
    rest: Seq<char>,
    r: Result<Vec<u8>, ErrorKind>,
)
    requires
        call_ensures(parse_header, (token,), r),
        !header.contains('.'),
    ensures
        token@ == header + "."@ + rest ==> match base64_decoded(header) {
            Ok(bytes) => r matches Ok(found) && found@ == bytes,
            Err(message) => r matches Err(error) && error is Unauthorized,
        },
        token@ == header ==> (r matches Err(error) && error is Unauthorized),
{
    reveal_strlit(".");
    if token@ == header + "."@ + rest {
        let n = header.len() as int;
        assert(token@[n] == '.');
        assert(token@.contains('.'));
        assert forall|k: int| 0 <= k < n implies token@[k] != '.' by {
            assert(token@[k] == header[k]);
            assert(header.contains(header[k]));
        }
        lemma_find_char(token@, '.', 0, n);
        assert(token@.take(n) =~= header);
    }
}

/// Only tokens signed with RS256 by a key with an ID are looked at, and it is that key that is looked
/// for.
pub proof fn law_key_id_is_that_of_the_token(
    alg: &str,
    kid: Option<String>,
    r: Result<String, ErrorKind>,
)
    requires
        call_ensures(key_id, (alg, kid), r),
    ensures
        r is Ok <==> alg@ == "RS256"@ && kid is Some,
        r matches Ok(id) ==> id@ == kid->0@,
        r matches Err(error) ==> error is Unauthorized,
{
}

/// A token is verified with the first key of its key ID, if that is an RSA key that is not for another
/// algorithm, with a modulus and an exponent in base64. Other keys do not matter.
pub proof fn law_first_key_of_the_id_counts(
    keys: &Vec<Json>,
    kid: &str,
    r: Result<(Vec<u8>, Vec<u8>), ErrorKind>,
    found: bool,
    i: int,
)
    requires
        call_ensures(key_components, (keys, kid), r),
        call_ensures(contains_key, (keys, kid), found),
        0 <= i < keys@.len(),
        text_member(keys@[i]@, "kid"@) == Some(kid@),
    ensures
        found,
        (forall|j: int|
            0 <= j < i ==> text_member((#[trigger] keys@[j])@, "kid"@) != Some(kid@)) ==> {
            let key = keys@[i]@;
            let alg = text_member(key, "alg"@);
            let n = text_member(key, "n"@);
            let e = text_member(key, "e"@);
            &&& r is Ok <==> {
                &&& text_member(key, "kty"@) == Some("RSA"@)
                &&& alg is None || alg == Some("RS256"@)
                &&& n is Some && base64_decoded(n->0) is Ok
                &&& e is Some && base64_decoded(e->0) is Ok
            }
            &&& r matches Ok(components) ==> {
                &&& base64_decoded(n->0) == Ok::<Seq<u8>, Seq<char>>(components.0@)
                &&& base64_decoded(e->0) == Ok::<Seq<u8>, Seq<char>>(components.1@)
            }
            &&& r matches Err(error) ==> error is Unauthorized
        },
{
    assert(has_kid(keys@[i]@, kid@));
    if forall|j: int|
        0 <= j < i ==> text_member((#[trigger] keys@[j])@, "kid"@) != Some(kid@) {
        assert(is_first_with_kid(keys@, kid@, i));
        assert forall|j: int| #[trigger] is_first_with_kid(keys@, kid@, j) implies j == i by {
            if i < j {
                assert(!has_kid(keys@[i]@, kid@));
            }
        }
        let n = text_member(keys@[i]@, "n"@);
        let e = text_member(keys@[i]@, "e"@);
        if n is Some && base64_decoded(n->0) is Ok && e is Some && base64_decoded(e->0) is Ok {
            assert(has_components(keys@[i]@, base64_decoded(n->0)->Ok_0, base64_decoded(e->0)->Ok_0));
        }
    }
}

/// No token can be verified without a key of its key ID.
pub proof fn law_unknown_keys_verify_nothing(
    keys: &Vec<Json>,
    kid: &str,
    r: Result<(Vec<u8>, Vec<u8>), ErrorKind>,
    found: bool,
)
    requires
        call_ensures(key_components, (keys, kid), r),
        call_ensures(contains_key, (keys, kid), found),
        forall|j: int|
            0 <= j < keys@.len() ==> text_member((#[trigger] keys@[j])@, "kid"@) != Some(kid@),
    ensures
        !found,
        r matches Err(error) && error is Unauthorized,
{
}

/// The key set is the list under `keys`, with all its elements. Without such a list there is none.
pub proof fn law_keyset_is_the_list_of_keys(
    body: &[u8],
    r: Result<Vec<Json>, ErrorKind>,
    listed: Seq<JsonView>,
)
    requires
        call_ensures(parse_keyset, (body,), r),
    ensures
        parsed_json(body@) is Err ==> r is Err,
        parsed_json(body@) matches Ok(json) ==> {
            &&& member(json, "keys"@) == Some(JsonView::Array(listed)) ==> (r matches Ok(keys)
                && keys@.len() == listed.len() && forall|i: int|
                0 <= i < listed.len() ==> (#[trigger] keys@[i])@ == listed[i])
            &&& r is Ok ==> (member(json, "keys"@) matches Some(keys) && keys is Array)
        },
        r matches Err(error) ==> error is ServiceUnavailable,
{
    if let Ok(keys) = r {
        assert(key_views(keys@).len() == keys@.len());
        assert(forall|i: int|
            0 <= i < keys@.len() ==> key_views(keys@)[i] == (#[trigger] keys@[i])@);
    }
}

/// A key set that was fetched serves its keys for an hour, and no others; what is cached of other
/// providers stays as it is.
pub proof fn law_fetched_keysets_serve_for_an_hour(
    cache: &mut OidcKeysets,
    after: &OidcKeysets,
    provider: &String,
    kid: &str,
    now: u128,
    cached: Option<Vec<Json>>,
    keys: Vec<Json>,
    r: Result<Vec<Json>, ErrorKind>,
    later: u128,
    asked: &str,
    lookup: KeysetLookup,
    i: int,
)
    requires
        now <= u128::MAX - 3_600_000_000_000,
        call_ensures(OidcKeysets::fetched, (cache, provider, kid, now, cached, Ok(keys)), r),
        *after == *final(cache),
        call_ensures(OidcKeysets::keyset_for, (after, provider, asked, later), lookup),
    ensures
        r matches Ok(used) && used@.len() == keys@.len() && (0 <= i < keys@.len() ==> used@[i]@
            == keys@[i]@),
        0 <= i < keys@.len() && text_member(keys@[i]@, "kid"@) == Some(asked@) ==> (lookup is Use
            <==> later < now + 3_600_000_000_000),
        (forall|j: int|
            0 <= j < keys@.len() ==> text_member((#[trigger] keys@[j])@, "kid"@) != Some(asked@))
            ==> lookup is Fetch,
        match lookup {
            KeysetLookup::Use(found) => found@.len() == keys@.len() && (0 <= i < keys@.len()
                ==> found@[i]@ == keys@[i]@),
            KeysetLookup::Fetch(found) => found matches Some(found) && found@.len() == keys@.len()
                && (0 <= i < keys@.len() ==> found@[i]@ == keys@[i]@),
        },
        forall|other: Seq<char>|
            other != provider@ ==> (#[trigger] after@.contains_key(other) <==> old(
                cache,
            )@.contains_key(other)) && (after@.contains_key(other) ==> after@[other] == old(
                cache,
            )@[other]),
{
    if 0 <= i < keys@.len() && text_member(keys@[i]@, "kid"@) == Some(asked@) {
        assert(has_kid(keys@[i]@, asked@));
    }
    lemma_copied_keys(r->Ok_0@, keys@, i);
    match lookup {
        KeysetLookup::Use(found) => lemma_copied_keys(found@, keys@, i),
        KeysetLookup::Fetch(found) => lemma_copied_keys(found->0@, keys@, i),
    }
}

proof fn lemma_copied_keys(copies: Seq<Json>, keys: Seq<Json>, i: int)
    requires
        key_views(copies) == key_views(keys),
    ensures
        copies.len() == keys.len(),
        0 <= i < keys.len() ==> copies[i]@ == keys[i]@,
{
    assert(key_views(copies).len() == copies.len());
    assert(key_views(keys).len() == keys.len());
    if 0 <= i < keys.len() {
        assert(key_views(copies)[i] == copies[i]@);
        assert(key_views(keys)[i] == keys[i]@);
    }
}

/// When a key set cannot be fetched, the keys that were there serve on if one of them is the one that
/// is needed. Nothing that is cached changes.
pub proof fn law_failed_fetches_leave_the_known_keys(
    cache: &mut OidcKeysets,
    provider: &String,
    kid: &str,
    now: u128,
    cached: Option<Vec<Json>>,
    error: ErrorKind,
    r: Result<Vec<Json>, ErrorKind>,
)
    requires
        call_ensures(OidcKeysets::fetched, (cache, provider, kid, now, cached, Err(error)), r),
    ensures
        final(cache)@ == old(cache)@,
        r is Ok <==> (cached matches Some(keys) && exists|i: int|
            0 <= i < keys@.len() && text_member((#[trigger] keys@[i])@, "kid"@) == Some(kid@)),
        r matches Ok(used) ==> cached == Some(used),
        r matches Err(reason) ==> reason == error,
{
    if let Some(keys) = cached {
        if holds_key(keys@, kid@) {
            let i = choose|i: int| 0 <= i < keys@.len() && has_kid((#[trigger] keys@[i])@, kid@);
            assert(text_member(keys@[i]@, "kid"@) == Some(kid@));
        }
        if exists|i: int|
            0 <= i < keys@.len() && text_member((#[trigger] keys@[i])@, "kid"@) == Some(kid@) {
            let i = choose|i: int|
                0 <= i < keys@.len() && text_member((#[trigger] keys@[i])@, "kid"@) == Some(kid@);
            assert(has_kid(keys@[i]@, kid@));
        }
    }
}

/// Keys that were not cached for a provider have to be fetched.
pub proof fn law_unknown_keysets_are_fetched(
    cache: &OidcKeysets,
    provider: &String,
    kid: &str,
    now: u128,
    lookup: KeysetLookup,
)
    requires
        call_ensures(OidcKeysets::keyset_for, (cache, provider, kid, now), lookup),
        !cache@.contains_key(provider@),
    ensures
        lookup matches KeysetLookup::Fetch(cached) && cached is None,
{
}

} // verus!
