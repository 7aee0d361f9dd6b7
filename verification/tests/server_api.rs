use attic::client::api::OidcProviderMode;
use attic::json::Json;
use attic::server::api::binary_cache::{
    admit_pull, answer_nar, cache_control, info_cache_control, nar_path, narinfo_path, plan_nar,
    reassembled_response, reassembly_source, should_bump_last_accessed, single_chunk_response,
    ChunkDownload, NarPlan, NarResponse, NixCacheInfo,
};
use attic::server::api::get_missing_chunks::{missing_chunks, query_texts, requested_hashes};
use attic::server::api::oidc::{
    contains_key, exchange_response, find_provider, grant, key_components, key_id, parse_header,
    parse_keyset, providers, KeysetLookup, OidcKeysets, OidcProviderConfig,
};
use attic::server::error::ErrorKind;
use attic::server::middleware::RequestId;
use attic::server::state::RequestState;
use base64::engine::general_purpose::URL_SAFE_NO_PAD;
use base64::Engine;

const SECOND: i128 = 1_000_000_000;
const NOW: i128 = 1_700_000_000 * SECOND;

fn provider(name: &str) -> OidcProviderConfig {
    OidcProviderConfig {
        name: name.to_owned(),
        display_name: None,
        mode: OidcProviderMode::GithubActions,
        issuer: "https://issuer.example".to_owned(),
        audience: "https://attic.example/".to_owned(),
        jwks_url: "https://issuer.example/jwks".to_owned(),
        authorization_endpoint: None,
        token_endpoint: Some("https://issuer.example/token".to_owned()),
        scopes: vec!["openid".to_owned()],
        token_validity_seconds: 43200,
        token_validity_nanos: 0,
    }
}

#[test]
fn should_bump_last_accessed_none_is_true() {
    assert!(should_bump_last_accessed(None, NOW));
}

#[test]
fn should_bump_last_accessed_stale_is_true() {
    let two_hours_ago = NOW - 2 * 3600 * SECOND;
    assert!(should_bump_last_accessed(Some(two_hours_ago), NOW));
}

#[test]
fn should_bump_last_accessed_recent_is_false() {
    let one_minute_ago = NOW - 60 * SECOND;
    assert!(!should_bump_last_accessed(Some(one_minute_ago), NOW));
}

#[test]
fn an_access_is_bumped_when_it_is_older_than_an_hour() {
    assert!(should_bump_last_accessed(Some(NOW - 3600 * SECOND - 1), NOW));
    assert!(!should_bump_last_accessed(Some(NOW - 3600 * SECOND), NOW));
    assert!(!should_bump_last_accessed(Some(NOW + SECOND), NOW));
}

#[test]
fn cache_control_public_immutable() {
    let value = cache_control(true, 31_536_000, true);
    assert_eq!(value, "public, max-age=31536000, immutable");
}

#[test]
fn cache_control_private_not_immutable() {
    let value = cache_control(false, 300, false);
    assert_eq!(value, "private, max-age=300");
}

#[test]
fn nars_are_cached_longer_than_redirects() {
    match single_chunk_response(ChunkDownload::Url, true) {
        NarResponse::Redirect { cache_control } => {
            assert_eq!(cache_control, "public, max-age=60");
        }
        NarResponse::Stream { .. } => panic!("a URL is redirected to"),
    }
    match single_chunk_response(ChunkDownload::AsyncRead, false) {
        NarResponse::Stream { cache_control } => {
            assert_eq!(cache_control, "private, max-age=31536000, immutable");
        }
        NarResponse::Redirect { .. } => panic!("a stream is not redirected to"),
    }
    assert!(matches!(
        reassembled_response(true),
        NarResponse::Stream { cache_control } if cache_control == "public, max-age=31536000, immutable"
    ));
    assert_eq!(info_cache_control(false), "private, max-age=300");
}

#[test]
fn paths_are_split_at_the_first_dot() {
    assert_eq!(narinfo_path("abc.narinfo").unwrap(), "abc");
    assert_eq!(nar_path("abc.nar").unwrap(), "abc");
    for path in ["abc", "abc.ls", "abc.narinfo.x", "a.b.narinfo", ""] {
        assert!(matches!(narinfo_path(path), Err(ErrorKind::NotFound)));
    }
    assert!(matches!(nar_path("abc.narinfo"), Err(ErrorKind::NotFound)));
    assert_eq!(nar_path(".nar").unwrap(), "");
}

fn fresh() -> RequestState {
    RequestState {
        request_id: RequestId(0),
        api_endpoint: None,
        substituter_endpoint: None,
        host: "h".to_owned(),
        client_claims_https: false,
        public_cache: false,
    }
}

#[test]
fn refused_clients_are_not_told_whether_a_cache_is_public() {
    let mut state = fresh();
    let refused = admit_pull(&mut state, true, Err(ErrorKind::Unauthorized));
    assert!(matches!(refused, Err(ErrorKind::Unauthorized)));
    assert!(!state.public_cache);
    assert!(admit_pull(&mut state, true, Ok(())).is_ok());
    assert!(state.public_cache);
}

#[test]
fn nars_are_answered_only_to_those_who_may_pull() {
    let hour = 3600 * SECOND;
    let mut state = fresh();
    let no_cache = Err(ErrorKind::NoSuchCache);
    let refused = answer_nar(&mut state, true, no_cache, vec![Some(1)], None, NOW);
    assert!(matches!(refused, Err(ErrorKind::NoSuchCache)));
    let forbidden = Err(ErrorKind::Forbidden);
    let refused = answer_nar::<i32>(&mut state, true, forbidden, vec![None], None, NOW);
    assert!(matches!(refused, Err(ErrorKind::Forbidden)));
    assert!(!state.public_cache);

    let incomplete = answer_nar(&mut state, true, Ok(()), vec![Some(1), None], None, NOW);
    assert!(matches!(incomplete, Err(ErrorKind::IncompleteNar)));
    assert!(state.public_cache);

    let mut state = fresh();
    let answer = answer_nar(&mut state, false, Ok(()), vec![Some(7)], None, NOW).unwrap();
    assert!(matches!(answer.plan, NarPlan::Single(7)));
    assert!(answer.bump);
    assert!(!state.public_cache);
    let recent = Some(NOW - hour);
    let answer = answer_nar(&mut state, true, Ok(()), vec![Some(1), Some(2)], recent, NOW).unwrap();
    assert!(matches!(answer.plan, NarPlan::Reassemble(chunks) if chunks == vec![1, 2]));
    assert!(!answer.bump);
    assert!(state.public_cache);
}

#[test]
fn nars_are_planned_from_their_chunks() {
    assert!(matches!(plan_nar(vec![Some(7)]), Ok(NarPlan::Single(7))));
    match plan_nar(vec![Some(1), Some(2), Some(3)]) {
        Ok(NarPlan::Reassemble(chunks)) => assert_eq!(chunks, vec![1, 2, 3]),
        _ => panic!("several chunks are put together"),
    }
    assert!(matches!(plan_nar(vec![Some(1), None]), Err(ErrorKind::IncompleteNar)));
    assert!(matches!(plan_nar::<i32>(vec![None]), Err(ErrorKind::IncompleteNar)));
    assert!(matches!(plan_nar::<i32>(vec![]), Ok(NarPlan::Reassemble(c)) if c.is_empty()));
    assert!(reassembly_source(ChunkDownload::AsyncRead).is_ok());
    assert_eq!(
        reassembly_source(ChunkDownload::Url).unwrap_err(),
        "URLs not supported for NAR reassembly"
    );
    let info = NixCacheInfo::new("/nix/store".to_owned(), 40);
    assert!(info.want_mass_query);
    assert_eq!((info.store_dir.as_str(), info.priority), ("/nix/store", 40));
}

#[test]
fn missing_chunks_are_those_not_found() {
    let a = attic::hash::Hash::sha256_from_bytes(b"a");
    let b = attic::hash::Hash::sha256_from_bytes(b"b");
    let c = attic::hash::Hash::sha256_from_bytes(b"c");
    let requested = vec![a, b, a, c];
    assert_eq!(requested_hashes(&requested), vec![a, b, c]);
    assert_eq!(query_texts(&vec![a]), vec![a.to_typed_base16()]);
    let found = vec![b.to_typed_base16(), "sha256:other".to_owned()];
    assert_eq!(missing_chunks(&requested, found), vec![a, c]);
    assert!(missing_chunks(&vec![], vec![a.to_typed_base16()]).is_empty());
}

#[test]
fn providers_are_described_to_clients() {
    let mut named = provider("b");
    named.display_name = Some("Named".to_owned());
    let response = providers(&vec![provider("a"), named]);
    assert_eq!(response.providers.len(), 2);
    assert_eq!(response.providers[0].display_name, "a");
    assert_eq!(response.providers[1].display_name, "Named");
    assert_eq!(response.providers[0].scopes, vec!["openid"]);
    assert_eq!(response.providers[0].mode, OidcProviderMode::GithubActions);
    assert!(response.providers[0].authorization_endpoint.is_none());
}

#[test]
fn unknown_providers_are_not_found() {
    let configured = vec![provider("a"), provider("b")];
    assert_eq!(find_provider(&configured, "b").unwrap().name, "b");
    assert!(matches!(find_provider(&configured, "c"), Err(ErrorKind::NotFound)));
}

#[test]
fn grants_are_denied_by_default() {
    let p = provider("gh");
    let granted = grant(&p, &vec![false, true], Some("repo:x")).unwrap();
    assert_eq!(granted.subject, "oidc:gh:repo:x");
    assert_eq!(granted.validity, (43200, 0));
    assert!(matches!(grant(&p, &vec![], Some("s")), Err(ErrorKind::Forbidden)));
    assert!(matches!(grant(&p, &vec![false], None), Err(ErrorKind::Forbidden)));
    assert!(matches!(grant(&p, &vec![true], None), Err(ErrorKind::Unauthorized)));
    let mut long = provider("gh");
    long.token_validity_seconds = 9_223_372_036_854_775;
    long.token_validity_nanos = 807_000_000;
    assert!(grant(&long, &vec![true], Some("s")).is_ok());
    long.token_validity_nanos += 1;
    assert!(matches!(
        grant(&long, &vec![true], Some("s")),
        Err(ErrorKind::RequestError(message))
            if message == "Source duration value is out of range for the target type"
    ));
}

#[test]
fn exchanged_tokens_are_bearer_tokens() {
    let response = exchange_response(&provider("a"), "token".to_owned());
    assert_eq!(response.access_token, "token");
    assert_eq!(response.token_type, "Bearer");
    assert_eq!(response.expires_in, 43200);
}

#[test]
fn headers_are_taken_out_of_base64() {
    let header = URL_SAFE_NO_PAD.encode(r#"{"alg":"RS256"}"#);
    let bytes = parse_header(&format!("{header}.payload.signature")).unwrap();
    assert_eq!(bytes, br#"{"alg":"RS256"}"#);
    assert!(matches!(parse_header(&header), Err(ErrorKind::Unauthorized)));
    assert!(matches!(parse_header("!.x"), Err(ErrorKind::Unauthorized)));
}

#[test]
fn only_rs256_with_a_key_id_is_accepted() {
    assert_eq!(key_id("RS256", Some("k".to_owned())).unwrap(), "k");
    assert!(matches!(key_id("RS256", None), Err(ErrorKind::Unauthorized)));
    assert!(matches!(key_id("HS256", Some("k".to_owned())), Err(ErrorKind::Unauthorized)));
    assert!(matches!(key_id("none", Some("k".to_owned())), Err(ErrorKind::Unauthorized)));
}

fn keys() -> Vec<Json> {
    parse_keyset(
        br#"{"keys":[
            {"kid":"ec","kty":"EC"},
            {"kid":"ec","kty":"RSA","n":"AQAB","e":"AQAB"},
            {"kid":"r","kty":"RSA","n":"AQIDBA","e":"AQAB"},
            {"kid":"ps","kty":"RSA","alg":"PS256","n":"AQ","e":"AQ"},
            {"kid":"rs","kty":"RSA","alg":"RS256","n":"AQ","e":"Ag"},
            {"kid":"bad","kty":"RSA","n":"*","e":"AQ"},
            {"kid":"none","kty":"RSA","n":"AQ"},
            {"kid":7}
        ]}"#,
    )
    .unwrap()
}

#[test]
fn keys_are_selected_by_their_id() {
    let keys = keys();
    assert_eq!(
        key_components(&keys, "r").unwrap(),
        (vec![1, 2, 3, 4], vec![1, 0, 1])
    );
    assert_eq!(key_components(&keys, "rs").unwrap(), (vec![1], vec![2]));
    // Only the first key of an ID counts.
    for kid in ["ec", "ps", "bad", "none", "7", "missing"] {
        assert!(matches!(key_components(&keys, kid), Err(ErrorKind::Unauthorized)));
    }
    assert!(contains_key(&keys, "ec"));
    assert!(!contains_key(&keys, "7"));
}

#[test]
fn key_sets_without_keys_are_unavailable() {
    for body in ["{}", "[]", r#"{"keys":{}}"#, "not json"] {
        assert!(matches!(
            parse_keyset(body.as_bytes()),
            Err(ErrorKind::ServiceUnavailable)
        ));
    }
    assert!(parse_keyset(br#"{"keys":[]}"#).unwrap().is_empty());
}

fn must_fetch(lookup: KeysetLookup) -> Option<Vec<Json>> {
    match lookup {
        KeysetLookup::Use(_) => panic!("the cached keys are used"),
        KeysetLookup::Fetch(cached) => cached,
    }
}

#[test]
fn key_sets_are_refreshed_and_fall_back() {
    let hour: u128 = 3_600_000_000_000;
    let name = "p".to_owned();
    let mut cache = OidcKeysets::new();
    assert!(must_fetch(cache.keyset_for(&name, "r", 0)).is_none());
    let unavailable = || Err(ErrorKind::ServiceUnavailable);
    assert!(matches!(
        cache.fetched(&name, "r", 0, None, unavailable()),
        Err(ErrorKind::ServiceUnavailable)
    ));
    assert!(must_fetch(cache.keyset_for(&name, "r", 0)).is_none());

    assert_eq!(cache.fetched(&name, "r", 10, None, Ok(keys())).unwrap().len(), 8);
    match cache.keyset_for(&name, "r", 9 + hour) {
        KeysetLookup::Use(used) => {
            assert_eq!(key_components(&used, "rs").unwrap(), (vec![1], vec![2]));
            assert_eq!(format!("{:?}", used), format!("{:?}", keys()));
        }
        KeysetLookup::Fetch(_) => panic!("the key set is fresh"),
    }
    let before = must_fetch(cache.keyset_for(&name, "r", 10 + hour));
    assert_eq!(before.as_ref().unwrap().len(), 8);
    assert!(must_fetch(cache.keyset_for(&name, "new", 11)).is_some());
    assert!(must_fetch(cache.keyset_for(&"q".to_owned(), "r", 11)).is_none());

    // A known key survives an outage of the provider; an unknown one does not.
    let now = 10 + 2 * hour;
    let used = cache.fetched(&name, "r", now, before, unavailable()).unwrap();
    assert_eq!(used.len(), 8);
    assert!(cache.fetched(&name, "new", now, Some(used), unavailable()).is_err());

    // What another request has fetched meanwhile does not count.
    let before = must_fetch(cache.keyset_for(&name, "r", now));
    assert!(cache.fetched(&name, "r", now, None, Ok(vec![])).unwrap().is_empty());
    assert_eq!(cache.fetched(&name, "r", now, before, unavailable()).unwrap().len(), 8);
    assert!(must_fetch(cache.keyset_for(&name, "r", now)).unwrap().is_empty());
}
