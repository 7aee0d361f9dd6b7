use attic::names::CacheName;
use attic::server::compression::CompressionStream;
use attic::server::error::ErrorKind;
use attic::server::middleware::{
    client_claims_https, host_header, init_request_state, request_id, request_id_or, restrict_host,
    set_request_id_header, set_visibility_header, RequestId,
};
use attic::server::migration::{
    add_cache_deleted_at_index, add_object_store_path_hash_index, migration_names,
};
use attic::server::state::{
    CacheLookup, CacheMetadata, DatabaseConfig, ParsedKeypairs, RequestState, MAX_PARSED_KEYPAIRS,
};
use uuid::Uuid;

fn state(host: &str) -> RequestState {
    RequestState {
        request_id: RequestId(0),
        api_endpoint: None,
        substituter_endpoint: None,
        host: host.to_owned(),
        client_claims_https: false,
        public_cache: false,
    }
}

fn message(error: ErrorKind) -> String {
    match error {
        ErrorKind::RequestError(message) => message,
        other => panic!("not a request error: {:?}", other),
    }
}

#[test]
fn request_id_reuses_valid_uuid_and_rejects_untrusted_values() {
    let expected = "c5a15b09-459f-4d7d-a424-6e5ed655c379";
    let value = expected.as_bytes().to_vec();
    assert_eq!(request_id(Some(&value)).text(), expected);

    let value = b"not-a-request-id".to_vec();
    assert_ne!(request_id(Some(&value)).text(), "not-a-request-id");
}

#[test]
fn request_id_is_returned_on_middleware_responses() {
    let id = Uuid::parse_str("c5a15b09-459f-4d7d-a424-6e5ed655c379").unwrap();
    let (name, value) = set_request_id_header(RequestId(id.as_u128()));
    assert_eq!(name, "x-request-id");
    assert_eq!(String::from_utf8(value).unwrap(), id.to_string());
}

#[test]
fn missing_and_invalid_ids_are_replaced_by_random_ones() {
    for value in [None, Some(b"invalid".to_vec()), Some(vec![0xff])] {
        let id = request_id(value.as_ref());
        let uuid = Uuid::parse_str(&id.text()).unwrap();
        assert_eq!(uuid.as_u128(), id.0);
        assert_eq!(uuid.get_version_num(), 4);
        assert_eq!(request_id_or(value.as_ref(), 5), RequestId(5));
    }
    assert_ne!(request_id(None), request_id(None));
    let braced = b"{C5A15B09-459F-4D7D-A424-6E5ED655C379}".to_vec();
    assert_eq!(
        request_id(Some(&braced)).text(),
        "c5a15b09-459f-4d7d-a424-6e5ed655c379"
    );
}

#[test]
fn host_headers_have_to_be_there_and_readable() {
    assert_eq!(host_header(Some(&b"attic.example:80".to_vec())).unwrap(), "attic.example:80");
    assert_eq!(message(host_header(None).unwrap_err()), "Missing Host header");
    assert_eq!(
        message(host_header(Some(&vec![b'a', 0x80])).unwrap_err()),
        "Invalid Host header"
    );
}

#[test]
fn hosts_can_be_restricted() {
    let host = b"attic.example".to_vec();
    assert!(restrict_host(&vec![], Some(&host)).is_ok());
    let allowed = vec!["other.example".to_owned(), "attic.example".to_owned()];
    assert!(restrict_host(&allowed, Some(&host)).is_ok());
    let allowed = vec!["other.example".to_owned()];
    assert_eq!(message(restrict_host(&allowed, Some(&host)).unwrap_err()), "Bad Host");
    assert_eq!(message(restrict_host(&vec![], None).unwrap_err()), "Missing Host header");
}

#[test]
fn request_state_is_taken_from_the_headers() {
    let host = b"attic.example".to_vec();
    let https = b"https".to_vec();
    let state = init_request_state(
        RequestId(3),
        Some(&host),
        Some(&https),
        Some("https://api.example/".to_owned()),
        None,
    )
    .unwrap();
    assert_eq!(state.request_id, RequestId(3));
    assert_eq!(state.host, "attic.example");
    assert!(state.client_claims_https);
    assert!(!state.public_cache);
    assert_eq!(state.api_endpoint().unwrap(), "https://api.example/");
    assert!(init_request_state(RequestId(3), None, None, None, None).is_err());
    assert!(!client_claims_https(Some(&b"HTTPS".to_vec())));
    assert!(!client_claims_https(None));
}

#[test]
fn endpoints_are_made_from_the_host_unless_configured() {
    let cache = CacheName::new("main".to_owned());
    let mut request = state("attic.example:8080");
    assert_eq!(request.api_endpoint().unwrap(), "http://attic.example:8080/");
    request.client_claims_https = true;
    assert_eq!(request.api_endpoint().unwrap(), "https://attic.example:8080/");
    assert_eq!(
        request.substituter_endpoint(&cache).unwrap(),
        "https://attic.example:8080/main"
    );
    request.substituter_endpoint = Some("https://cdn.example/".to_owned());
    assert_eq!(request.substituter_endpoint(&cache).unwrap(), "https://cdn.example/main");
    for (host, wrong) in [
        ("", "empty string"),
        ("not a host", "invalid uri character"),
        ("a/b", "invalid uri character"),
    ] {
        assert_eq!(message(state(host).api_endpoint().unwrap_err()), wrong);
        assert_eq!(message(state(host).substituter_endpoint(&cache).unwrap_err()), wrong);
    }
}

#[test]
fn public_caches_are_marked_in_responses() {
    let mut request = state("h");
    assert!(set_visibility_header(&request).is_none());
    request.set_public_cache(true);
    assert_eq!(
        set_visibility_header(&request),
        Some(("X-Attic-Cache-Visibility".to_owned(), "public".to_owned()))
    );
    request.set_public_cache(false);
    assert!(set_visibility_header(&request).is_none());
}

#[test]
fn cache_metadata_is_cached_until_it_changes() {
    let hour: u128 = 3_600_000_000_000;
    let name = CacheName::new("main".to_owned());
    let mut metadata: CacheMetadata<i32> = CacheMetadata::new(hour);
    assert!(matches!(metadata.find_cache_cached(&name), CacheLookup::AskDatabase));

    // A miss is not cached.
    assert!(matches!(
        metadata.database_answered(&name, Err(ErrorKind::NoSuchCache)),
        Err(ErrorKind::NoSuchCache)
    ));
    assert!(matches!(metadata.find_cache_cached(&name), CacheLookup::AskDatabase));

    assert_eq!(metadata.database_answered(&name, Ok(7)).unwrap(), 7);
    assert!(matches!(metadata.find_cache_cached(&name), CacheLookup::Found(7)));
    metadata.invalidate_cache_metadata(&name);
    assert!(matches!(metadata.find_cache_cached(&name), CacheLookup::AskDatabase));

    metadata.database_answered(&name, Ok(8)).unwrap();
    assert!(matches!(metadata.find_cache_at(&name, 100 * hour), CacheLookup::AskDatabase));
    assert!(matches!(metadata.find_cache_cached(&name), CacheLookup::AskDatabase));
}

#[test]
fn cache_metadata_is_not_cached_when_that_is_off() {
    let name = CacheName::new("main".to_owned());
    let mut metadata: CacheMetadata<i32> = CacheMetadata::new(0);
    assert_eq!(metadata.database_answered(&name, Ok(7)).unwrap(), 7);
    assert!(matches!(metadata.find_cache_cached(&name), CacheLookup::AskDatabase));
}

#[test]
fn parsed_keypairs_are_kept_up_to_a_limit() {
    let mut keypairs: ParsedKeypairs<usize> = ParsedKeypairs::new();
    let text = |i: usize| format!("keypair-{i}");
    for i in 0..MAX_PARSED_KEYPAIRS {
        keypairs.insert(&text(i), i);
    }
    for i in 0..MAX_PARSED_KEYPAIRS {
        assert_eq!(keypairs.get(&text(i)), Some(&i));
    }
    assert_eq!(keypairs.get(&text(1000)), None);
    let failed = keypairs.parsed(&text(999), Err(ErrorKind::InvalidKeypair("bad".to_owned())));
    assert!(matches!(failed, Err(ErrorKind::InvalidKeypair(message)) if message == "bad"));
    assert_eq!(keypairs.get(&text(999)), None);
    assert_eq!(keypairs.get(&text(0)), Some(&0));
    assert_eq!(keypairs.parsed(&text(1000), Ok(1000)).unwrap(), 1000);
    assert_eq!(keypairs.get(&text(1000)), Some(&1000));
    assert_eq!(keypairs.get(&text(0)), None);
}

#[test]
fn migrations_run_on_a_single_connection() {
    let config = DatabaseConfig {
        url: "sqlite://server.db".to_owned(),
        heartbeat: true,
        max_connections: Some(10),
        min_connections: Some(2),
        idle_timeout: None,
        busy_timeout: 5,
        mmap_size: 1,
    };
    assert!(config.is_sqlite());
    let config = config.for_migrations();
    assert_eq!(config.max_connections, Some(1));
    assert_eq!(config.min_connections, None);
    assert_eq!(config.url, "sqlite://server.db");
    assert!(config.heartbeat);
    let postgres = DatabaseConfig { url: "postgres://x".to_owned(), ..config };
    assert!(!postgres.is_sqlite());
}

#[test]
fn migrations_are_in_order() {
    let names = migration_names();
    assert_eq!(names.len(), 15);
    assert!(names.windows(2).all(|pair| pair[0] < pair[1]));
    assert_eq!(add_cache_deleted_at_index().index, "idx-cache-deleted-at");
    assert_eq!(add_object_store_path_hash_index().index, "idx-object-store-path-hash");
}

#[test]
fn with_precomputed_nar_hash_matches_new() {
    // A few hundred KiB of deterministic data.
    let data: Vec<u8> = (0..300 * 1024u32).map(|i| (i.wrapping_mul(2_654_435_761) >> 24) as u8).collect();
    let nar_hash = attic::hash::Hash::sha256_from_bytes(&data);
    let nar_size = data.len();

    // The regular constructor hashes the uncompressed data as it flows through.
    let mut stream_new = CompressionStream::new();
    for piece in data.chunks(8192) {
        stream_new.nar_read(piece);
        stream_new.file_read(piece);
    }
    assert!(stream_new.nar_hash_and_size().is_none());
    assert!(stream_new.file_hash_and_size().is_none());
    stream_new.nar_read(&[]);
    stream_new.file_read(&[]);

    // The other one is seeded with the hash and size computed above.
    let mut stream_precomputed = CompressionStream::with_precomputed_nar_hash((nar_hash, nar_size));
    for piece in data.chunks(1000) {
        stream_precomputed.nar_read(piece);
        stream_precomputed.file_read(piece);
    }
    stream_precomputed.nar_read(&[]);
    stream_precomputed.file_read(&[]);

    // The file hash and size must be identical either way.
    assert_eq!(
        stream_new.file_hash_and_size(),
        stream_precomputed.file_hash_and_size()
    );
    assert!(stream_new.file_hash_and_size().is_some());

    // The precomputed NAR hash and size must be exactly what was seeded in.
    assert_eq!(
        stream_precomputed.nar_hash_and_size(),
        Some(&(nar_hash, nar_size))
    );
    assert_eq!(stream_new.nar_hash_and_size(), Some(&(nar_hash, nar_size)));
}
