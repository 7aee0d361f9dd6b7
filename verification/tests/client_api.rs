use attic::client::api::upload::{
    full_jitter_backoff, full_jitter_backoff_with, retry_delay, retryable_upload_status,
    upload_content_length, upload_path_metadata, RetryStep, UploadAttemptError, UploadPathMetadata,
    UploadRetries, UPLOAD_BACKOFF_CAP, UPLOAD_MAX_ATTEMPTS,
};
use attic::client::api::{
    build_http_client, is_success, retry_after, user_agent, ApiClient, ApiError, Method,
    ServerConfig, StructuredApiError,
};
use attic::client::error::ClientError;
use attic::names::{CacheName, StorePathHash};
use bytes::Bytes;

const MILLISECOND: u128 = 1_000_000;
const SECOND: u128 = 1_000_000_000;

fn http_error(status: u16, retry_after: Option<u128>) -> UploadAttemptError {
    UploadAttemptError::Http(ApiError::Unstructured {
        status,
        message: String::new(),
        retry_after,
    })
}

fn client() -> ApiClient {
    let config = ServerConfig { endpoint: "https://attic.example/".to_owned(), token: None };
    ApiClient::from_server_config(&config).unwrap()
}

#[test]
fn metadata_mode_and_content_length_are_wire_compatible() {
    let header = upload_path_metadata("{}".to_owned(), false).unwrap();
    assert!(matches!(header, UploadPathMetadata::Header(_)));
    assert_eq!(upload_content_length(&header, 42).unwrap(), 42);

    let preamble = upload_path_metadata("{}".to_owned(), true).unwrap();
    assert!(matches!(preamble, UploadPathMetadata::Preamble(_)));
    assert_eq!(upload_content_length(&preamble, 42).unwrap(), 44);
}

#[test]
fn content_length_overflow_is_rejected() {
    let metadata = UploadPathMetadata::Preamble(Bytes::from_static(b"x"));
    if usize::BITS == 64 {
        let error = upload_content_length(&metadata, usize::MAX).unwrap_err();
        assert_eq!(error.text(), "upload Content-Length overflow");
    } else {
        assert_eq!(
            upload_content_length(&metadata, usize::MAX).unwrap(),
            u64::from(usize::MAX as u32) + 1
        );
    }
}

#[test]
fn retry_classification_is_limited_to_transient_statuses() {
    for status in [408, 429, 499, 500, 502, 503, 504] {
        assert!(retryable_upload_status(status));
    }
    for status in [400, 401, 403, 404, 409, 413, 422, 501] {
        assert!(!retryable_upload_status(status));
    }
}

#[test]
fn full_jitter_backoff_is_capped() {
    assert_eq!(full_jitter_backoff_with(1, |cap| cap), 500 * MILLISECOND);
    assert_eq!(full_jitter_backoff_with(2, |cap| cap), SECOND);
    assert_eq!(full_jitter_backoff_with(10, |cap| cap), UPLOAD_BACKOFF_CAP);
    assert_eq!(
        retry_delay(&http_error(503, Some(10 * SECOND)), 1),
        Some(UPLOAD_BACKOFF_CAP)
    );

    assert_eq!(retry_after(Some(&b"2".to_vec()), 0), Some(2 * SECOND));
}

#[test]
fn synthetic_transport_error_reinvokes_attempt_factory() {
    let mut attempts = Vec::new();
    let mut slept = Vec::new();
    let mut retries = UploadRetries::new();
    let outcome = loop {
        let attempt = retries.attempt();
        attempts.push(attempt);
        if attempt == 1 {
            let error = UploadAttemptError::Transport("connection closed".to_owned());
            match retries.failed(&error) {
                RetryStep::Retry { delay } => slept.push(delay),
                RetryStep::Stop => panic!("a transport error is retried"),
            }
        } else {
            break retries.succeeded("retried");
        }
    };

    assert_eq!(outcome.value, "retried");
    assert_eq!(outcome.attempts, 2);
    assert_eq!(attempts, [1, 2]);
    assert_eq!(slept.len(), 1);
    assert!(slept[0] <= 500 * MILLISECOND);
}

#[test]
fn synthetic_transient_status_retries_after_unknown_outcome() {
    let mut retries = UploadRetries::new();
    assert!(matches!(retries.failed(&http_error(503, None)), RetryStep::Retry { .. }));
    let outcome = retries.succeeded(());
    assert_eq!(outcome.attempts, 2);
}

#[test]
fn retries_stop_after_three_attempts_and_not_for_permanent_errors() {
    let mut attempts = 0;
    let mut retries = UploadRetries::new();
    loop {
        attempts += 1;
        if let RetryStep::Stop = retries.failed(&http_error(503, None)) {
            break;
        }
    }
    assert_eq!(attempts, UPLOAD_MAX_ATTEMPTS);

    let mut permanent_attempts = 0;
    let mut retries = UploadRetries::new();
    loop {
        permanent_attempts += 1;
        if let RetryStep::Stop = retries.failed(&http_error(401, None)) {
            break;
        }
    }
    assert_eq!(permanent_attempts, 1);
}

#[test]
fn chosen_jitter_is_used_unless_the_server_prescribes_a_delay() {
    let mut retries = UploadRetries::new();
    match retries.failed_with(&http_error(503, None), 123) {
        RetryStep::Retry { delay } => assert_eq!(delay, 123),
        RetryStep::Stop => panic!("503 is transient"),
    }
    match retries.failed_with(&http_error(429, Some(2 * SECOND)), 123) {
        RetryStep::Retry { delay } => assert_eq!(delay, 2 * SECOND),
        RetryStep::Stop => panic!("429 is transient"),
    }
    assert_eq!(retries.attempt(), 3);
    assert!(matches!(retries.failed_with(&http_error(503, None), 0), RetryStep::Stop));
}

#[test]
fn random_backoff_is_whole_milliseconds_below_the_cap() {
    for attempt in 1..8 {
        let delay = full_jitter_backoff(attempt);
        assert!(delay <= UPLOAD_BACKOFF_CAP);
        assert_eq!(delay % MILLISECOND, 0);
    }
    assert_eq!(full_jitter_backoff_with(3, |_| 7), 7);
    assert_eq!(full_jitter_backoff_with(4, |cap| cap), 4 * SECOND);
    assert_eq!(full_jitter_backoff_with(0, |cap| cap + 1), 500 * MILLISECOND);
    assert_eq!(full_jitter_backoff_with(usize::MAX, |cap| cap), UPLOAD_BACKOFF_CAP);
    // With this many draws, not all of them are the same.
    let draws: Vec<u128> = (0..64).map(|_| full_jitter_backoff(10)).collect();
    assert!(draws.iter().any(|d| *d != draws[0]));
}

#[test]
fn long_upload_info_goes_into_the_preamble() {
    let long = "x".repeat(4096);
    let metadata = upload_path_metadata(long, false).unwrap();
    assert!(matches!(metadata, UploadPathMetadata::Preamble(bytes) if bytes.len() == 4096));
    let short = "x".repeat(4095);
    let metadata = upload_path_metadata(short, false).unwrap();
    assert!(matches!(metadata, UploadPathMetadata::Header(value) if value.len() == 4095));
}

#[test]
fn upload_info_that_is_no_header_value_is_rejected() {
    let error = upload_path_metadata("a\nb".to_owned(), false).unwrap_err();
    assert!(matches!(error, ClientError::InvalidHeaderValue));
    assert!(upload_path_metadata("a\nb".to_owned(), true).is_ok());
}

#[test]
fn retry_after_is_a_number_or_a_date() {
    let date = b"Fri, 15 May 2015 15:34:21 GMT".to_vec();
    // 1431704061 seconds after the epoch.
    assert_eq!(
        retry_after(Some(&date), 1_431_704_051_000_000_000),
        Some(10 * SECOND)
    );
    assert_eq!(retry_after(Some(&date), 1_431_704_061_000_000_000), Some(0));
    assert_eq!(retry_after(Some(&date), 1_531_704_061_000_000_000), Some(0));
    assert_eq!(retry_after(Some(&b"soon".to_vec()), 0), None);
    assert_eq!(retry_after(Some(&b"-1".to_vec()), 0), None);
    assert_eq!(retry_after(Some(&vec![0xff]), 0), None);
    assert_eq!(retry_after(Some(&b"+3".to_vec()), 0), Some(3 * SECOND));
    assert_eq!(retry_after(None, 0), None);
}

#[test]
fn requests_go_to_their_endpoints() {
    let client = client();
    let cache = CacheName::new("main".to_owned());
    let url = "https://attic.example/_api/v1/cache-config/main";

    let request = client.list_caches().unwrap();
    assert_eq!(request.method, Method::Get);
    assert_eq!(request.url, "https://attic.example/_api/v1/cache-config");

    let request = client.get_cache_config(&cache).unwrap();
    assert_eq!((request.method, request.url.as_str()), (Method::Get, url));
    let request = client.create_cache(&cache).unwrap();
    assert_eq!((request.method, request.url.as_str()), (Method::Post, url));
    let request = client.configure_cache(&cache).unwrap();
    assert_eq!((request.method, request.url.as_str()), (Method::Patch, url));
    let request = client.destroy_cache(&cache).unwrap();
    assert_eq!((request.method, request.url.as_str()), (Method::Delete, url));

    let hash = StorePathHash::new("h".to_owned());
    let (request, payload) = client.get_missing_paths(&cache, vec![hash]);
    assert_eq!(request.unwrap().url, "https://attic.example/_api/v1/get-missing-paths");
    assert_eq!(payload.cache.as_str(), "main");
    assert_eq!(payload.store_path_hashes.len(), 1);

    let (request, payload) = client.get_missing_chunks(&cache, vec![]);
    assert_eq!(request.unwrap().url, "https://attic.example/_api/v1/get-missing-chunks");
    assert!(payload.chunk_hashes.is_empty());

    let request = ApiClient::oidc_providers("https://attic.example").unwrap();
    assert_eq!(request.url, "https://attic.example/_api/v1/auth/oidc/providers");
    let (request, payload) = ApiClient::exchange_oidc_token("https://attic.example/", "p", "t");
    let request = request.unwrap();
    assert_eq!(request.method, Method::Post);
    assert_eq!(request.url, "https://attic.example/_api/v1/auth/oidc/exchange");
    assert_eq!((payload.provider.as_str(), payload.id_token.as_str()), ("p", "t"));
}

#[test]
fn an_endpoint_that_is_no_url_is_rejected() {
    let config = ServerConfig { endpoint: "not a url".to_owned(), token: None };
    assert!(matches!(
        ApiClient::from_server_config(&config),
        Err(ClientError::InvalidUrl(message)) if message == "relative URL without a base"
    ));
    let mut client = client();
    let error = client.set_endpoint("::").unwrap_err();
    assert_eq!(error.text(), "relative URL without a base");
    assert_eq!(
        client.set_endpoint("http://[::1").unwrap_err().text(),
        "invalid IPv6 address"
    );
    assert!(matches!(
        ApiClient::oidc_providers("data:text/plain,x"),
        Err(ClientError::InvalidUrl(message))
            if message == "relative URL with a cannot-be-a-base base"
    ));
    assert_eq!(client.list_caches().unwrap().url, "https://attic.example/_api/v1/cache-config");
    client.set_endpoint("http://other.example/attic/").unwrap();
    assert_eq!(
        client.list_caches().unwrap().url,
        "http://other.example/attic/_api/v1/cache-config"
    );
    assert!(ApiClient::oidc_providers("nowhere").is_err());
}

#[test]
fn prepared_uploads_carry_their_headers() {
    let client = client();
    let request = client.prepare_upload_path("{}".to_owned(), false, 10).unwrap();
    assert_eq!(request.endpoint, "https://attic.example/_api/v1/upload-path");
    assert_eq!(request.content_length, 10);
    let headers = request.headers();
    assert_eq!(headers[0], ("content-length".to_owned(), b"10".to_vec()));
    assert_eq!(headers[1], ("X-Attic-Nar-Info".to_owned(), b"{}".to_vec()));

    let request = client.prepare_upload_path("{\"a\":1}".to_owned(), true, 10).unwrap();
    assert_eq!(request.content_length, 17);
    let headers = request.headers();
    assert_eq!(headers[0].1, b"17".to_vec());
    assert_eq!(
        headers[1],
        ("X-Attic-Nar-Info-Preamble-Size".to_owned(), b"7".to_vec())
    );
}

#[test]
fn errors_have_their_messages() {
    let structured = ApiError::try_from_response(
        404,
        None,
        "{}".to_owned(),
        Some(StructuredApiError {
            code: 404,
            error: "NoSuchCache".to_owned(),
            message: "The requested cache does not exist.".to_owned(),
        }),
    );
    assert_eq!(structured.text(), "NoSuchCache: The requested cache does not exist.");
    assert_eq!(structured.status(), 404);

    let unstructured = ApiError::try_from_response(503, Some(5), "busy".to_owned(), None);
    assert_eq!(unstructured.text(), "HTTP 503 Service Unavailable: busy");
    assert_eq!(unstructured.retry_after(), Some(5));
    let unknown = ApiError::try_from_response(599, None, "?".to_owned(), None);
    assert_eq!(unknown.text(), "HTTP 599 <unknown status code>: ?");
}

#[test]
fn success_is_two_hundred_and_something() {
    assert!(is_success(200));
    assert!(is_success(299));
    assert!(!is_success(199));
    assert!(!is_success(300));
}

#[test]
fn clients_introduce_themselves() {
    let agent = user_agent("attic-client", "unknown");
    assert_eq!(agent, "Attic/attic-client (unknown)");
    let headers = build_http_client(&agent, Some("secret"));
    assert_eq!(headers.len(), 2);
    assert_eq!(headers[0].0, "user-agent");
    assert_eq!(headers[1].0, "authorization");
    assert_eq!(headers[1].1, b"bearer secret".to_vec());
    assert_eq!(build_http_client(&agent, None).len(), 1);
}
