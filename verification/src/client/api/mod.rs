//! The Attic API client.
use reqwest::StatusCode;
use vstd::prelude::*;
use vstd::utf8::encode_utf8;

use crate::api::get_missing_chunks::GetMissingChunksRequest;
use crate::api::get_missing_paths::GetMissingPathsRequest;
use crate::byte_buf::bytes_of;
use crate::client::api::upload::{
    upload_content_length, upload_path_metadata, UploadPathMetadata, UploadPathRequest,
    NAR_INFO_PREAMBLE_THRESHOLD,
};
use crate::client::error::ClientError;
use crate::encoding::{
    ascii_text, header_text, header_text_byte, header_value, readable_header, valid_header_text,
};
use crate::hash;
use crate::names::{CacheName, StorePathHash};
use crate::text::{concat2, concat3, decimal_value, is_digit, parse_u64, u64_of_text};
use crate::urls::{joined_url, parsed_url, url_join, url_parse};

pub mod upload;

verus! {

/// What the server says of an error, in JSON.
#[derive(Debug)]
pub struct StructuredApiError {
    pub code: u16,
    pub error: String,
    pub message: String,
}

/// An API error.
#[derive(Debug)]
pub enum ApiError {
    Structured {
        error: StructuredApiError,
        status: u16,

        /// How long to wait, in nanoseconds.
        retry_after: Option<u128>,
    },
    Unstructured {
        status: u16,
        message: String,

        /// How long to wait, in nanoseconds.
        retry_after: Option<u128>,
    },
}

/// The name of a status, such as `404 Not Found`.
pub uninterp spec fn status_line(status: u16) -> Seq<char>;

/// `StatusCode::fmt`: the number of a status and its canonical reason, which depend on the number
/// alone.
#[verifier::external_body]
fn status_text(status: u16) -> (r: String)
    requires
        100 <= status < 1000,
    ensures
        r@ == status_line(status),
{
    StatusCode::from_u16(status).map(|status| status.to_string()).unwrap_or_default()
}

/// Whether a status says that the request was successful.
pub fn is_success(status: u16) -> (r: bool)
    ensures
        r == (200 <= status < 300),
{
    200 <= status && status < 300
}

impl ApiError {
    /// The status of the response.
    pub open spec fn spec_status(&self) -> u16 {
        match self {
            ApiError::Structured { error, status, retry_after } => *status,
            ApiError::Unstructured { status, message, retry_after } => *status,
        }
    }

    /// How long the server asked to wait.
    pub open spec fn spec_retry_after(&self) -> Option<u128> {
        match self {
            ApiError::Structured { error, status, retry_after } => *retry_after,
            ApiError::Unstructured { status, message, retry_after } => *retry_after,
        }
    }

    /// The error that a response is: `structured` is what its `text` holds as JSON, if it does.
    pub fn try_from_response(
        status: u16,
        retry_after: Option<u128>,
        text: String,
        structured: Option<StructuredApiError>,
    ) -> (r: ApiError)
        ensures
            r == (match structured {
                Some(error) => ApiError::Structured { error, status, retry_after },
                None => ApiError::Unstructured { status, message: text, retry_after },
            }),
    {
        match structured {
            Some(error) => ApiError::Structured { error, status, retry_after },
            None => ApiError::Unstructured { status, message: text, retry_after },
        }
    }

    /// The status of the response.
    pub fn status(&self) -> (r: u16)
        ensures
            r == self.spec_status(),
    {
        match self {
            ApiError::Structured { error, status, retry_after } => *status,
            ApiError::Unstructured { status, message, retry_after } => *status,
        }
    }

    /// How long the server asked to wait, in nanoseconds.
    pub fn retry_after(&self) -> (r: Option<u128>)
        ensures
            r == self.spec_retry_after(),
    {
        match self {
            ApiError::Structured { error, status, retry_after } => *retry_after,
            ApiError::Unstructured { status, message, retry_after } => *retry_after,
        }
    }

    /// The message.
    pub fn text(&self) -> (r: String)
        requires
            100 <= self.spec_status() < 1000,
        ensures
            r@ == (match self {
                ApiError::Structured { error, status, retry_after } => {
                    error.error@ + ": "@ + error.message@
                },
                ApiError::Unstructured { status, message, retry_after } => {
                    "HTTP "@ + status_line(*status) + ": "@ + message@
                },
            }),
    {
        match self {
            ApiError::Structured { error, status, retry_after } => error.text(),
            ApiError::Unstructured { status, message, retry_after } => {
                let mut r = concat3("HTTP ", status_text(*status).as_str(), ": ");
                r.append(message.as_str());
                r
            },
        }
    }
}

impl StructuredApiError {
    /// The message.
    pub fn text(&self) -> (r: String)
        ensures
            r@ == self.error@ + ": "@ + self.message@,
    {
        concat3(self.error.as_str(), ": ", self.message.as_str())
    }
}

/// The time that an HTTP date stands for, in seconds since the Unix epoch; `None` if `text` is no
/// HTTP date.
pub uninterp spec fn http_date(text: Seq<char>) -> Option<u64>;

/// `httpdate::parse_http_date`: the time that `text` stands for, which is a whole number of seconds
/// after the Unix epoch and depends on the text alone.
#[verifier::external_body]
fn parse_http_date(text: &str) -> (r: Option<u64>)
    ensures
        r == http_date(text@),
{
    let date = httpdate::parse_http_date(text).ok()?;
    date.duration_since(std::time::SystemTime::UNIX_EPOCH).ok().map(|since| since.as_secs())
}

/// The earliest time that a clock can show, in nanoseconds since the Unix epoch.
pub const EARLIEST_TIME: i128 = -9_223_372_036_854_775_808_000_000_000;

/// The delay that a `Retry-After` header with the readable value `text` asks for, at the time `now`:
/// a number of seconds, or the time until a date.
pub open spec fn delay_of(text: Seq<char>, now: i128) -> Option<u128> {
    match u64_of_text(text) {
        Some(seconds) => Some((seconds * 1_000_000_000) as u128),
        None => match http_date(text) {
            Some(date) => Some(
                if date * 1_000_000_000 > now {
                    (date * 1_000_000_000 - now) as u128
                } else {
                    0
                },
            ),
            None => None,
        },
    }
}

/// The delay that a `Retry-After` header asks for, in nanoseconds. `now` is the time since the Unix
/// epoch, in nanoseconds.
pub fn retry_after(value: Option<&Vec<u8>>, now: i128) -> (r: Option<u128>)
    requires
        now >= EARLIEST_TIME,
    ensures
        r == (match value {
            Some(value) => if readable_header(value@) {
                delay_of(ascii_text(value@), now)
            } else {
                None
            },
            None => None,
        }),
{
    let text = match value {
        Some(value) => match header_text(value.as_slice()) {
            Some(text) => text,
            None => {
                return None;
            },
        },
        None => {
            return None;
        },
    };
    match parse_u64(text.as_str()) {
        Some(seconds) => Some(seconds as u128 * 1_000_000_000),
        None => match parse_http_date(text.as_str()) {
            Some(date) => {
                let date: i128 = date as i128 * 1_000_000_000;
                if date > now {
                    Some((date - now) as u128)
                } else {
                    Some(0)
                }
            },
            None => None,
        },
    }
}

/// A server-advertised OIDC login provider.
#[derive(Debug)]
pub struct OidcProvider {
    pub name: String,
    pub display_name: String,
    pub mode: OidcProviderMode,
    pub issuer: String,
    pub audience: String,
    pub authorization_endpoint: Option<String>,
    pub token_endpoint: Option<String>,
    pub scopes: Vec<String>,
}

/// How to log in with a provider.
#[derive(Clone, Copy, Debug, PartialEq, Eq, Structural)]
pub enum OidcProviderMode {
    AuthorizationCodePkce,
    GithubActions,
}

/// The payload of a token exchange.
#[derive(Debug)]
pub struct OidcExchangeRequest {
    pub provider: String,
    pub id_token: String,
}

/// What the client is configured to know of a server.
#[derive(Debug)]
pub struct ServerConfig {
    /// The base endpoint.
    pub endpoint: String,

    /// The access token.
    pub token: Option<String>,
}

/// An HTTP method.
#[derive(Clone, Copy, Debug, PartialEq, Eq, Structural)]
pub enum Method {
    Get,
    Post,
    Put,
    Patch,
    Delete,
}

/// Where to send a request.
#[derive(Debug)]
pub struct ApiRequest {
    pub method: Method,
    pub url: String,
}

/// The Attic API client.
#[derive(Debug)]
pub struct ApiClient {
    endpoint: String,
}

impl Clone for ApiClient {
    fn clone(&self) -> (r: Self)
        ensures
            r == *self,
    {
        ApiClient { endpoint: self.endpoint.clone() }
    }
}

/// The User-Agent string of a client.
pub fn user_agent(package: &str, distributor: &str) -> (r: String)
    ensures
        r@ == "Attic/"@ + package@ + " ("@ + distributor@ + ")"@,
{
    let mut r = concat3("Attic/", package, " (");
    r.append(distributor);
    r.append(")");
    r
}

/// The headers that go with every request of a client with the given token.
pub fn build_http_client(user_agent: &str, token: Option<&str>) -> (r: Vec<(String, Vec<u8>)>)
    requires
        valid_header_text(user_agent@),
        token matches Some(token) ==> valid_header_text("bearer "@ + token@),
    ensures
        r@.len() == (if token is Some {
            2int
        } else {
            1
        }),
        r@[0].0@ == "user-agent"@,
        r@[0].1@ == encode_utf8(user_agent@),
        token matches Some(token) ==> r@[1].0@ == "authorization"@ && r@[1].1@ == encode_utf8(
            "bearer "@ + token@,
        ),
{
    let mut headers: Vec<(String, Vec<u8>)> = Vec::new();
    match header_value(user_agent) {
        Some(value) => headers.push(("user-agent".to_owned(), value)),
        None => {},
    }
    match token {
        Some(token) => {
            let text = concat2("bearer ", token);
            match header_value(text.as_str()) {
                Some(value) => headers.push(("authorization".to_owned(), value)),
                None => {},
            }
        },
        None => {},
    }
    headers
}

/// The result is a request to the given URL, or there is none because there is no such URL.
pub open spec fn requests(
    r: Result<ApiRequest, ClientError>,
    method: Method,
    url: Result<Seq<char>, Seq<char>>,
) -> bool {
    match r {
        Ok(request) => request.method == method && url == Ok::<Seq<char>, Seq<char>>(request.url@),
        Err(ClientError::InvalidUrl(message)) => url == Err::<Seq<char>, Seq<char>>(message@),
        Err(error) => false,
    }
}

/// The endpoint of the configuration of `cache`, on the server at `endpoint`.
pub open spec fn cache_config_url(endpoint: Seq<char>, cache: Seq<char>) -> Result<
    Seq<char>,
    Seq<char>,
> {
    match joined_url(endpoint, "_api/v1/cache-config/"@) {
        Ok(base) => joined_url(base, cache),
        Err(message) => Err(message),
    }
}

fn request_to(method: Method, endpoint: &str, path: &str) -> (r: Result<ApiRequest, ClientError>)
    ensures
        requests(r, method, joined_url(endpoint@, path@)),
{
    match url_join(endpoint, path) {
        Ok(url) => Ok(ApiRequest { method, url }),
        Err(message) => Err(ClientError::InvalidUrl(message)),
    }
}

impl View for ApiClient {
    type V = Seq<char>;

    /// The base endpoint of the server.
    closed spec fn view(&self) -> Seq<char> {
        self.endpoint@
    }
}

impl ApiClient {
    /// Asks for the OIDC providers configured by an Attic server.
    pub fn oidc_providers(endpoint: &str) -> (r: Result<ApiRequest, ClientError>)
        ensures
            requests(r, Method::Get, joined_url(endpoint@, "_api/v1/auth/oidc/providers"@)),
    {
        request_to(Method::Get, endpoint, "_api/v1/auth/oidc/providers")
    }

    /// Exchanges a provider ID token for a short-lived Attic token.
    pub fn exchange_oidc_token(endpoint: &str, provider: &str, id_token: &str) -> (r: (
        Result<ApiRequest, ClientError>,
        OidcExchangeRequest,
    ))
        ensures
            requests(r.0, Method::Post, joined_url(endpoint@, "_api/v1/auth/oidc/exchange"@)),
            r.1.provider@ == provider@,
            r.1.id_token@ == id_token@,
    {
        (
            request_to(Method::Post, endpoint, "_api/v1/auth/oidc/exchange"),
            OidcExchangeRequest { provider: provider.to_owned(), id_token: id_token.to_owned() },
        )
    }

    /// A client of the configured server.
    pub fn from_server_config(config: &ServerConfig) -> (r: Result<ApiClient, ClientError>)
        ensures
            match r {
                Ok(client) => parsed_url(config.endpoint@) == Ok::<Seq<char>, Seq<char>>(client@),
                Err(ClientError::InvalidUrl(message)) => {
                    parsed_url(config.endpoint@) == Err::<Seq<char>, Seq<char>>(message@)
                },
                Err(error) => false,
            },
    {
        match url_parse(config.endpoint.as_str()) {
            Ok(endpoint) => Ok(ApiClient { endpoint }),
            Err(message) => Err(ClientError::InvalidUrl(message)),
        }
    }

    /// Sets the API endpoint of this client; it is kept if `endpoint` is no URL.
    pub fn set_endpoint(&mut self, endpoint: &str) -> (r: Result<(), ClientError>)
        ensures
            match r {
                Ok(unit) => parsed_url(endpoint@) == Ok::<Seq<char>, Seq<char>>(final(self)@),
                Err(ClientError::InvalidUrl(message)) => {
                    &&& parsed_url(endpoint@) == Err::<Seq<char>, Seq<char>>(message@)
                    &&& *final(self) == *old(self)
                },
                Err(error) => false,
            },
    {
        match url_parse(endpoint) {
            Ok(endpoint) => {
                self.endpoint = endpoint;
                Ok(())
            },
            Err(message) => Err(ClientError::InvalidUrl(message)),
        }
    }

    /// Lists the caches discoverable by the caller.
    pub fn list_caches(&self) -> (r: Result<ApiRequest, ClientError>)
        ensures
            requests(r, Method::Get, joined_url(self@, "_api/v1/cache-config"@)),
    {
        request_to(Method::Get, self.endpoint.as_str(), "_api/v1/cache-config")
    }

    fn cache_config_request(&self, method: Method, cache: &CacheName) -> (r: Result<
        ApiRequest,
        ClientError,
    >)
        ensures
            requests(r, method, cache_config_url(self@, cache@)),
    {
        match url_join(self.endpoint.as_str(), "_api/v1/cache-config/") {
            Ok(base) => request_to(method, base.as_str(), cache.as_str()),
            Err(message) => Err(ClientError::InvalidUrl(message)),
        }
    }

    /// Asks for the configuration of a cache.
    pub fn get_cache_config(&self, cache: &CacheName) -> (r: Result<ApiRequest, ClientError>)
        ensures
            requests(r, Method::Get, cache_config_url(self@, cache@)),
    {
        self.cache_config_request(Method::Get, cache)
    }

    /// Creates a cache.
    pub fn create_cache(&self, cache: &CacheName) -> (r: Result<ApiRequest, ClientError>)
        ensures
            requests(r, Method::Post, cache_config_url(self@, cache@)),
    {
        self.cache_config_request(Method::Post, cache)
    }

    /// Configures a cache.
    pub fn configure_cache(&self, cache: &CacheName) -> (r: Result<ApiRequest, ClientError>)
        ensures
            requests(r, Method::Patch, cache_config_url(self@, cache@)),
    {
        self.cache_config_request(Method::Patch, cache)
    }

    /// Destroys a cache.
    pub fn destroy_cache(&self, cache: &CacheName) -> (r: Result<ApiRequest, ClientError>)
        ensures
            requests(r, Method::Delete, cache_config_url(self@, cache@)),
    {
        self.cache_config_request(Method::Delete, cache)
    }

    /// Asks for the paths missing from a cache.
    pub fn get_missing_paths(
        &self,
        cache: &CacheName,
        store_path_hashes: Vec<StorePathHash>,
    ) -> (r: (Result<ApiRequest, ClientError>, GetMissingPathsRequest))
        ensures
            requests(r.0, Method::Post, joined_url(self@, "_api/v1/get-missing-paths"@)),
            r.1.cache@ == cache@,
            r.1.store_path_hashes == store_path_hashes,
    {
        (
            request_to(Method::Post, self.endpoint.as_str(), "_api/v1/get-missing-paths"),
            GetMissingPathsRequest { cache: cache.clone(), store_path_hashes },
        )
    }

    /// Asks for the chunks missing from a cache.
    pub fn get_missing_chunks(&self, cache: &CacheName, chunk_hashes: Vec<hash::Hash>) -> (r: (
        Result<ApiRequest, ClientError>,
        GetMissingChunksRequest,
    ))
        ensures
            requests(r.0, Method::Post, joined_url(self@, "_api/v1/get-missing-chunks"@)),
            r.1.cache@ == cache@,
            r.1.chunk_hashes == chunk_hashes,
    {
        (
            request_to(Method::Post, self.endpoint.as_str(), "_api/v1/get-missing-chunks"),
            GetMissingChunksRequest { cache: cache.clone(), chunk_hashes },
        )
    }

    /// Prepares the upload of a path, of which `upload_info_json` is the upload info.
    ///
    /// `body_size` is the number of bytes the request body will actually contain. This is the size
    /// of the NAR for a normal (non-negotiated) upload, but for a negotiated (chunk-manifest) upload
    /// the body only contains the manifest's `inline` entries, which is smaller than the full NAR.
    pub fn prepare_upload_path(
        &self,
        upload_info_json: String,
        force_preamble: bool,
        body_size: usize,
    ) -> (r: Result<UploadPathRequest, ClientError>)
        ensures
            ({
                let url = joined_url(self@, "_api/v1/upload-path"@);
                let json = encode_utf8(upload_info_json@);
                let preamble = force_preamble || json.len() >= NAR_INFO_PREAMBLE_THRESHOLD;
                let length = body_size + (if preamble {
                    json.len() as int
                } else {
                    0
                });
                match r {
                    Ok(request) => {
                        &&& url == Ok::<Seq<char>, Seq<char>>(request.endpoint@)
                        &&& request.metadata is Preamble <==> preamble
                        &&& preamble || valid_header_text(upload_info_json@)
                        &&& match request.metadata {
                            UploadPathMetadata::Preamble(bytes) => bytes_of(bytes) == json,
                            UploadPathMetadata::Header(value) => value@ == json,
                        }
                        &&& request.content_length == length
                    },
                    Err(ClientError::InvalidUrl(message)) => {
                        url == Err::<Seq<char>, Seq<char>>(message@)
                    },
                    Err(ClientError::InvalidHeaderValue) => {
                        url is Ok && !preamble && !valid_header_text(upload_info_json@)
                    },
                    Err(ClientError::ContentLengthOverflow) => {
                        &&& url is Ok
                        &&& preamble || valid_header_text(upload_info_json@)
                        &&& length > u64::MAX
                    },
                    Err(error) => false,
                }
            }),
    {
        let endpoint = match url_join(self.endpoint.as_str(), "_api/v1/upload-path") {
            Ok(endpoint) => endpoint,
            Err(message) => {
                return Err(ClientError::InvalidUrl(message));
            },
        };
        let metadata = match upload_path_metadata(upload_info_json, force_preamble) {
            Ok(metadata) => metadata,
            Err(error) => {
                return Err(error);
            },
        };
        match upload_content_length(&metadata, body_size) {
            Ok(content_length) => Ok(UploadPathRequest { endpoint, metadata, content_length }),
            Err(error) => Err(error),
        }
    }
}

/// The error that a response is keeps the status and the requested delay of the response, whether or
/// not its body was JSON.
pub proof fn law_error_keeps_what_the_response_said(
    status: u16,
    retry_after: Option<u128>,
    text: String,
    structured: Option<StructuredApiError>,
    error: ApiError,
    r_status: u16,
    r_retry_after: Option<u128>,
)
    requires
        call_ensures(ApiError::try_from_response, (status, retry_after, text, structured), error),
        call_ensures(ApiError::status, (&error,), r_status),
        call_ensures(ApiError::retry_after, (&error,), r_retry_after),
    ensures
        r_status == status,
        r_retry_after == retry_after,
        structured matches Some(body) ==> (error matches ApiError::Structured {
            error: kept,
            status: s,
            retry_after: d,
        } && kept == body),
        structured is None ==> (error matches ApiError::Unstructured {
            status: s,
            message,
            retry_after: d,
        } && message == text),
{
}

/// A `Retry-After` header of decimal digits alone asks for that many seconds; one that is missing or
/// holds a control character asks for nothing.
pub proof fn law_retry_after_counts_seconds(value: Option<&Vec<u8>>, now: i128, r: Option<u128>)
    requires
        call_ensures(retry_after, (value, now), r),
    ensures
        value is None ==> r is None,
        value matches Some(value) ==> {
            let seconds = value@.fold_left(0int, |sum: int, b: u8| 10 * sum + (b - 48));
            &&& value@.len() > 0 && (forall|i: int|
                0 <= i < value@.len() ==> 48 <= #[trigger] value@[i] <= 57) && seconds <= u64::MAX
                ==> (r matches Some(delay) && delay == seconds * 1_000_000_000)
            &&& (exists|i: int|
                0 <= i < value@.len() && ((#[trigger] value@[i]) < 32 && value@[i] != 9 || value@[i]
                    >= 127)) ==> r is None
        },
{
    if let Some(value) = value {
        let text = ascii_text(value@);
        if exists|i: int|
            0 <= i < value@.len() && ((#[trigger] value@[i]) < 32 && value@[i] != 9 || value@[i]
                >= 127) {
            let i = choose|i: int|
                0 <= i < value@.len() && ((#[trigger] value@[i]) < 32 && value@[i] != 9 || value@[i]
                    >= 127);
            assert(!header_text_byte(value@[i]));
        }
        if value@.len() > 0 && forall|i: int|
            0 <= i < value@.len() ==> 48 <= #[trigger] value@[i] <= 57 {
            assert(readable_header(value@));
            lemma_value_of_digits(value@);
            assert forall|i: int| 0 <= i < text.len() implies is_digit(#[trigger] text[i]) by {
                assert(48 <= value@[i] <= 57);
            }
            assert(48 <= value@[0] <= 57);
            assert(text[0] != '+');
        }
    }
}

proof fn lemma_value_of_digits(bytes: Seq<u8>)
    requires
        forall|i: int| 0 <= i < bytes.len() ==> 48 <= #[trigger] bytes[i] <= 57,
    ensures
        decimal_value(ascii_text(bytes)) == bytes.fold_left(
            0int,
            |sum: int, b: u8| 10 * sum + (b - 48),
        ),
    decreases bytes.len(),
{
    if bytes.len() > 0 {
        let init = bytes.drop_last();
        assert forall|i: int| 0 <= i < init.len() implies 48 <= #[trigger] init[i] <= 57 by {
            assert(48 <= bytes[i] <= 57);
        }
        lemma_value_of_digits(init);
        assert(ascii_text(bytes).drop_last() =~= ascii_text(init));
        assert(48 <= bytes[bytes.len() - 1] <= 57);
        assert(ascii_text(bytes).last() == bytes.last() as char);
    }
}

/// A `Retry-After` header that is no number but a date asks to wait until then, or not at all if that
/// has passed.
pub proof fn law_retry_after_waits_until_a_date(
    value: &Vec<u8>,
    now: i128,
    r: Option<u128>,
    date: Option<u64>,
)
    requires
        call_ensures(retry_after, (Some(value), now), r),
        forall|i: int|
            0 <= i < value@.len() ==> (32 <= #[trigger] value@[i] < 127 || value@[i] == 9),
        exists|i: int|
            1 <= i < value@.len() && ((#[trigger] value@[i]) < 48 || value@[i] > 57),
        date == http_date(value@.map_values(|b: u8| b as char)),
    ensures
        date is None ==> r is None,
        date matches Some(seconds) ==> (r matches Some(delay) && if seconds * 1_000_000_000 > now {
            now + delay == seconds * 1_000_000_000
        } else {
            delay == 0
        }),
{
    let text = ascii_text(value@);
    assert(text =~= value@.map_values(|b: u8| b as char));
    assert forall|i: int| 0 <= i < value@.len() implies header_text_byte(#[trigger] value@[i]) by {
        assert(32 <= value@[i] < 127 || value@[i] == 9);
    }
    let i = choose|i: int| 1 <= i < value@.len() && ((#[trigger] value@[i]) < 48 || value@[i] > 57);
    assert(!is_digit(text[i]));
    assert(text.drop_first()[i - 1] == text[i]);
}

/// Reading, creating, configuring and destroying a cache are requests to one and the same URL, the
/// cache's name relative to `_api/v1/cache-config/`, which differ in the method.
pub proof fn law_cache_requests_differ_in_the_method(
    client: &ApiClient,
    cache: &CacheName,
    get: Result<ApiRequest, ClientError>,
    create: Result<ApiRequest, ClientError>,
    configure: Result<ApiRequest, ClientError>,
    destroy: Result<ApiRequest, ClientError>,
    base: Seq<char>,
    url: Seq<char>,
)
    requires
        call_ensures(ApiClient::get_cache_config, (client, cache), get),
        call_ensures(ApiClient::create_cache, (client, cache), create),
        call_ensures(ApiClient::configure_cache, (client, cache), configure),
        call_ensures(ApiClient::destroy_cache, (client, cache), destroy),
        joined_url(client@, "_api/v1/cache-config/"@) == Ok::<Seq<char>, Seq<char>>(base),
        joined_url(base, cache@) == Ok::<Seq<char>, Seq<char>>(url),
    ensures
        get matches Ok(request) && request.method == Method::Get && request.url@ == url,
        create matches Ok(request) && request.method == Method::Post && request.url@ == url,
        configure matches Ok(request) && request.method == Method::Patch && request.url@ == url,
        destroy matches Ok(request) && request.method == Method::Delete && request.url@ == url,
{
}

/// The other requests go where the API has them, and carry what they are about.
pub proof fn law_requests_go_to_their_endpoints(
    client: &ApiClient,
    cache: &CacheName,
    paths: Vec<StorePathHash>,
    chunks: Vec<hash::Hash>,
    list: Result<ApiRequest, ClientError>,
    for_paths: (Result<ApiRequest, ClientError>, GetMissingPathsRequest),
    for_chunks: (Result<ApiRequest, ClientError>, GetMissingChunksRequest),
)
    requires
        call_ensures(ApiClient::list_caches, (client,), list),
        call_ensures(ApiClient::get_missing_paths, (client, cache, paths), for_paths),
        call_ensures(ApiClient::get_missing_chunks, (client, cache, chunks), for_chunks),
    ensures
        list matches Ok(request) ==> request.method == Method::Get && joined_url(
            client@,
            "_api/v1/cache-config"@,
        ) == Ok::<Seq<char>, Seq<char>>(request.url@),
        list is Err <==> joined_url(client@, "_api/v1/cache-config"@) is Err,
        for_paths.0 matches Ok(request) ==> request.method == Method::Post && joined_url(
            client@,
            "_api/v1/get-missing-paths"@,
        ) == Ok::<Seq<char>, Seq<char>>(request.url@),
        for_paths.0 is Err <==> joined_url(client@, "_api/v1/get-missing-paths"@) is Err,
        for_paths.1.cache@ == cache@ && for_paths.1.store_path_hashes@ == paths@,
        for_chunks.0 matches Ok(request) ==> request.method == Method::Post && joined_url(
            client@,
            "_api/v1/get-missing-chunks"@,
        ) == Ok::<Seq<char>, Seq<char>>(request.url@),
        for_chunks.0 is Err <==> joined_url(client@, "_api/v1/get-missing-chunks"@) is Err,
        for_chunks.1.cache@ == cache@ && for_chunks.1.chunk_hashes@ == chunks@,
{
}

/// The OIDC requests go to the server that they are meant for.
pub proof fn law_oidc_requests_go_to_their_endpoints(
    endpoint: &str,
    provider: &str,
    id_token: &str,
    providers: Result<ApiRequest, ClientError>,
    exchange: (Result<ApiRequest, ClientError>, OidcExchangeRequest),
)
    requires
        call_ensures(ApiClient::oidc_providers, (endpoint,), providers),
        call_ensures(ApiClient::exchange_oidc_token, (endpoint, provider, id_token), exchange),
    ensures
        providers matches Ok(request) ==> request.method == Method::Get && joined_url(
            endpoint@,
            "_api/v1/auth/oidc/providers"@,
        ) == Ok::<Seq<char>, Seq<char>>(request.url@),
        providers is Err <==> joined_url(endpoint@, "_api/v1/auth/oidc/providers"@) is Err,
        exchange.0 matches Ok(request) ==> request.method == Method::Post && joined_url(
            endpoint@,
            "_api/v1/auth/oidc/exchange"@,
        ) == Ok::<Seq<char>, Seq<char>>(request.url@),
        exchange.0 is Err <==> joined_url(endpoint@, "_api/v1/auth/oidc/exchange"@) is Err,
        exchange.1.provider@ == provider@ && exchange.1.id_token@ == id_token@,
{
}

/// A prepared upload announces as many bytes as it sends: the body, and the upload info if that is in
/// front of it, which it is if that is asked for or it has 4096 bytes or more.
pub proof fn law_prepared_upload_announces_what_it_sends(
    client: &ApiClient,
    upload_info_json: String,
    force_preamble: bool,
    body_size: usize,
    r: Result<UploadPathRequest, ClientError>,
)
    requires
        call_ensures(
            ApiClient::prepare_upload_path,
            (client, upload_info_json, force_preamble, body_size),
            r,
        ),
    ensures
        r matches Ok(request) ==> {
            let json = encode_utf8(upload_info_json@);
            &&& joined_url(client@, "_api/v1/upload-path"@) == Ok::<Seq<char>, Seq<char>>(
                request.endpoint@,
            )
            &&& match request.metadata {
                UploadPathMetadata::Preamble(bytes) => {
                    &&& force_preamble || json.len() >= 4096
                    &&& bytes_of(bytes) == json
                    &&& request.content_length == json.len() + body_size
                },
                UploadPathMetadata::Header(value) => {
                    &&& !force_preamble && json.len() < 4096
                    &&& value@ == json
                    &&& request.content_length == body_size
                },
            }
        },
        joined_url(client@, "_api/v1/upload-path"@) is Ok && force_preamble && encode_utf8(
            upload_info_json@,
        ).len() + body_size <= u64::MAX ==> r is Ok,
{
}

/// A status means success exactly if it is one of the two hundreds.
pub proof fn law_success_is_a_two_hundred(status: u16, r: bool)
    requires
        call_ensures(is_success, (status,), r),
    ensures
        r <==> status / 100 == 2,
{
}

/// A client that is given an endpoint goes to where a client made for that endpoint goes. If the
/// endpoint is not a URL, neither is there such a client nor does the one that there is change.
pub proof fn law_endpoint_can_be_set_later(
    config: &ServerConfig,
    endpoint: &str,
    made: Result<ApiClient, ClientError>,
    client: &mut ApiClient,
    r: Result<(), ClientError>,
)
    requires
        endpoint@ == config.endpoint@,
        call_ensures(ApiClient::from_server_config, (config,), made),
        call_ensures(ApiClient::set_endpoint, (client, endpoint), r),
    ensures
        made is Ok <==> r is Ok,
        made matches Ok(made) ==> final(client)@ == made@,
        made is Err ==> final(client)@ == old(client)@,
        made is Ok <==> parsed_url(endpoint@) is Ok,
{
}

/// Every request carries the user agent, and one with a token its authorization besides.
pub proof fn law_token_is_sent_as_the_authorization(
    agent: &str,
    token: &str,
    without: Vec<(String, Vec<u8>)>,
    with: Vec<(String, Vec<u8>)>,
)
    requires
        call_ensures(build_http_client, (agent, None::<&str>), without),
        call_ensures(build_http_client, (agent, Some(token)), with),
    ensures
        without@.len() == 1,
        with@.len() == 2,
        without@[0].0@ == "user-agent"@ && without@[0].1@ == encode_utf8(agent@),
        with@[0].0@ == "user-agent"@ && with@[0].1@ == encode_utf8(agent@),
        with@[1].0@ == "authorization"@ && with@[1].1@ == encode_utf8("bearer "@ + token@),
{
}

} // verus!
