//! OIDC login flows.
use rand::distr::{Alphanumeric, SampleString};
use vstd::prelude::*;
use vstd::utf8::{
    encode_utf8, encode_utf8_decode_utf8, is_ascii_chars, is_ascii_chars_encode_utf8, valid_utf8,
};

use crate::client::api::OidcProvider;
use crate::client::error::ClientError;
use crate::encoding::{
    base64_decode, base64_decoded, base64_encode, base64_encoded, is_utf8_of, text_from_utf8,
};
use crate::hash::{sha256, sha256_digest};
use crate::json::{parsed_json, text_member, Json, JsonView};
use crate::text::{
    concat2, concat3, decimal, decimal_text, find_char, from_chars, join, joined, lemma_find_first,
    position_of, second_word, second_word_of, text_eq, texts, to_chars,
};
use crate::urls::{
    extension_fits, fits_url, pair_texts, parsed_url, query_pairs, url_extend_pairs,
    url_query_pairs, url_with_pairs,
};

verus! {

/// How long to wait for the browser's callback, in seconds.
pub const CALLBACK_TIMEOUT_SECONDS: u64 = 300;

/// How much of the callback request is read, in bytes.
pub const CALLBACK_REQUEST_SIZE: usize = 8192;

/// Finds the provider to log in with: the first one of the given name.
pub fn find_provider(providers: Vec<OidcProvider>, provider_name: &str) -> (r: Result<
    OidcProvider,
    ClientError,
>)
    ensures
        match r {
            Ok(provider) => exists|i: int|
                {
                    &&& 0 <= i < providers@.len()
                    &&& #[trigger] providers@[i] == provider
                    &&& provider.name@ == provider_name@
                    &&& forall|j: int|
                        0 <= j < i ==> (#[trigger] providers@[j]).name@ != provider_name@
                },
            Err(ClientError::NoSuchProvider(name)) => {
                &&& name@ == provider_name@
                &&& forall|j: int|
                    0 <= j < providers@.len() ==> (#[trigger] providers@[j]).name@ != provider_name@
            },
            Err(error) => false,
        },
{
    let ghost all = providers@;
    for provider in it: providers
        invariant
            it.seq() == all,
            all == providers@,
            forall|j: int|
                0 <= j < it.index() ==> (#[trigger] all[j]).name@ != provider_name@,
    {
        if text_eq(provider.name.as_str(), provider_name) {
            proof {
                assert(all[it.index()] == provider);
            }
            return Ok(provider);
        }
    }
    Err(ClientError::NoSuchProvider(provider_name.to_owned()))
}

/// What a GitHub Actions job asks for.
pub open spec fn github_pairs(provider: OidcProvider) -> Seq<(Seq<char>, Seq<char>)> {
    seq![("audience"@, provider.audience@)]
}

fn github_pair_list(provider: &OidcProvider) -> (r: Vec<(String, String)>)
    ensures
        r@.len() > 0,
        pair_texts(r@) == github_pairs(*provider),
{
    let mut pairs: Vec<(String, String)> = Vec::new();
    pairs.push(pair("audience", provider.audience.as_str()));
    proof {
        assert(pair_texts(pairs@) =~= github_pairs(*provider));
    }
    pairs
}

/// The URL from which a GitHub Actions job gets an ID token for `provider`.
pub fn github_actions_url(request_url: &str, provider: &OidcProvider) -> (r: Result<
    String,
    ClientError,
>)
    requires
        fits_url(request_url@, github_pairs(*provider)),
    ensures
        match r {
            Ok(url) => parsed_url(request_url@) is Ok && url_with_pairs(
                request_url@,
                github_pairs(*provider),
            ) == Some(url@),
            Err(ClientError::InvalidUrl(message)) => {
                parsed_url(request_url@) == Err::<Seq<char>, Seq<char>>(message@)
            },
            Err(error) => false,
        },
{
    let pairs = github_pair_list(provider);
    match url_extend_pairs(request_url, &pairs) {
        Ok(url) => Ok(url),
        Err(message) => Err(ClientError::InvalidUrl(message)),
    }
}

/// Same as `github_actions_url`, but a URL that gets too long is an error.
pub fn checked_github_actions_url(request_url: &str, provider: &OidcProvider) -> (r: Result<
    String,
    ClientError,
>)
    ensures
        match r {
            Ok(url) => {
                &&& parsed_url(request_url@) is Ok
                &&& fits_url(request_url@, github_pairs(*provider))
                &&& url_with_pairs(request_url@, github_pairs(*provider)) == Some(url@)
            },
            Err(ClientError::UrlTooLong) => !fits_url(request_url@, github_pairs(*provider)),
            Err(ClientError::InvalidUrl(message)) => {
                parsed_url(request_url@) == Err::<Seq<char>, Seq<char>>(message@)
            },
            Err(error) => false,
        },
{
    let pairs = github_pair_list(provider);
    if extension_fits(request_url, &pairs) {
        github_actions_url(request_url, provider)
    } else {
        Err(ClientError::UrlTooLong)
    }
}

/// The value of the header that authorizes a GitHub Actions job to get an ID token.
pub fn github_authorization(request_token: &str) -> (r: String)
    ensures
        r@ == "Bearer "@ + request_token@,
{
    concat2("Bearer ", request_token)
}

/// ASCII letters and digits.
pub open spec fn ascii_alphanumeric(c: char) -> bool {
    'A' <= c <= 'Z' || 'a' <= c <= 'z' || '0' <= c <= '9'
}

/// Nothing but ASCII letters and digits.
pub open spec fn all_alphanumeric(text: Seq<char>) -> bool {
    forall|i: int| 0 <= i < text.len() ==> ascii_alphanumeric(#[trigger] text[i])
}

/// `Alphanumeric::sample_string`: `len` ASCII letters and digits at random.
#[verifier::external_body]
fn sample_alphanumeric(len: usize) -> (r: String)
    requires
        len <= isize::MAX,
    ensures
        r@.len() == len,
        all_alphanumeric(r@),
{
    Alphanumeric.sample_string(&mut rand::rng(), len)
}

/// `text` can come of asking for `len` ASCII letters and digits at random.
pub closed spec fn is_random_string(len: usize, text: String) -> bool {
    call_ensures(sample_alphanumeric, (len,), text)
}

/// `len` ASCII letters and digits at random. No text is longer than `isize::MAX`.
pub fn random_string(len: usize) -> (r: String)
    requires
        len <= isize::MAX,
    ensures
        is_random_string(len, r),
        r@.len() == len,
        all_alphanumeric(r@),
{
    sample_alphanumeric(len)
}

/// An authorization-code login with a proof key, under way.
#[derive(Debug)]
pub struct PkceLogin {
    /// The URL to open in the browser.
    pub authorization_url: String,

    /// Where to exchange the code.
    pub token_endpoint: String,

    /// The OIDC client.
    pub client_id: String,

    /// Where the browser is sent afterwards.
    pub redirect_uri: String,

    /// What the callback has to repeat.
    pub state: String,

    /// What the ID token has to repeat.
    pub nonce: String,

    /// The proof key.
    pub verifier: String,
}

/// The redirect URI for a listener at `local_addr`.
pub open spec fn redirect_uri_of(local_addr: Seq<char>) -> Seq<char> {
    "http://"@ + local_addr + "/callback"@
}

/// The challenge for a proof key: its SHA-256 digest in base64.
pub open spec fn challenge_of(verifier: Seq<char>) -> Seq<char> {
    base64_encoded(sha256(encode_utf8(verifier)))
}

/// What an authorization request carries.
pub open spec fn authorization_pairs(
    provider: OidcProvider,
    redirect_uri: Seq<char>,
    state: Seq<char>,
    nonce: Seq<char>,
    verifier: Seq<char>,
) -> Seq<(Seq<char>, Seq<char>)> {
    seq![
        ("response_type"@, "code"@),
        ("client_id"@, provider.audience@),
        ("redirect_uri"@, redirect_uri),
        ("scope"@, joined(texts(provider.scopes@), " "@)),
        ("state"@, state),
        ("nonce"@, nonce),
        ("code_challenge"@, challenge_of(verifier)),
        ("code_challenge_method"@, "S256"@),
    ]
}

/// What an exchange of an authorization code carries.
pub open spec fn token_pairs(
    client_id: Seq<char>,
    code: Seq<char>,
    redirect_uri: Seq<char>,
    verifier: Seq<char>,
) -> Seq<(Seq<char>, Seq<char>)> {
    seq![
        ("grant_type"@, "authorization_code"@),
        ("client_id"@, client_id),
        ("code"@, code),
        ("redirect_uri"@, redirect_uri),
        ("code_verifier"@, verifier),
    ]
}

fn pair(key: &str, value: &str) -> (r: (String, String))
    ensures
        r.0@ == key@,
        r.1@ == value@,
{
    (key.to_owned(), value.to_owned())
}

fn authorization_pair_list(
    provider: &OidcProvider,
    redirect_uri: &str,
    state: &str,
    nonce: &str,
    verifier: &str,
) -> (r: Vec<(String, String)>)
    ensures
        r@.len() > 0,
        pair_texts(r@) == authorization_pairs(
            *provider,
            redirect_uri@,
            state@,
            nonce@,
            verifier@,
        ),
{
    let digest = sha256_digest(verifier.as_bytes());
    let challenge = base64_encode(digest.as_slice());
    let scope = join(&provider.scopes, " ");
    let mut pairs: Vec<(String, String)> = Vec::new();
    pairs.push(pair("response_type", "code"));
    pairs.push(pair("client_id", provider.audience.as_str()));
    pairs.push(pair("redirect_uri", redirect_uri));
    pairs.push(pair("scope", scope.as_str()));
    pairs.push(pair("state", state));
    pairs.push(pair("nonce", nonce));
    pairs.push(pair("code_challenge", challenge.as_str()));
    pairs.push(pair("code_challenge_method", "S256"));
    proof {
        assert(pair_texts(pairs@) =~= authorization_pairs(
            *provider,
            redirect_uri@,
            state@,
            nonce@,
            verifier@,
        ));
    }
    pairs
}

/// The authorization URL of a login with the given secrets, if there is one, does not get too long.
pub open spec fn fits_login(
    provider: OidcProvider,
    local_addr: Seq<char>,
    state: Seq<char>,
    nonce: Seq<char>,
    verifier: Seq<char>,
) -> bool {
    match (provider.authorization_endpoint, provider.token_endpoint) {
        (Some(endpoint), Some(_)) => fits_url(
            endpoint@,
            authorization_pairs(provider, redirect_uri_of(local_addr), state, nonce, verifier),
        ),
        _ => true,
    }
}

/// The three texts are secrets at random: 32, 32 and 64 letters and digits.
pub open spec fn are_random_secrets(state: String, nonce: String, verifier: String) -> bool {
    &&& is_random_string(32, state) && state@.len() == 32 && all_alphanumeric(state@)
    &&& is_random_string(32, nonce) && nonce@.len() == 32 && all_alphanumeric(nonce@)
    &&& is_random_string(64, verifier) && verifier@.len() == 64 && all_alphanumeric(verifier@)
}

impl PkceLogin {
    /// Begins a login with the given secrets; `local_addr` is where the callback is awaited.
    pub fn with_secrets(
        provider: &OidcProvider,
        local_addr: &str,
        state: String,
        nonce: String,
        verifier: String,
    ) -> (r: Result<PkceLogin, ClientError>)
        requires
            fits_login(*provider, local_addr@, state@, nonce@, verifier@),
        ensures
            match r {
                Ok(login) => {
                    &&& provider.authorization_endpoint matches Some(endpoint) && parsed_url(
                        endpoint@,
                    ) is Ok && url_with_pairs(
                        endpoint@,
                        authorization_pairs(
                            *provider,
                            redirect_uri_of(local_addr@),
                            state@,
                            nonce@,
                            verifier@,
                        ),
                    ) == Some(login.authorization_url@)
                    &&& provider.token_endpoint matches Some(endpoint) && login.token_endpoint@
                        == endpoint@
                    &&& login.client_id@ == provider.audience@
                    &&& login.redirect_uri@ == redirect_uri_of(local_addr@)
                    &&& login.state == state
                    &&& login.nonce == nonce
                    &&& login.verifier == verifier
                },
                Err(ClientError::NoAuthorizationEndpoint(name)) => {
                    name@ == provider.name@ && provider.authorization_endpoint is None
                },
                Err(ClientError::NoTokenEndpoint(name)) => {
                    &&& name@ == provider.name@
                    &&& provider.authorization_endpoint is Some
                    &&& provider.token_endpoint is None
                },
                Err(ClientError::InvalidUrl(message)) => {
                    &&& provider.token_endpoint is Some
                    &&& provider.authorization_endpoint matches Some(endpoint) && parsed_url(
                        endpoint@,
                    ) == Err::<Seq<char>, Seq<char>>(message@)
                },
                Err(error) => false,
            },
    {
        let authorization_endpoint = match &provider.authorization_endpoint {
            Some(endpoint) => endpoint,
            None => {
                return Err(ClientError::NoAuthorizationEndpoint(provider.name.clone()));
            },
        };
        let token_endpoint = match &provider.token_endpoint {
            Some(endpoint) => endpoint,
            None => {
                return Err(ClientError::NoTokenEndpoint(provider.name.clone()));
            },
        };
        let redirect_uri = concat3("http://", local_addr, "/callback");
        let pairs = authorization_pair_list(
            provider,
            redirect_uri.as_str(),
            state.as_str(),
            nonce.as_str(),
            verifier.as_str(),
        );
        match url_extend_pairs(authorization_endpoint.as_str(), &pairs) {
            Ok(authorization_url) => Ok(
                PkceLogin {
                    authorization_url,
                    token_endpoint: token_endpoint.clone(),
                    client_id: provider.audience.clone(),
                    redirect_uri,
                    state,
                    nonce,
                    verifier,
                },
            ),
            Err(message) => Err(ClientError::InvalidUrl(message)),
        }
    }

    /// Begins a login with secrets at random. An authorization URL that gets too long is an error.
    pub fn start(provider: &OidcProvider, local_addr: &str) -> (r: Result<PkceLogin, ClientError>)
        ensures
            match r {
                Ok(login) => {
                    &&& provider.authorization_endpoint matches Some(endpoint) && parsed_url(
                        endpoint@,
                    ) is Ok && url_with_pairs(
                        endpoint@,
                        authorization_pairs(
                            *provider,
                            redirect_uri_of(local_addr@),
                            login.state@,
                            login.nonce@,
                            login.verifier@,
                        ),
                    ) == Some(login.authorization_url@)
                    &&& provider.token_endpoint matches Some(endpoint) && login.token_endpoint@
                        == endpoint@
                    &&& login.client_id@ == provider.audience@
                    &&& login.redirect_uri@ == redirect_uri_of(local_addr@)
                    &&& are_random_secrets(login.state, login.nonce, login.verifier)
                    &&& fits_login(
                        *provider,
                        local_addr@,
                        login.state@,
                        login.nonce@,
                        login.verifier@,
                    )
                },
                Err(ClientError::UrlTooLong) => exists|state: String, nonce: String, verifier: String|
                    #[trigger] are_random_secrets(state, nonce, verifier) && !fits_login(
                        *provider,
                        local_addr@,
                        state@,
                        nonce@,
                        verifier@,
                    ),
                Err(ClientError::NoAuthorizationEndpoint(name)) => {
                    name@ == provider.name@ && provider.authorization_endpoint is None
                },
                Err(ClientError::NoTokenEndpoint(name)) => {
                    &&& name@ == provider.name@
                    &&& provider.authorization_endpoint is Some
                    &&& provider.token_endpoint is None
                },
                Err(ClientError::InvalidUrl(message)) => {
                    &&& provider.token_endpoint is Some
                    &&& provider.authorization_endpoint matches Some(endpoint) && parsed_url(
                        endpoint@,
                    ) == Err::<Seq<char>, Seq<char>>(message@)
                },
                Err(error) => false,
            },
    {
        let state = random_string(32);
        let nonce = random_string(32);
        let verifier = random_string(64);
        proof {
            assert(are_random_secrets(state, nonce, verifier));
        }
        if provider.token_endpoint.is_some() {
            if let Some(endpoint) = &provider.authorization_endpoint {
                let pairs = authorization_pair_list(
                    provider,
                    concat3("http://", local_addr, "/callback").as_str(),
                    state.as_str(),
                    nonce.as_str(),
                    verifier.as_str(),
                );
                if !extension_fits(endpoint.as_str(), &pairs) {
                    return Err(ClientError::UrlTooLong);
                }
            }
        }
        Self::with_secrets(provider, local_addr, state, nonce, verifier)
    }

    /// The form that exchanges `code` for an ID token.
    pub fn token_form(&self, code: &str) -> (r: Vec<(String, String)>)
        ensures
            pair_texts(r@) == token_pairs(
                self.client_id@,
                code@,
                self.redirect_uri@,
                self.verifier@,
            ),
    {
        let mut pairs: Vec<(String, String)> = Vec::new();
        pairs.push(pair("grant_type", "authorization_code"));
        pairs.push(pair("client_id", self.client_id.as_str()));
        pairs.push(pair("code", code));
        pairs.push(pair("redirect_uri", self.redirect_uri.as_str()));
        pairs.push(pair("code_verifier", self.verifier.as_str()));
        proof {
            assert(pair_texts(pairs@) =~= token_pairs(
                self.client_id@,
                code@,
                self.redirect_uri@,
                self.verifier@,
            ));
        }
        pairs
    }
}

/// The target of a request: the second word of its first line.
pub open spec fn request_target(request: Seq<char>) -> Option<Seq<char>> {
    second_word_of(request.take(find_char(request, '\n', 0)))
}

/// The value that the last pair with the given key has.
pub open spec fn last_value(pairs: Seq<(Seq<char>, Seq<char>)>, key: Seq<char>) -> Option<Seq<char>>
    decreases pairs.len(),
{
    if pairs.len() == 0 {
        None
    } else if pairs.last().0 == key {
        Some(pairs.last().1)
    } else {
        last_value(pairs.drop_last(), key)
    }
}

fn find_value<'a>(pairs: &'a Vec<(String, String)>, key: &str) -> (r: Option<&'a String>)
    ensures
        match r {
            Some(value) => last_value(pair_texts(pairs@), key@) == Some(value@),
            None => last_value(pair_texts(pairs@), key@) is None,
        },
{
    let ghost all = pair_texts(pairs@);
    let mut i: usize = pairs.len();
    proof {
        assert(all.take(i as int) =~= all);
    }
    while i > 0
        invariant
            i <= pairs.len(),
            all == pair_texts(pairs@),
            last_value(all, key@) == last_value(all.take(i as int), key@),
        decreases i,
    {
        proof {
            assert(all.take(i as int).last() == (pairs@[i - 1].0@, pairs@[i - 1].1@));
            assert(all.take(i as int).drop_last() =~= all.take(i - 1));
        }
        if text_eq(pairs[i - 1].0.as_str(), key) {
            return Some(&pairs[i - 1].1);
        }
        i = i - 1;
    }
    None
}

/// What is answered to the browser, and what became of the login.
#[derive(Debug)]
pub struct Callback {
    /// The HTTP response for the browser.
    pub response: String,

    /// The authorization code.
    pub outcome: Result<String, ClientError>,
}

/// The HTTP response for the browser.
pub open spec fn callback_response(failed: bool) -> Seq<char> {
    let body = if failed {
        "Login failed. You can close this window."@
    } else {
        "Login complete. You can close this window."@
    };
    "HTTP/1.1 200 OK\r\nContent-Type: text/plain\r\nContent-Length: "@ + decimal(
        encode_utf8(body).len(),
    ) + "\r\n\r\n"@ + body
}

/// The result of a login whose callback has the query `pairs`: the code, provided that the provider
/// reported no error and the state is the expected one.
pub open spec fn is_callback_outcome(
    outcome: Result<String, ClientError>,
    pairs: Seq<(Seq<char>, Seq<char>)>,
    expected_state: Seq<char>,
) -> bool {
    let error = last_value(pairs, "error"@);
    let state_matches = last_value(pairs, "state"@) == Some(expected_state);
    let code = last_value(pairs, "code"@);
    match outcome {
        Ok(value) => error is None && state_matches && code == Some(value@),
        Err(ClientError::ProviderError(value)) => error == Some(value@),
        Err(ClientError::StateMismatch) => error is None && !state_matches,
        Err(ClientError::NoAuthorizationCode) => error is None && state_matches && code is None,
        Err(other) => false,
    }
}

/// Handles a callback whose query holds `pairs`.
pub fn handle_callback(pairs: &Vec<(String, String)>, expected_state: &str) -> (r: Callback)
    ensures
        r.response@ == callback_response(last_value(pair_texts(pairs@), "error"@) is Some),
        is_callback_outcome(r.outcome, pair_texts(pairs@), expected_state@),
{
    let error = find_value(pairs, "error");
    let body = match error {
        Some(_) => "Login failed. You can close this window.",
        None => "Login complete. You can close this window.",
    };
    let mut response = concat3(
        "HTTP/1.1 200 OK\r\nContent-Type: text/plain\r\nContent-Length: ",
        decimal_text(body.as_bytes().len() as u64).as_str(),
        "\r\n\r\n",
    );
    response.append(body);
    let outcome = match error {
        Some(error) => Err(ClientError::ProviderError(error.clone())),
        None => {
            let state_matches = match find_value(pairs, "state") {
                Some(state) => text_eq(state.as_str(), expected_state),
                None => false,
            };
            if !state_matches {
                Err(ClientError::StateMismatch)
            } else {
                match find_value(pairs, "code") {
                    Some(code) => Ok(code.clone()),
                    None => Err(ClientError::NoAuthorizationCode),
                }
            }
        },
    };
    Callback { response, outcome }
}

/// The URL that the callback request for `target` stands for.
pub open spec fn callback_url(target: Seq<char>) -> Seq<char> {
    "http://localhost"@ + target
}

/// Takes in the callback request that the browser sent. An error means that it is not answered.
pub fn receive_callback(request: &[u8], expected_state: &str) -> (r: Result<Callback, ClientError>)
    ensures
        match r {
            Ok(callback) => exists|text: Seq<char>, target: Seq<char>, pairs: Seq<
                (Seq<char>, Seq<char>),
            >|
                {
                    &&& #[trigger] is_utf8_of(request@, text)
                    &&& request_target(text) == Some(target)
                    &&& parsed_url(callback_url(target)) is Ok
                    &&& #[trigger] query_pairs(callback_url(target)) == Some(pairs)
                    &&& callback.response@ == callback_response(
                        last_value(pairs, "error"@) is Some,
                    )
                    &&& #[trigger] is_callback_outcome(callback.outcome, pairs, expected_state@)
                },
            Err(ClientError::CallbackNotUtf8) => !valid_utf8(request@),
            Err(ClientError::CallbackMalformed) => exists|text: Seq<char>| #[trigger]
                is_utf8_of(request@, text) && request_target(text) is None,
            Err(ClientError::InvalidUrl(message)) => exists|text: Seq<char>, target: Seq<char>|
                {
                    &&& #[trigger] is_utf8_of(request@, text)
                    &&& request_target(text) == Some(target)
                    &&& #[trigger] parsed_url(callback_url(target)) == Err::<Seq<char>, Seq<char>>(
                        message@,
                    )
                },
            Err(error) => false,
        },
{
    let text = match text_from_utf8(request) {
        Some(text) => text,
        None => {
            return Err(ClientError::CallbackNotUtf8);
        },
    };
    let chars = to_chars(text.as_str());
    let line = from_chars(&chars, 0, position_of(&chars, '\n', 0));
    proof {
        assert(line@ =~= text@.take(find_char(text@, '\n', 0)));
        assert(is_utf8_of(request@, text@));
    }
    let target = match second_word(line.as_str()) {
        Some(target) => target,
        None => {
            return Err(ClientError::CallbackMalformed);
        },
    };
    let url = concat2("http://localhost", target.as_str());
    proof {
        assert(request_target(text@) == Some(target@));
        assert(url@ == callback_url(target@));
    }
    match url_query_pairs(url.as_str()) {
        Ok(pairs) => {
            let callback = handle_callback(&pairs, expected_state);
            proof {
                assert(query_pairs(callback_url(target@)) == Some(pair_texts(pairs@)));
                assert(is_callback_outcome(callback.outcome, pair_texts(pairs@), expected_state@));
            }
            Ok(callback)
        },
        Err(message) => {
            proof {
                assert(parsed_url(callback_url(target@)) is Err);
            }
            Err(ClientError::InvalidUrl(message))
        },
    }
}

/// A callback whose state is not that of the login request never leads to a code.
pub proof fn law_state_mismatch_gives_no_code(
    outcome: Result<String, ClientError>,
    pairs: Seq<(Seq<char>, Seq<char>)>,
    expected_state: Seq<char>,
)
    requires
        is_callback_outcome(outcome, pairs, expected_state),
        last_value(pairs, "state"@) != Some(expected_state),
    ensures
        outcome is Err,
{
}

/// The second of the parts that dots separate in a token.
pub open spec fn token_payload(token: Seq<char>) -> Option<Seq<char>> {
    let first = find_char(token, '.', 0);
    if first < token.len() {
        Some(token.subrange(first + 1, find_char(token, '.', first + 1)))
    } else {
        None
    }
}

/// Whether the claims hold the expected nonce.
pub fn check_nonce(claims: &Json, expected_nonce: &str) -> (r: Result<(), ClientError>)
    ensures
        match r {
            Ok(unit) => text_member(claims@, "nonce"@) == Some(expected_nonce@),
            Err(error) => {
                error is NonceMismatch && text_member(claims@, "nonce"@) != Some(expected_nonce@)
            },
        },
{
    match claims.get_str("nonce") {
        Some(nonce) => if text_eq(nonce, expected_nonce) {
            Ok(())
        } else {
            Err(ClientError::NonceMismatch)
        },
        None => Err(ClientError::NonceMismatch),
    }
}

/// The claims that a token holds: its payload, taken out of base64 and out of JSON.
pub open spec fn token_claims(token: Seq<char>) -> Option<JsonView> {
    match token_payload(token) {
        Some(payload) => match base64_decoded(payload) {
            Ok(bytes) => match parsed_json(bytes) {
                Ok(claims) => Some(claims),
                Err(message) => None,
            },
            Err(message) => None,
        },
        None => None,
    }
}

/// Whether an ID token is for the login request with the given nonce. This does not verify its
/// signature.
pub fn validate_nonce(id_token: &str, expected_nonce: &str) -> (r: Result<(), ClientError>)
    ensures
        match r {
            Ok(unit) => token_claims(id_token@) matches Some(claims) && text_member(
                claims,
                "nonce"@,
            ) == Some(expected_nonce@),
            Err(ClientError::MalformedIdToken) => token_payload(id_token@) is None,
            Err(ClientError::InvalidBase64(message)) => {
                &&& token_payload(id_token@) matches Some(payload)
                &&& base64_decoded(payload) == Err::<Seq<u8>, Seq<char>>(message@)
            },
            Err(ClientError::InvalidJson(message)) => {
                &&& token_payload(id_token@) matches Some(payload)
                &&& base64_decoded(payload) matches Ok(bytes)
                &&& parsed_json(bytes) == Err::<JsonView, Seq<char>>(message@)
            },
            Err(ClientError::NonceMismatch) => {
                &&& token_claims(id_token@) matches Some(claims)
                &&& text_member(claims, "nonce"@) != Some(expected_nonce@)
            },
            Err(error) => false,
        },
{
    let chars = to_chars(id_token);
    let first: usize = position_of(&chars, '.', 0);
    if first >= chars.len() {
        return Err(ClientError::MalformedIdToken);
    }
    let payload = from_chars(&chars, first + 1, position_of(&chars, '.', first + 1));
    let bytes = match base64_decode(payload.as_str()) {
        Ok(bytes) => bytes,
        Err(message) => {
            return Err(ClientError::InvalidBase64(message));
        },
    };
    match Json::parse(bytes.as_slice()) {
        Ok(claims) => check_nonce(&claims, expected_nonce),
        Err(message) => Err(ClientError::InvalidJson(message)),
    }
}

/// A GitHub Actions job asks for a token for the provider's audience, and for nothing else.
pub proof fn law_github_jobs_ask_for_the_audience(
    request_url: &str,
    provider: &OidcProvider,
    r: Result<String, ClientError>,
)
    requires
        call_ensures(checked_github_actions_url, (request_url, provider), r),
    ensures
        r matches Ok(url) ==> url_with_pairs(
            request_url@,
            seq![("audience"@, provider.audience@)],
        ) == Some(url@),
        parsed_url(request_url@) is Err ==> (r matches Err(ClientError::InvalidUrl(message))
            && parsed_url(request_url@) == Err::<Seq<char>, Seq<char>>(message@)),
{
}

/// The authorization request of a login and the form that exchanges its code belong together: both name
/// the provider's audience as the client and the same redirect URI, at the local address, and what the
/// request challenges is the digest of what the form proves. The request carries the login's state and
/// nonce, and the provider's scopes, `scope`, with a space between them.
pub proof fn law_login_and_exchange_belong_together(
    provider: &OidcProvider,
    local_addr: &str,
    state: String,
    nonce: String,
    verifier: String,
    login: PkceLogin,
    code: &str,
    form: Vec<(String, String)>,
    endpoint: String,
    token_endpoint: String,
    space: &str,
    scope: String,
)
    requires
        space@ == " "@,
        call_ensures(join, (&provider.scopes, space), scope),
        call_ensures(
            PkceLogin::with_secrets,
            (provider, local_addr, state, nonce, verifier),
            Ok(login),
        ),
        call_ensures(PkceLogin::token_form, (&login, code), form),
        provider.authorization_endpoint == Some(endpoint),
        provider.token_endpoint == Some(token_endpoint),
    ensures
        ({
            let redirect_uri = "http://"@ + local_addr@ + "/callback"@;
            let challenge = base64_encoded(sha256(encode_utf8(verifier@)));
            &&& url_with_pairs(
                endpoint@,
                seq![
                    ("response_type"@, "code"@),
                    ("client_id"@, provider.audience@),
                    ("redirect_uri"@, redirect_uri),
                    ("scope"@, scope@),
                    ("state"@, state@),
                    ("nonce"@, nonce@),
                    ("code_challenge"@, challenge),
                    ("code_challenge_method"@, "S256"@),
                ],
            ) == Some(login.authorization_url@)
            &&& form@.len() == 5
            &&& form@[0].0@ == "grant_type"@ && form@[0].1@ == "authorization_code"@
            &&& form@[1].0@ == "client_id"@ && form@[1].1@ == provider.audience@
            &&& form@[2].0@ == "code"@ && form@[2].1@ == code@
            &&& form@[3].0@ == "redirect_uri"@ && form@[3].1@ == redirect_uri
            &&& form@[4].0@ == "code_verifier"@ && form@[4].1@ == verifier@
            &&& login.token_endpoint@ == token_endpoint@
            &&& login.state@ == state@
            &&& login.nonce@ == nonce@
        }),
{
    let texts_of_form = pair_texts(form@);
    assert(texts_of_form.len() == form@.len());
    assert forall|i: int| 0 <= i < form@.len() implies #[trigger] texts_of_form[i] == (
        form@[i].0@,
        form@[i].1@,
    ) by {}
    assert(texts_of_form[0] == ("grant_type"@, "authorization_code"@));
    assert(texts_of_form[1] == ("client_id"@, login.client_id@));
    assert(texts_of_form[2] == ("code"@, code@));
    assert(texts_of_form[3] == ("redirect_uri"@, login.redirect_uri@));
    assert(texts_of_form[4] == ("code_verifier"@, login.verifier@));
}

/// A login that is started draws its secrets: 32 characters of state, 32 of nonce and 64 of proof key,
/// all letters and digits.
pub proof fn law_started_logins_draw_their_secrets(
    provider: &OidcProvider,
    local_addr: &str,
    r: Result<PkceLogin, ClientError>,
    i: int,
)
    requires
        call_ensures(PkceLogin::start, (provider, local_addr), r),
    ensures
        r matches Ok(login) ==> {
            &&& login.state@.len() == 32 && login.nonce@.len() == 32 && login.verifier@.len() == 64
            &&& login.client_id@ == provider.audience@
            &&& login.redirect_uri@ == "http://"@ + local_addr@ + "/callback"@
            &&& 0 <= i < 32 ==> {
                let c = login.state@[i];
                'A' <= c <= 'Z' || 'a' <= c <= 'z' || '0' <= c <= '9'
            }
            &&& 0 <= i < 32 ==> {
                let c = login.nonce@[i];
                'A' <= c <= 'Z' || 'a' <= c <= 'z' || '0' <= c <= '9'
            }
            &&& 0 <= i < 64 ==> {
                let c = login.verifier@[i];
                'A' <= c <= 'Z' || 'a' <= c <= 'z' || '0' <= c <= '9'
            }
        },
        provider.authorization_endpoint is None ==> (r matches Err(
            ClientError::NoAuthorizationEndpoint(name),
        ) && name@ == provider.name@),
        provider.authorization_endpoint is Some && provider.token_endpoint is None ==> (
        r matches Err(ClientError::NoTokenEndpoint(name)) && name@ == provider.name@),
{
    if let Ok(login) = r {
        if 0 <= i < 32 {
            assert(ascii_alphanumeric(login.state@[i]));
            assert(ascii_alphanumeric(login.nonce@[i]));
        }
        if 0 <= i < 64 {
            assert(ascii_alphanumeric(login.verifier@[i]));
        }
    }
}

proof fn lemma_last_value(pairs: Seq<(Seq<char>, Seq<char>)>, key: Seq<char>) -> (i: int)
    ensures
        -1 <= i < pairs.len(),
        forall|j: int| i < j < pairs.len() ==> (#[trigger] pairs[j]).0 != key,
        i >= 0 ==> pairs[i].0 == key && last_value(pairs, key) == Some(pairs[i].1),
        i < 0 ==> last_value(pairs, key) is None,
    decreases pairs.len(),
{
    if pairs.len() == 0 {
        -1
    } else if pairs.last().0 == key {
        pairs.len() - 1
    } else {
        let init = pairs.drop_last();
        let i = lemma_last_value(init, key);
        assert forall|j: int| i < j < pairs.len() implies (#[trigger] pairs[j]).0 != key by {
            if j < init.len() {
                assert(init[j].0 != key);
            }
        }
        if i >= 0 {
            assert(init[i] == pairs[i]);
        }
        i
    }
}

/// A callback leads to a code exactly if it has no error, the last state in it is the expected one, and
/// it has a code; then it is the last code. An error is reported whatever else there is, and a wrong
/// or missing state whatever code there is.
///
/// `error`, `state` and `code` are the positions of the last such pairs, or below zero.
pub proof fn law_callback_leads_to_a_code_only_with_the_right_state(
    pairs: &Vec<(String, String)>,
    expected_state: &str,
    r: Callback,
    error: int,
    state: int,
    code: int,
)
    requires
        call_ensures(handle_callback, (pairs, expected_state), r),
        -1 <= error < pairs@.len(),
        -1 <= state < pairs@.len(),
        -1 <= code < pairs@.len(),
        error >= 0 ==> pairs@[error].0@ == "error"@,
        state >= 0 ==> pairs@[state].0@ == "state"@,
        code >= 0 ==> pairs@[code].0@ == "code"@,
        forall|j: int| error < j < pairs@.len() ==> (#[trigger] pairs@[j]).0@ != "error"@,
        forall|j: int| state < j < pairs@.len() ==> (#[trigger] pairs@[j]).0@ != "state"@,
        forall|j: int| code < j < pairs@.len() ==> (#[trigger] pairs@[j]).0@ != "code"@,
    ensures
        match r.outcome {
            Ok(value) => {
                &&& error < 0
                &&& state >= 0 && pairs@[state].1@ == expected_state@
                &&& code >= 0 && value@ == pairs@[code].1@
            },
            Err(ClientError::ProviderError(value)) => error >= 0 && value@ == pairs@[error].1@,
            Err(ClientError::StateMismatch) => {
                error < 0 && (state < 0 || pairs@[state].1@ != expected_state@)
            },
            Err(ClientError::NoAuthorizationCode) => {
                error < 0 && state >= 0 && pairs@[state].1@ == expected_state@ && code < 0
            },
            Err(other) => false,
        },
{
    let all = pair_texts(pairs@);
    assert forall|j: int| 0 <= j < pairs@.len() implies #[trigger] all[j] == (
        pairs@[j].0@,
        pairs@[j].1@,
    ) by {}
    let e = lemma_last_value(all, "error"@);
    let s = lemma_last_value(all, "state"@);
    let c = lemma_last_value(all, "code"@);
    assert(e == error) by {
        if e < error {
            assert(all[error].0 != "error"@);
        } else if error < e {
            assert(pairs@[e].0@ != "error"@);
        }
    }
    assert(s == state) by {
        if s < state {
            assert(all[state].0 != "state"@);
        } else if state < s {
            assert(pairs@[s].0@ != "state"@);
        }
    }
    assert(c == code) by {
        if c < code {
            assert(all[code].0 != "code"@);
        } else if code < c {
            assert(pairs@[c].0@ != "code"@);
        }
    }
}

/// The browser is told that the login failed exactly if the callback has an error, and how long that
/// message is.
pub proof fn law_browser_is_told_what_became_of_the_login(
    pairs: &Vec<(String, String)>,
    expected_state: &str,
    r: Callback,
)
    requires
        call_ensures(handle_callback, (pairs, expected_state), r),
    ensures
        ({
            let head = "HTTP/1.1 200 OK\r\nContent-Type: text/plain\r\nContent-Length: "@;
            let failed = "Login failed. You can close this window."@;
            let complete = "Login complete. You can close this window."@;
            &&& (exists|i: int| 0 <= i < pairs@.len() && (#[trigger] pairs@[i]).0@ == "error"@)
                ==> r.response@ == head + "40"@ + "\r\n\r\n"@ + failed
            &&& (forall|i: int| 0 <= i < pairs@.len() ==> (#[trigger] pairs@[i]).0@ != "error"@)
                ==> r.response@ == head + "42"@ + "\r\n\r\n"@ + complete
        }),
{
    let all = pair_texts(pairs@);
    let failed = "Login failed. You can close this window."@;
    let complete = "Login complete. You can close this window."@;
    let e = lemma_last_value(all, "error"@);
    if exists|i: int| 0 <= i < pairs@.len() && (#[trigger] pairs@[i]).0@ == "error"@ {
        let i = choose|i: int| 0 <= i < pairs@.len() && (#[trigger] pairs@[i]).0@ == "error"@;
        assert(all[i].0 == "error"@);
    }
    if e >= 0 {
        assert(pairs@[e].0@ == "error"@);
    }
    reveal_strlit("Login failed. You can close this window.");
    reveal_strlit("Login complete. You can close this window.");
    reveal_strlit("40");
    reveal_strlit("42");
    assert(is_ascii_chars(failed));
    assert(is_ascii_chars(complete));
    is_ascii_chars_encode_utf8(failed);
    is_ascii_chars_encode_utf8(complete);
    reveal_with_fuel(decimal, 3);
    assert(decimal(40) =~= "40"@);
    assert(decimal(42) =~= "42"@);
}

/// What a callback request leads to depends on the target in its first line alone: the second of the
/// words there, as a URL on the local host.
pub proof fn law_callback_target_is_in_the_first_line(
    request: &[u8],
    expected_state: &str,
    r: Result<Callback, ClientError>,
    line: Seq<char>,
    rest: Seq<char>,
    target: Option<Seq<char>>,
)
    requires
        call_ensures(receive_callback, (request, expected_state), r),
        valid_utf8(request@),
        request@ == encode_utf8(line + rest),
        !line.contains('\n'),
        rest.len() > 0 ==> rest[0] == '\n',
        target == second_word_of(line),
    ensures
        target is None ==> r matches Err(ClientError::CallbackMalformed),
        target matches Some(t) ==> {
            &&& parsed_url("http://localhost"@ + t) is Err ==> (r matches Err(
                ClientError::InvalidUrl(message),
            ) && parsed_url("http://localhost"@ + t) == Err::<Seq<char>, Seq<char>>(message@))
            &&& r matches Ok(callback) ==> exists|pairs: Seq<(Seq<char>, Seq<char>)>|
                query_pairs("http://localhost"@ + t) == Some(pairs) && #[trigger]
                    is_callback_outcome(callback.outcome, pairs, expected_state@)
            &&& r is Err ==> parsed_url("http://localhost"@ + t) is Err
        },
{
    let text = line + rest;
    lemma_find_first(text, '\n', 0);
    let n = find_char(text, '\n', 0);
    assert(n == line.len()) by {
        if n < line.len() {
            assert(text[n] == line[n]);
            assert(line.contains('\n'));
        } else if line.len() < n {
            assert(text[line.len() as int] == rest[0]);
        }
    }
    assert(text.take(n) =~= line);
    assert(request_target(text) == target);
    assert forall|other: Seq<char>| #[trigger] is_utf8_of(request@, other) implies other == text by {
        encode_utf8_decode_utf8(other);
        encode_utf8_decode_utf8(text);
    }
}

/// The payload of an ID token is what stands between its first two dots, or behind the first one if
/// there is no other. The token is accepted exactly if that decodes to JSON whose nonce is the expected
/// one.
pub proof fn law_token_is_accepted_for_its_nonce(
    id_token: &str,
    expected_nonce: &str,
    r: Result<(), ClientError>,
    header: Seq<char>,
    payload: Seq<char>,
    rest: Seq<char>,
)
    requires
        call_ensures(validate_nonce, (id_token, expected_nonce), r),
        id_token@ == header + seq!['.'] + payload + rest,
        !header.contains('.'),
        !payload.contains('.'),
        rest.len() > 0 ==> rest[0] == '.',
    ensures
        r is Ok <==> {
            &&& base64_decoded(payload) matches Ok(bytes)
            &&& parsed_json(bytes) matches Ok(claims)
            &&& text_member(claims, "nonce"@) == Some(expected_nonce@)
        },
        base64_decoded(payload) is Err ==> r matches Err(ClientError::InvalidBase64(message)),
        base64_decoded(payload) matches Ok(bytes) ==> (parsed_json(bytes) is Err ==> r matches Err(
            ClientError::InvalidJson(message),
        )),
{
    let token = id_token@;
    let a = header.len() as int;
    let b = a + 1 + payload.len();
    lemma_find_first(token, '.', 0);
    let first = find_char(token, '.', 0);
    assert(token[a] == '.');
    assert(first == a) by {
        if first < a {
            assert(token[first] == header[first]);
            assert(header.contains('.'));
        }
    }
    lemma_find_first(token, '.', a + 1);
    let second = find_char(token, '.', a + 1);
    assert(second == b) by {
        if second < b {
            assert(token[second] == payload[second - a - 1]);
            assert(payload.contains('.'));
        } else if b < second {
            assert(token[b] == rest[0]);
        }
    }
    assert(token.subrange(a + 1, b) =~= payload);
    assert(token_payload(token) == Some(payload));
}

/// A token without a dot is refused.
pub proof fn law_token_without_payload_is_refused(
    id_token: &str,
    expected_nonce: &str,
    r: Result<(), ClientError>,
)
    requires
        call_ensures(validate_nonce, (id_token, expected_nonce), r),
        !id_token@.contains('.'),
    ensures
        r matches Err(ClientError::MalformedIdToken),
{
    lemma_find_first(id_token@, '.', 0);
    let first = find_char(id_token@, '.', 0);
    if first < id_token@.len() {
        assert(id_token@.contains(id_token@[first]));
    }
}

} // verus!
