//! What can go wrong in the client before anything is sent.
use vstd::prelude::*;

use crate::text::{concat2, concat3, quote, quoted};

verus! {

/// An error of the client.
#[derive(Debug)]
pub enum ClientError {
    /// A text that should be a URL is none, or a URL cannot be extended, with the message that says
    /// why.
    InvalidUrl(String),

    /// A URL would get too long.
    UrlTooLong,

    /// The upload info cannot be a header value.
    InvalidHeaderValue,

    /// The length of the request body does not fit into the header.
    ContentLengthOverflow,

    /// The full path is not valid UTF-8.
    PathNotUtf8,

    /// A reference is not valid UTF-8.
    ReferenceNotUtf8,

    /// The server has no OIDC provider of the given name.
    NoSuchProvider(String),

    /// The given provider has no authorization endpoint.
    NoAuthorizationEndpoint(String),

    /// The given provider has no token endpoint.
    NoTokenEndpoint(String),

    /// The callback request is not valid UTF-8.
    CallbackNotUtf8,

    /// The callback request has no target.
    CallbackMalformed,

    /// The provider returned the given error.
    ProviderError(String),

    /// The callback's state is not that of the login request.
    StateMismatch,

    /// The callback has no authorization code.
    NoAuthorizationCode,

    /// The ID token does not consist of several parts.
    MalformedIdToken,

    /// The payload of the ID token is not base64, with the message that says why.
    InvalidBase64(String),

    /// The payload of the ID token is not JSON, with the message that says why.
    InvalidJson(String),

    /// The ID token's nonce is not that of the login request.
    NonceMismatch,
}

/// The message of an error.
pub open spec fn client_error_message(error: ClientError) -> Seq<char> {
    match error {
        ClientError::InvalidUrl(message) => message@,
        ClientError::UrlTooLong => "URL is too long"@,
        ClientError::InvalidHeaderValue => "failed to parse header value"@,
        ClientError::ContentLengthOverflow => "upload Content-Length overflow"@,
        ClientError::PathNotUtf8 => "Path contains non-UTF-8"@,
        ClientError::ReferenceNotUtf8 => "Reference contains non-UTF-8"@,
        ClientError::NoSuchProvider(name) => "The Attic server has no OIDC provider named "@ + quoted(
            name@,
        ),
        ClientError::NoAuthorizationEndpoint(name) => "OIDC provider "@ + quoted(name@)
            + " did not provide an authorization endpoint"@,
        ClientError::NoTokenEndpoint(name) => "OIDC provider "@ + quoted(name@)
            + " did not provide a token endpoint"@,
        ClientError::CallbackNotUtf8 => "OIDC callback was not valid UTF-8"@,
        ClientError::CallbackMalformed => "OIDC callback request was malformed"@,
        ClientError::ProviderError(error) => "OIDC provider returned "@ + error@,
        ClientError::StateMismatch => "OIDC callback state did not match the login request"@,
        ClientError::NoAuthorizationCode =>
            "OIDC callback did not include an authorization code"@,
        ClientError::MalformedIdToken => "OIDC provider returned a malformed ID token"@,
        ClientError::InvalidBase64(message) => message@,
        ClientError::InvalidJson(message) => message@,
        ClientError::NonceMismatch => "OIDC ID token nonce did not match the login request"@,
    }
}

impl ClientError {
    /// The message.
    pub fn text(&self) -> (r: String)
        ensures
            r@ == client_error_message(*self),
    {
        match self {
            ClientError::InvalidUrl(message) => message.clone(),
            ClientError::UrlTooLong => "URL is too long".to_owned(),
            ClientError::InvalidHeaderValue => "failed to parse header value".to_owned(),
            ClientError::ContentLengthOverflow => "upload Content-Length overflow".to_owned(),
            ClientError::PathNotUtf8 => "Path contains non-UTF-8".to_owned(),
            ClientError::ReferenceNotUtf8 => "Reference contains non-UTF-8".to_owned(),
            ClientError::NoSuchProvider(name) => concat2(
                "The Attic server has no OIDC provider named ",
                quote(name.as_str()).as_str(),
            ),
            ClientError::NoAuthorizationEndpoint(name) => concat3(
                "OIDC provider ",
                quote(name.as_str()).as_str(),
                " did not provide an authorization endpoint",
            ),
            ClientError::NoTokenEndpoint(name) => concat3(
                "OIDC provider ",
                quote(name.as_str()).as_str(),
                " did not provide a token endpoint",
            ),
            ClientError::CallbackNotUtf8 => "OIDC callback was not valid UTF-8".to_owned(),
            ClientError::CallbackMalformed => "OIDC callback request was malformed".to_owned(),
            ClientError::ProviderError(error) => concat2(
                "OIDC provider returned ",
                error.as_str(),
            ),
            ClientError::StateMismatch => {
                "OIDC callback state did not match the login request".to_owned()
            },
            ClientError::NoAuthorizationCode => {
                "OIDC callback did not include an authorization code".to_owned()
            },
            ClientError::MalformedIdToken => {
                "OIDC provider returned a malformed ID token".to_owned()
            },
            ClientError::InvalidBase64(message) => message.clone(),
            ClientError::InvalidJson(message) => message.clone(),
            ClientError::NonceMismatch => {
                "OIDC ID token nonce did not match the login request".to_owned()
            },
        }
    }
}

/// Messages that come from elsewhere are passed on as they are, and those about a provider name it.
pub proof fn law_messages_are_passed_on(error: &ClientError, r: String)
    requires
        call_ensures(ClientError::text, (error,), r),
    ensures
        *error matches ClientError::InvalidUrl(message) ==> r@ == message@,
        *error matches ClientError::InvalidBase64(message) ==> r@ == message@,
        *error matches ClientError::InvalidJson(message) ==> r@ == message@,
        *error matches ClientError::ProviderError(message) ==> r@ == "OIDC provider returned "@
            + message@,
        *error matches ClientError::NoSuchProvider(name) ==> r@
            == "The Attic server has no OIDC provider named "@ + quoted(name@),
        *error matches ClientError::NoAuthorizationEndpoint(name) ==> r@ == "OIDC provider "@
            + quoted(name@) + " did not provide an authorization endpoint"@,
        *error matches ClientError::NoTokenEndpoint(name) ==> r@ == "OIDC provider "@ + quoted(name@)
            + " did not provide a token endpoint"@,
{
}

} // verus!
