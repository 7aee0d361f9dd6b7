//! What is done for every request.
use uuid::Uuid;
use vstd::arithmetic::power::pow;
use vstd::prelude::*;
use vstd::utf8::{encode_utf8, is_ascii_chars, is_ascii_chars_encode_utf8};

use crate::encoding::{
    ascii_text, header_text, header_text_byte, header_value, lemma_visible_ascii_is_header_text, readable_header,
    valid_header_text,
};
use crate::hash::hex_char;
use crate::server::error::ErrorKind;
use crate::server::state::RequestState;
use crate::text::{bytes_eq, text_eq, texts};

verus! {

/// The header that carries the request ID.
pub const REQUEST_ID: &'static str = "x-request-id";

/// The header that tells whether a cache is public.
pub const ATTIC_CACHE_VISIBILITY: &'static str = "X-Attic-Cache-Visibility";

/// The result is the text of the `Host` header, or an error because there is none or it cannot be
/// read.
pub open spec fn is_host(r: Result<String, ErrorKind>, value: Option<&Vec<u8>>) -> bool {
    match value {
        None => r matches Err(ErrorKind::RequestError(message)) && message@
            == "Missing Host header"@,
        Some(value) => if readable_header(value@) {
            r matches Ok(host) && host@ == ascii_text(value@)
        } else {
            r matches Err(ErrorKind::RequestError(message)) && message@ == "Invalid Host header"@
        },
    }
}

/// The text of the `Host` header, whose value is given.
pub fn host_header(value: Option<&Vec<u8>>) -> (r: Result<String, ErrorKind>)
    ensures
        is_host(r, value),
{
    match value {
        None => Err(ErrorKind::RequestError("Missing Host header".to_owned())),
        Some(value) => match header_text(value.as_slice()) {
            Some(host) => Ok(host),
            None => Err(ErrorKind::RequestError("Invalid Host header".to_owned())),
        },
    }
}

/// Digit `k` of the 32 hexadecimal digits of `id`.
pub open spec fn uuid_digit(id: u128, k: int) -> char {
    hex_char((id as int / pow(16, (31 - k) as nat)) % 16)
}

/// The text of a UUID: its hexadecimal digits in groups of 8, 4, 4, 4 and 12.
pub open spec fn uuid_text(id: u128) -> Seq<char> {
    Seq::new(
        36,
        |i: int|
            if i == 8 || i == 13 || i == 18 || i == 23 {
                '-'
            } else if i < 8 {
                uuid_digit(id, i)
            } else if i < 13 {
                uuid_digit(id, i - 1)
            } else if i < 18 {
                uuid_digit(id, i - 2)
            } else if i < 23 {
                uuid_digit(id, i - 3)
            } else {
                uuid_digit(id, i - 4)
            },
    )
}

/// The UUID that `text` is, in any of its textual forms; `None` if it is none.
pub uninterp spec fn parsed_uuid(text: Seq<char>) -> Option<u128>;

/// A random UUID: version 4, variant 1.
pub open spec fn is_random_uuid(id: u128) -> bool {
    &&& (id / 0x1000_0000_0000_0000_0000) % 16 == 4
    &&& (id / 0x4000_0000_0000_0000) % 4 == 2
}

/// `Uuid::parse_str`: the UUID that `text` is, which depends on the text alone. The text of a UUID
/// is parsed as that UUID.
#[verifier::external_body]
fn uuid_parse(text: &str) -> (r: Option<u128>)
    ensures
        r == parsed_uuid(text@),
        forall|id: u128| text@ == #[trigger] uuid_text(id) ==> r == Some(id),
{
    Uuid::parse_str(text).ok().map(|id| id.as_u128())
}

/// `Uuid::new_v4`: a random UUID.
#[verifier::external_body]
fn uuid_new_v4() -> (r: u128)
    ensures
        is_random_uuid(r),
{
    Uuid::new_v4().as_u128()
}

/// `id` is a UUID that can come of asking for one at random.
pub closed spec fn is_generated(id: u128) -> bool {
    call_ensures(uuid_new_v4, (), id)
}

/// `Uuid::fmt`: the text of a UUID.
#[verifier::external_body]
fn uuid_to_text(id: u128) -> (r: String)
    ensures
        r@ == uuid_text(id),
{
    Uuid::from_u128(id).to_string()
}

/// The identifier of a request.
#[derive(Clone, Copy, Debug, PartialEq, Eq, Structural)]
pub struct RequestId(pub u128);

impl RequestId {
    /// The identifier as text.
    pub fn text(&self) -> (r: String)
        ensures
            r@ == uuid_text(self.0),
    {
        uuid_to_text(self.0)
    }
}

/// The UUID in the header with the given value; `None` if there is no such header, or it holds no
/// UUID.
pub open spec fn supplied_id(value: Option<&Vec<u8>>) -> Option<u128> {
    match value {
        Some(value) => if readable_header(value@) {
            parsed_uuid(ascii_text(value@))
        } else {
            None
        },
        None => None,
    }
}

/// The request ID: the one that the client supplied, if it is a UUID, else `generated`.
pub fn request_id_or(value: Option<&Vec<u8>>, generated: u128) -> (r: RequestId)
    ensures
        r.0 == (match supplied_id(value) {
            Some(id) => id,
            None => generated,
        }),
        forall|id: u128|
            #![trigger uuid_text(id)]
            value matches Some(value) && readable_header(value@) && ascii_text(value@) == uuid_text(
                id,
            ) ==> r.0 == id,
{
    let supplied = match value {
        Some(value) => match header_text(value.as_slice()) {
            Some(text) => uuid_parse(text.as_str()),
            None => None,
        },
        None => None,
    };
    match supplied {
        Some(id) => RequestId(id),
        None => RequestId(generated),
    }
}

/// Selects a safe request ID: the one that the client supplied, if it is a UUID, else a random one.
pub fn request_id(value: Option<&Vec<u8>>) -> (r: RequestId)
    ensures
        match supplied_id(value) {
            Some(id) => r.0 == id,
            None => is_generated(r.0) && is_random_uuid(r.0),
        },
        forall|id: u128|
            #![trigger uuid_text(id)]
            value matches Some(value) && readable_header(value@) && ascii_text(value@) == uuid_text(
                id,
            ) ==> r.0 == id,
{
    let generated: u128 = uuid_new_v4();
    proof {
        assert(is_generated(generated));
    }
    request_id_or(value, generated)
}

/// The header that returns the request ID to the client.
pub fn set_request_id_header(id: RequestId) -> (r: (String, Vec<u8>))
    ensures
        r.0@ == REQUEST_ID@,
        r.1@ == encode_utf8(uuid_text(id.0)),
        valid_header_text(uuid_text(id.0)),
{
    let text = id.text();
    proof {
        assert forall|i: int| 0 <= i < text@.len() implies ' ' <= #[trigger] text@[i] <= '~' by {
            assert(forall|d: int| 0 <= d < 16 ==> ' ' <= #[trigger] hex_char(d) <= '~');
        }
        lemma_visible_ascii_is_header_text(text@);
    }
    let value = match header_value(text.as_str()) {
        Some(value) => value,
        None => Vec::new(),
    };
    (REQUEST_ID.to_owned(), value)
}

/// Whether the `X-Forwarded-Proto` header, which is not to be trusted, claims HTTPS.
pub fn client_claims_https(x_forwarded_proto: Option<&Vec<u8>>) -> (r: bool)
    ensures
        r == (x_forwarded_proto matches Some(value) && value@ == encode_utf8("https"@)),
{
    match x_forwarded_proto {
        Some(value) => bytes_eq(value.as_slice(), "https".as_bytes()),
        None => false,
    }
}

/// Initializes per-request state.
pub fn init_request_state(
    request_id: RequestId,
    host: Option<&Vec<u8>>,
    x_forwarded_proto: Option<&Vec<u8>>,
    api_endpoint: Option<String>,
    substituter_endpoint: Option<String>,
) -> (r: Result<RequestState, ErrorKind>)
    ensures
        match r {
            Ok(state) => {
                &&& is_host(Ok(state.host), host)
                &&& state.request_id == request_id
                &&& state.api_endpoint == api_endpoint
                &&& state.substituter_endpoint == substituter_endpoint
                &&& state.client_claims_https == (x_forwarded_proto matches Some(value) && value@
                    == encode_utf8("https"@))
                &&& !state.public_cache
            },
            Err(error) => is_host(Err(error), host),
        },
{
    match host_header(host) {
        Ok(host) => Ok(
            RequestState {
                request_id,
                api_endpoint,
                substituter_endpoint,
                host,
                client_claims_https: client_claims_https(x_forwarded_proto),
                public_cache: false,
            },
        ),
        Err(error) => Err(error),
    }
}

fn list_contains(list: &Vec<String>, text: &str) -> (r: bool)
    ensures
        r == texts(list@).contains(text@),
{
    let mut i: usize = 0;
    while i < list.len()
        invariant
            i <= list.len(),
            forall|j: int| 0 <= j < i ==> texts(list@)[j] != text@,
        decreases list.len() - i,
    {
        if text_eq(list[i].as_str(), text) {
            proof {
                assert(texts(list@)[i as int] == text@);
            }
            return true;
        }
        i = i + 1;
    }
    false
}

/// Restricts valid `Host` headers. An empty list allows every host.
///
/// All requests have to have a `Host` header in the first place.
pub fn restrict_host(allowed_hosts: &Vec<String>, value: Option<&Vec<u8>>) -> (r: Result<
    (),
    ErrorKind,
>)
    ensures
        match r {
            Ok(unit) => {
                &&& value matches Some(value)
                &&& readable_header(value@)
                &&& allowed_hosts@.len() == 0 || texts(allowed_hosts@).contains(ascii_text(value@))
            },
            Err(error) => {
                ||| is_host(Err(error), value)
                ||| {
                    &&& error matches ErrorKind::RequestError(message) && message@ == "Bad Host"@
                    &&& value matches Some(value)
                    &&& readable_header(value@)
                    &&& allowed_hosts@.len() > 0
                    &&& !texts(allowed_hosts@).contains(ascii_text(value@))
                }
            },
        },
{
    let host = match host_header(value) {
        Ok(host) => host,
        Err(error) => {
            return Err(error);
        },
    };
    if allowed_hosts.len() > 0 && !list_contains(allowed_hosts, host.as_str()) {
        return Err(ErrorKind::RequestError("Bad Host".to_owned()));
    }
    Ok(())
}

/// The header that is added to responses about public caches.
pub fn set_visibility_header(state: &RequestState) -> (r: Option<(String, String)>)
    ensures
        match r {
            Some(header) => {
                state.public_cache && header.0@ == ATTIC_CACHE_VISIBILITY@ && header.1@ == "public"@
            },
            None => !state.public_cache,
        },
{
    if state.public_cache {
        Some((ATTIC_CACHE_VISIBILITY.to_owned(), "public".to_owned()))
    } else {
        None
    }
}

/// A request needs a `Host` header of visible ASCII characters, spaces and tabs, whose text is that of
/// its bytes. If there is a list of allowed hosts it has to be in the list, anywhere. The state of the
/// request holds it, along with what was configured.
pub proof fn law_every_request_has_an_allowed_host(
    allowed_hosts: &Vec<String>,
    value: Option<&Vec<u8>>,
    x_forwarded_proto: Option<&Vec<u8>>,
    id: RequestId,
    api_endpoint: Option<String>,
    substituter_endpoint: Option<String>,
    host: Result<String, ErrorKind>,
    allowed: Result<(), ErrorKind>,
    https: bool,
    state: Result<RequestState, ErrorKind>,
)
    requires
        call_ensures(host_header, (value,), host),
        call_ensures(restrict_host, (allowed_hosts, value), allowed),
        call_ensures(client_claims_https, (x_forwarded_proto,), https),
        call_ensures(
            init_request_state,
            (id, value, x_forwarded_proto, api_endpoint, substituter_endpoint),
            state,
        ),
    ensures
        value is None ==> (host matches Err(ErrorKind::RequestError(message)) && message@
            == "Missing Host header"@),
        value is Some && host is Err ==> (host matches Err(ErrorKind::RequestError(message))
            && message@ == "Invalid Host header"@),
        host is Ok && allowed is Err ==> (allowed matches Err(ErrorKind::RequestError(message))
            && message@ == "Bad Host"@),
        value matches Some(bytes) ==> {
            &&& host is Ok <==> forall|i: int|
                0 <= i < bytes@.len() ==> (32 <= #[trigger] bytes@[i] < 127 || bytes@[i] == 9)
            &&& host matches Ok(text) ==> text@.len() == bytes@.len() && forall|i: int|
                0 <= i < bytes@.len() ==> #[trigger] text@[i] == bytes@[i] as char
        },
        allowed is Ok <==> {
            &&& host is Ok
            &&& allowed_hosts@.len() == 0 || exists|i: int|
                0 <= i < allowed_hosts@.len() && (#[trigger] allowed_hosts@[i])@ == host->Ok_0@
        },
        state is Ok <==> host is Ok,
        state matches Ok(state) ==> {
            &&& state.host@ == host->Ok_0@
            &&& state.request_id == id
            &&& state.api_endpoint == api_endpoint
            &&& state.substituter_endpoint == substituter_endpoint
            &&& state.client_claims_https == https
            &&& !state.public_cache
        },
{
    if let Some(bytes) = value {
        if readable_header(bytes@) {
            assert(forall|i: int| 0 <= i < bytes@.len() ==> header_text_byte(#[trigger] bytes@[i]));
        }
        if forall|i: int|
            0 <= i < bytes@.len() ==> (32 <= #[trigger] bytes@[i] < 127 || bytes@[i] == 9) {
            assert(readable_header(bytes@));
        }
        let text = ascii_text(bytes@);
        if texts(allowed_hosts@).contains(text) {
            let i = choose|i: int| 0 <= i < allowed_hosts@.len() && texts(allowed_hosts@)[i] == text;
            assert(allowed_hosts@[i]@ == text);
        }
        if exists|i: int| 0 <= i < allowed_hosts@.len() && (#[trigger] allowed_hosts@[i])@ == text {
            let i = choose|i: int|
                0 <= i < allowed_hosts@.len() && (#[trigger] allowed_hosts@[i])@ == text;
            assert(texts(allowed_hosts@)[i] == text);
        }
    }
}

/// A client claims HTTPS by `https` in the header, and by nothing else.
pub proof fn law_only_https_claims_https(value: &Vec<u8>, some: bool, none: bool)
    requires
        call_ensures(client_claims_https, (Some(value),), some),
        call_ensures(client_claims_https, (None::<&Vec<u8>>,), none),
    ensures
        !none,
        some <==> value@ == seq!['h' as u8, 't' as u8, 't' as u8, 'p' as u8, 's' as u8],
{
    reveal_strlit("https");
    is_ascii_chars_encode_utf8("https"@);
    let letters = seq!['h' as u8, 't' as u8, 't' as u8, 'p' as u8, 's' as u8];
    assert(encode_utf8("https"@) =~= letters) by {
        assert forall|i: int| 0 <= i < 5 implies encode_utf8("https"@)[i] == letters[i] by {
            assert("https"@[i] as u8 == encode_utf8("https"@)[i]);
        }
    }
}

/// A request ID that the server returned is the one that a client gets if it supplies it again. A client
/// that supplies nothing gets the generated one.
pub proof fn law_returned_request_ids_can_be_supplied(
    id: RequestId,
    header: (String, Vec<u8>),
    generated: u128,
    again: RequestId,
    fresh: RequestId,
)
    requires
        call_ensures(set_request_id_header, (id,), header),
        call_ensures(request_id_or, (Some(&header.1), generated), again),
        call_ensures(request_id_or, (None::<&Vec<u8>>, generated), fresh),
    ensures
        header.0@ == "x-request-id"@,
        again == id,
        fresh.0 == generated,
{
    lemma_returned_header(id, header.1@);
}

proof fn lemma_returned_header(id: RequestId, bytes: Seq<u8>)
    requires
        bytes == encode_utf8(uuid_text(id.0)),
    ensures
        readable_header(bytes),
        ascii_text(bytes) == uuid_text(id.0),
{
    let text = uuid_text(id.0);
    assert forall|i: int| 0 <= i < text.len() implies ' ' <= #[trigger] text[i] <= '~' by {
        assert(forall|d: int| 0 <= d < 16 ==> ' ' <= #[trigger] hex_char(d) <= '~');
    }
    assert(is_ascii_chars(text));
    is_ascii_chars_encode_utf8(text);
    assert forall|i: int| 0 <= i < bytes.len() implies header_text_byte(#[trigger] bytes[i]) by {
        assert(text[i] as u8 == bytes[i]);
    }
    assert(ascii_text(bytes) =~= text) by {
        assert forall|i: int| 0 <= i < bytes.len() implies ascii_text(bytes)[i] == text[i] by {
            assert(text[i] as u8 == bytes[i]);
        }
    }
}

/// Responses say that a cache is public exactly if it is.
pub proof fn law_only_public_caches_are_called_public(
    state: &RequestState,
    r: Option<(String, String)>,
)
    requires
        call_ensures(set_visibility_header, (state,), r),
    ensures
        r is Some <==> state.public_cache,
        r matches Some(header) ==> header.0@ == "X-Attic-Cache-Visibility"@ && header.1@ == "public"@,
{
}

/// A request gets the ID that the client supplies, if it is one that the server returns, and a random one
/// if it supplies none.
pub proof fn law_request_ids_are_supplied_or_random(
    id: RequestId,
    header: (String, Vec<u8>),
    again: RequestId,
    fresh: RequestId,
)
    requires
        call_ensures(set_request_id_header, (id,), header),
        call_ensures(request_id, (Some(&header.1),), again),
        call_ensures(request_id, (None::<&Vec<u8>>,), fresh),
    ensures
        again == id,
        is_generated(fresh.0),
{
    lemma_returned_header(id, header.1@);
}

/// A header of visible ASCII characters, spaces and tabs that is the text of a UUID in any form gives that
/// UUID; any other header gives the generated one.
pub proof fn law_any_form_of_uuid_can_be_supplied(
    value: &Vec<u8>,
    text: Seq<char>,
    generated: u128,
    r: RequestId,
)
    requires
        call_ensures(request_id_or, (Some(value), generated), r),
        text.len() == value@.len(),
        forall|i: int| 0 <= i < text.len() ==> #[trigger] text[i] == value@[i] as char,
    ensures
        (forall|i: int|
            0 <= i < value@.len() ==> (32 <= #[trigger] value@[i] < 127 || value@[i] == 9))
            && parsed_uuid(text) is Some ==> Some(r.0) == parsed_uuid(text),
        parsed_uuid(text) is None ==> r.0 == generated,
        !(forall|i: int|
            0 <= i < value@.len() ==> (32 <= #[trigger] value@[i] < 127 || value@[i] == 9))
            ==> r.0 == generated,
{
    assert(text =~= ascii_text(value@));
    if readable_header(value@) {
        assert(forall|i: int| 0 <= i < value@.len() ==> header_text_byte(#[trigger] value@[i]));
    }
    if forall|i: int|
        0 <= i < value@.len() ==> (32 <= #[trigger] value@[i] < 127 || value@[i] == 9) {
        assert(readable_header(value@));
    }
}

} // verus!
