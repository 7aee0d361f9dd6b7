//! Text encodings: UTF-8, header values and base64.
use base64::engine::general_purpose::URL_SAFE_NO_PAD;
use base64::Engine;
use reqwest::header::HeaderValue;
use vstd::prelude::*;
use vstd::utf8::{encode_utf8, is_ascii_chars, is_ascii_chars_encode_utf8, valid_utf8};

verus! {

/// `bytes` are the UTF-8 form of `text`.
pub open spec fn is_utf8_of(bytes: Seq<u8>, text: Seq<char>) -> bool {
    valid_utf8(bytes) && encode_utf8(text) == bytes
}

/// `std::str::from_utf8`: the text that `bytes` encode, if they are valid UTF-8.
#[verifier::external_body]
pub(crate) fn text_from_utf8(bytes: &[u8]) -> (r: Option<String>)
    ensures
        match r {
            Some(text) => is_utf8_of(bytes@, text@),
            None => !valid_utf8(bytes@),
        },
{
    std::str::from_utf8(bytes).ok().map(|text| text.to_owned())
}

/// Bytes that a header value may hold: no control characters but the tab.
pub open spec fn header_byte(b: u8) -> bool {
    b >= 32 && b != 127 || b == 9
}

/// Bytes that a header value may hold if it is to be read as text: visible ASCII, the space and the
/// tab.
pub open spec fn header_text_byte(b: u8) -> bool {
    32 <= b < 127 || b == 9
}

/// `text` can be a header value.
pub open spec fn valid_header_text(text: Seq<char>) -> bool {
    forall|i: int| 0 <= i < encode_utf8(text).len() ==> header_byte(#[trigger] encode_utf8(text)[i])
}

/// `HeaderValue::from_str`: the header value that holds `text`, by its bytes. It is refused exactly
/// if one of the bytes of its UTF-8 form is a control character other than the tab.
#[verifier::external_body]
pub(crate) fn header_value(text: &str) -> (r: Option<Vec<u8>>)
    ensures
        match r {
            Some(value) => valid_header_text(text@) && value@ == encode_utf8(text@),
            None => !valid_header_text(text@),
        },
{
    HeaderValue::from_str(text).ok().map(|value| value.as_bytes().to_vec())
}

/// Text of visible ASCII characters and spaces can be a header value.
pub proof fn lemma_visible_ascii_is_header_text(text: Seq<char>)
    requires
        forall|i: int| 0 <= i < text.len() ==> ' ' <= #[trigger] text[i] <= '~',
    ensures
        valid_header_text(text),
{
    assert(is_ascii_chars(text));
    is_ascii_chars_encode_utf8(text);
    assert forall|i: int| 0 <= i < encode_utf8(text).len() implies header_byte(
        #[trigger] encode_utf8(text)[i],
    ) by {
        assert(text[i] as u8 == encode_utf8(text)[i]);
    }
}

/// The characters of a header value that can be read as text.
pub open spec fn ascii_text(bytes: Seq<u8>) -> Seq<char> {
    bytes.map_values(|b: u8| b as char)
}

/// `value` can be read as text.
pub open spec fn readable_header(value: Seq<u8>) -> bool {
    forall|i: int| 0 <= i < value.len() ==> header_text_byte(#[trigger] value[i])
}

/// `HeaderValue::to_str`: the text of a header value, if it holds nothing but visible ASCII
/// characters, spaces and tabs.
#[verifier::external_body]
pub(crate) fn header_text(value: &[u8]) -> (r: Option<String>)
    ensures
        match r {
            Some(text) => readable_header(value@) && text@ == ascii_text(value@),
            None => !readable_header(value@),
        },
{
    let value = HeaderValue::from_bytes(value).ok()?;
    value.to_str().ok().map(|text| text.to_owned())
}

/// The base64 form of `bytes`, with the URL-safe alphabet and without padding.
pub uninterp spec fn base64_encoded(bytes: Seq<u8>) -> Seq<char>;

/// The bytes whose base64 form, with the URL-safe alphabet and without padding, is `text`; if there
/// are none, the message that says why.
pub uninterp spec fn base64_decoded(text: Seq<char>) -> Result<Seq<u8>, Seq<char>>;

/// `URL_SAFE_NO_PAD.encode`: the base64 form of `bytes`, four characters for three bytes, from which
/// decoding gets them back.
#[verifier::external_body]
pub(crate) fn base64_encode(bytes: &[u8]) -> (r: String)
    requires
        (bytes@.len() * 4 + 2) / 3 <= isize::MAX,
    ensures
        r@ == base64_encoded(bytes@),
        r@.len() == (bytes@.len() * 4 + 2) / 3,
        (base64_decoded(r@) == Ok::<Seq<u8>, Seq<char>>(bytes@)),
{
    URL_SAFE_NO_PAD.encode(bytes)
}

/// `URL_SAFE_NO_PAD.decode`: the bytes that `text` is the base64 form of, or the message of the error.
/// Both depend on the text alone.
#[verifier::external_body]
pub(crate) fn base64_decode(text: &str) -> (r: Result<Vec<u8>, String>)
    ensures
        match r {
            Ok(bytes) => base64_decoded(text@) == Ok::<Seq<u8>, Seq<char>>(bytes@),
            Err(message) => base64_decoded(text@) == Err::<Seq<u8>, Seq<char>>(message@),
        },
{
    URL_SAFE_NO_PAD.decode(text).map_err(|error| error.to_string())
}

} // verus!
