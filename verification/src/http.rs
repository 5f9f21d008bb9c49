//! Decisions taken on every request and response, whatever the route: where
//! the caller's address is read from, when a plain-text error becomes a JSON
//! error, and when a response is answered as not modified.

use crate::digest::{sha1_hex, sha1_of, SHA1_LENGTH};
use crate::routes::{messages, texts, ApiError};
use crate::text::{
    chars_of, find_char, hex_of, lemma_position_of, position_of, same_text, starts_with,
    string_of, trim_of, trim_range,
};
use vstd::prelude::*;

verus! {

/// The header value that names the caller: `X-Real-IP` if the request has
/// one, else `X-Forwarded-For`, else nothing.
pub open spec fn forwarded_address(real_ip: Option<&str>, forwarded_for: Option<&str>) -> Seq<char> {
    match real_ip {
        Some(v) => v@,
        None => match forwarded_for {
            Some(v) => v@,
            None => Seq::<char>::empty(),
        },
    }
}

/// The text of the caller's address in a header value: nothing for an empty
/// value; of a list separated by commas the first element, without the white
/// space around it; any other value as it is.
pub open spec fn address_text(value: Seq<char>) -> Option<Seq<char>> {
    if value.len() == 0 {
        None
    } else if value.contains(',') {
        Some(trim_of(value.take(position_of(value, ','))))
    } else {
        Some(value)
    }
}

/// The text that holds the address of the caller, taken from the value of
/// `X-Real-IP` or, if the request has none, of `X-Forwarded-For`. A header
/// whose value is not text counts as present and empty. The result still has
/// to be parsed as an address.
pub fn extract_ip(real_ip: Option<&str>, forwarded_for: Option<&str>) -> (r: Option<String>)
    ensures
        match address_text(forwarded_address(real_ip, forwarded_for)) {
            Some(text) => r matches Some(s) && s@ == text,
            None => r is None,
        },
{
    let value: &str = match real_ip {
        Some(v) => v,
        None => match forwarded_for {
            Some(v) => v,
            None => "",
        },
    };
    proof {
        reveal_strlit("");
    }
    let chars = chars_of(value);
    if chars.len() == 0 {
        return None;
    }
    let comma = find_char(&chars, ',');
    proof {
        lemma_position_of(chars@, ',');
    }
    if comma < chars.len() {
        assert(chars@.subrange(0, comma as int) == chars@.take(comma as int));
        Some(trim_range(&chars, 0, comma))
    } else {
        Some(string_of(&chars))
    }
}

/// Whether `status` is a client error, 400 to 499.
pub open spec fn client_error(status: u16) -> bool {
    400 <= status < 500
}

/// Whether `status` is a client error, 400 to 499.
pub fn is_client_error(status: u16) -> (r: bool)
    ensures
        r == client_error(status),
{
    400 <= status && status < 500
}

/// Whether the body of a response is replaced by a JSON error that carries
/// the body's text as its message: for a client error whose content type
/// begins with `text/plain`.
pub fn wraps_plain_error(content_type: Option<&str>, status: u16) -> (r: bool)
    ensures
        r == (content_type matches Some(c) && "text/plain"@.is_prefix_of(c@) && client_error(
            status,
        )),
{
    match content_type {
        Some(c) => starts_with(c, "text/plain") && is_client_error(status),
        None => false,
    }
}

/// The JSON error that stands for a plain-text error body.
pub fn plain_error(text: &str) -> (r: ApiError)
    ensures
        !r.success,
        texts(r.errors@) == seq![text@],
{
    let message: [&str; 1] = [text];
    let r = ApiError::new(message.as_slice());
    assert(messages(message@) =~= seq![text@]);
    r
}

/// Status of a response that is answered without a body because the caller
/// already holds it.
pub const NOT_MODIFIED: u16 = 304;

/// The entity tag of a response and what follows from it.
#[derive(Clone, Debug, PartialEq, Eq)]
pub struct Conditional {
    /// The value of the `ETag` header.
    pub etag: String,
    /// Whether the response is answered as not modified, with an empty body
    /// and the headers of the full response.
    pub not_modified: bool,
}

/// Whether the caller already holds the response with the tag `etag`: it
/// does if the request carried that tag as its `If-None-Match`.
pub fn holds_already(if_none_match: Option<&str>, etag: &str) -> (r: bool)
    ensures
        r == (if_none_match matches Some(v) && v@ == etag@),
{
    match if_none_match {
        Some(v) => same_text(v, etag),
        None => false,
    }
}

/// Tags a response body with its SHA-1 digest in hexadecimal, and compares
/// the tag with the value of `If-None-Match` that the request carried, if
/// any: on a match the caller already holds this body.
pub fn conditional(body: &[u8], if_none_match: Option<&str>) -> (r: Conditional)
    ensures
        r.etag@ == hex_of(sha1_of(body@)),
        r.etag@.len() == 2 * SHA1_LENGTH,
        r.not_modified == (if_none_match matches Some(v) && v@ == hex_of(sha1_of(body@))),
{
    let etag = sha1_hex(body);
    let not_modified = holds_already(if_none_match, etag.as_str());
    Conditional { etag, not_modified }
}

/// Whether a header of an upstream response is left out when the response is
/// passed on: the headers that describe the transfer, not the content.
pub fn is_blacklisted_header(name: &str) -> (r: bool)
    ensures
        r == (name@ == "content-encoding"@ || name@ == "transfer-encoding"@ || name@
            == "connection"@),
{
    same_text(name, "content-encoding") || same_text(name, "transfer-encoding") || same_text(
        name,
        "connection",
    )
}

} // verus!
