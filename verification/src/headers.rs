//! Reading the headers of a response.
//!
//! The header map and its values are the HTTP client's own types. What the
//! rest of the crate knows of them is stated here, on the two lookups that
//! it makes.

use reqwest::header::{HeaderMap, HeaderValue};
use vstd::prelude::*;

verus! {

/// `reqwest::header::HeaderMap`, the header multimap of the HTTP client.
/// Nothing of its inside is known here.
#[verifier::external_type_specification]
#[verifier::external_body]
#[verifier::reject_recursive_types(T)]
pub struct ExHeaderMap<T>(HeaderMap<T>);

/// `reqwest::header::HeaderValue`, one value of a header. Nothing of its
/// inside is known here.
#[verifier::external_type_specification]
#[verifier::external_body]
pub struct ExHeaderValue(HeaderValue);

/// What a header map holds: each header name that occurs in it, written in
/// lower case, with the values stored under that name in the order in which
/// they were added. The name has no definition: it is spoken of by the
/// contract of the lookup below, and by nothing else.
pub uninterp spec fn header_values(headers: HeaderMap) -> Map<Seq<char>, Seq<Seq<u8>>>;

/// The bytes that a header value is made of. The name has no definition: it
/// ties the value that the lookup hands out to the value that is read as
/// text.
pub uninterp spec fn value_bytes(value: HeaderValue) -> Seq<u8>;

/// A header name that the map stores as it is written: one to 64
/// characters, each a lower-case letter, a digit or a hyphen.
pub open spec fn is_plain_name(name: Seq<char>) -> bool {
    &&& 1 <= name.len() <= 64
    &&& forall|i: int|
        0 <= i < name.len() ==> {
            let c = #[trigger] name[i];
            'a' <= c <= 'z' || '0' <= c <= '9' || c == '-'
        }
}

/// A byte that may stand in a header value read as text: printable ASCII or
/// a tab.
pub open spec fn is_visible(b: u8) -> bool {
    32 <= b < 127 || b == 9
}

/// Whether every byte of `bytes` is visible.
pub open spec fn all_visible(bytes: Seq<u8>) -> bool {
    forall|i: int| 0 <= i < bytes.len() ==> is_visible(#[trigger] bytes[i])
}

/// ASCII bytes read as characters.
pub open spec fn ascii_text(bytes: Seq<u8>) -> Seq<char> {
    Seq::new(bytes.len(), |i: int| bytes[i] as char)
}

/// The text of the first value stored under `name`; `None` where the map has
/// no such header or where that value holds a byte that is not visible.
pub open spec fn header_text(headers: HeaderMap, name: Seq<char>) -> Option<Seq<char>> {
    let values = header_values(headers);
    if values.contains_key(name) && all_visible(values[name][0]) {
        Some(ascii_text(values[name][0]))
    } else {
        None
    }
}

/// `HeaderMap::get` with a string key. The contract claims that the lookup
/// of a plain name finds the header of exactly that name, and hands out the
/// first of the values stored under it.
#[verifier::external_body]
fn first_value<'a>(headers: &'a HeaderMap, name: &str) -> (value: Option<&'a HeaderValue>)
    requires
        is_plain_name(name@),
    ensures
        value matches Some(v) ==> header_values(*headers).contains_key(name@) && header_values(
            *headers,
        )[name@].len() > 0 && value_bytes(*v) == header_values(*headers)[name@][0],
        value is None ==> !header_values(*headers).contains_key(name@),
{
    headers.get(name)
}

/// `HeaderValue::to_str`. The contract claims that the value is read as text
/// exactly when all of its bytes are visible, and that the text then has one
/// character for each byte.
#[verifier::external_body]
fn value_text<'a>(value: &'a HeaderValue) -> (text: Option<&'a str>)
    ensures
        text matches Some(t) ==> all_visible(value_bytes(*value)) && t@ == ascii_text(
            value_bytes(*value),
        ),
        text is None ==> !all_visible(value_bytes(*value)),
{
    value.to_str().ok()
}

/// The text of the header `name`, where the response carries it in a form
/// that can be read as text.
pub(crate) fn read_header<'a>(headers: &'a HeaderMap, name: &str) -> (text: Option<&'a str>)
    requires
        is_plain_name(name@),
    ensures
        text matches Some(t) ==> header_text(*headers, name@) == Some(t@),
        text is None ==> header_text(*headers, name@) is None,
{
    match first_value(headers, name) {
        Some(value) => value_text(value),
        None => None,
    }
}

} // verus!
