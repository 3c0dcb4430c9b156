//! HTTP headers, as the `reqwest` crate holds them.
//!
//! A request carries its headers in a [`HeaderMap`], ready to be sent. What
//! such a map holds is known here only through [`header_entries`]; the
//! functions of this module that call into `reqwest` are believed, not proved.

use vstd::prelude::*;
use vstd::string::StringSliceAdditionalSpecFns;
use reqwest::header::{HeaderMap, HeaderValue, InvalidHeaderValue};

verus! {

#[verifier::external_type_specification]
#[verifier::external_body]
pub struct ExHeaderValue(HeaderValue);

#[verifier::external_type_specification]
#[verifier::external_body]
pub struct ExInvalidHeaderValue(InvalidHeaderValue);

#[verifier::external_type_specification]
#[verifier::external_body]
#[verifier::reject_recursive_types(T)]
pub struct ExHeaderMap<T>(HeaderMap<T>);

/// The bytes that a header value holds (`HeaderValue::as_bytes`).
pub uninterp spec fn header_value_bytes(value: HeaderValue) -> Seq<u8>;

/// What a header map holds: for each header name in it, in lower case, the
/// bytes of the first value under that name (`HeaderMap::get`).
pub uninterp spec fn header_entries(headers: HeaderMap) -> Map<Seq<char>, Seq<u8>>;

/// A map without headers.
pub open spec fn no_headers() -> Map<Seq<char>, Seq<u8>> {
    Map::empty()
}

/// The bytes that a header value may hold: anything from the space on but
/// DEL, and the tab.
pub open spec fn is_header_value_byte(b: u8) -> bool {
    b >= 32 && b != 127 || b == 9
}

pub open spec fn is_header_value(bytes: Seq<u8>) -> bool {
    forall|i: int| 0 <= i < bytes.len() ==> is_header_value_byte(#[trigger] bytes[i])
}

/// The characters of the header names used here: lower-case letters, digits
/// and the hyphen.
pub open spec fn is_header_name_char(c: char) -> bool {
    ('a' <= c <= 'z') || ('0' <= c <= '9') || c == '-'
}

/// A header name in lower case, of 1 to 64 characters.
pub open spec fn is_header_name(name: Seq<char>) -> bool {
    &&& 1 <= name.len() <= 64
    &&& forall|i: int| 0 <= i < name.len() ==> is_header_name_char(#[trigger] name[i])
}

/// The most headers a map may hold before one more is inserted here.
pub const HEADER_LIMIT: usize = 1024;

/// Calls `HeaderValue::from_str`. It succeeds exactly on a text all of whose
/// bytes a header value may hold, and the value then holds these bytes.
#[verifier::external_body]
pub(crate) fn header_value_from_str(text: &str) -> (r: Result<HeaderValue, InvalidHeaderValue>)
    ensures
        r is Ok <==> is_header_value(text.spec_bytes()),
        r matches Ok(value) ==> header_value_bytes(value) == text.spec_bytes(),
{
    HeaderValue::from_str(text)
}

/// Calls `HeaderMap::new`, which gives a map without headers.
#[verifier::external_body]
pub(crate) fn header_map_new() -> (headers: HeaderMap)
    ensures
        header_entries(headers) == no_headers(),
{
    HeaderMap::new()
}

/// Calls `HeaderMap::insert` with a name in lower case. The value replaces
/// what the map held under that name; the other headers stay. The call
/// panics on a name that is no header name and on a map grown beyond what it
/// can index, which `requires` leaves out.
#[verifier::external_body]
pub(crate) fn header_map_insert(headers: &mut HeaderMap, name: &'static str, value: HeaderValue)
    requires
        is_header_name(name@),
        header_entries(*old(headers)).dom().finite(),
        header_entries(*old(headers)).dom().len() < HEADER_LIMIT,
    ensures
        header_entries(*final(headers)) == header_entries(*old(headers)).insert(
            name@,
            header_value_bytes(value),
        ),
{
    headers.insert(name, value);
}

} // verus!
