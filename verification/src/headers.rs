//! The header fields of an HTTP request, as the `http` crate (reached through
//! `axum`) keeps them.

use vstd::prelude::*;

verus! {

/// `HeaderMap`: the values of a request's header fields by their names.
#[verifier::external_type_specification]
#[verifier::external_body]
#[verifier::reject_recursive_types(T)]
pub struct ExHeaderMap<T>(axum::http::HeaderMap<T>);

/// `HeaderValue`: the bytes of one header field.
#[verifier::external_type_specification]
#[verifier::external_body]
pub struct ExHeaderValue(axum::http::HeaderValue);

/// `ToStrError`: a header value is not text.
#[verifier::external_type_specification]
#[verifier::external_body]
pub struct ExToStrError(axum::http::header::ToStrError);

/// What a header map holds: for each header name, in lower case, the bytes of
/// the first value stored under it.
pub uninterp spec fn header_fields(headers: axum::http::HeaderMap) -> Map<Seq<char>, Seq<u8>>;

/// The bytes that a header value holds.
pub uninterp spec fn header_bytes(value: axum::http::HeaderValue) -> Seq<u8>;

/// Whether `b` is a visible ASCII byte or a tab.
pub open spec fn is_visible_ascii(b: u8) -> bool {
    32 <= b < 127 || b == 9
}

/// Whether `name` consists of lower-case ASCII letters.
pub open spec fn is_lower_name(name: Seq<char>) -> bool {
    forall|i: int| 0 <= i < name.len() ==> 'a' <= #[trigger] name[i] <= 'z'
}

/// `HeaderMap::get` finds the first value stored under a name, and nothing
/// where no value is stored under it. The map keeps names in lower case, so a
/// name in lower case is looked up as it is.
#[verifier::external_body]
pub(crate) fn header_get<'a>(headers: &'a axum::http::HeaderMap, name: &str) -> (r: Option<
    &'a axum::http::HeaderValue,
>)
    requires
        is_lower_name(name@),
    ensures
        r is Some <==> header_fields(*headers).contains_key(name@),
        r matches Some(value) ==> header_bytes(*value) == header_fields(*headers)[name@],
{
    headers.get(name)
}

/// Whether a header value is text.
pub open spec fn is_header_text(bytes: Seq<u8>) -> bool {
    forall|i: int| 0 <= i < bytes.len() ==> is_visible_ascii(#[trigger] bytes[i])
}

/// The text of a header value that is text.
pub open spec fn header_text(bytes: Seq<u8>) -> Seq<char> {
    Seq::new(bytes.len(), |i: int| bytes[i] as char)
}

/// `HeaderValue::to_str` gives the value's bytes as text when each of them is
/// visible ASCII or a tab, and fails otherwise.
pub assume_specification[ axum::http::HeaderValue::to_str ](
    value: &axum::http::HeaderValue,
) -> (r: Result<&str, axum::http::header::ToStrError>)
    ensures
        r is Ok <==> is_header_text(header_bytes(*value)),
        r matches Ok(content) ==> content@ == header_text(header_bytes(*value)),
;

} // verus!
