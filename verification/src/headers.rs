use vstd::prelude::*;

use reqwest::header::HeaderValue;
use vstd::utf8::encode_utf8;

verus! {

/// An HTTP header value.
#[verifier::external_type_specification]
#[verifier::external_body]
pub struct ExHeaderValue(HeaderValue);

/// A byte that an HTTP header value may hold: tab, or 32 and up but DEL.
pub open spec fn is_header_byte(b: u8) -> bool {
    (b >= 32 && b != 127) || b == 9
}

/// Whether every UTF-8 byte of `s` may stand in an HTTP header value.
pub open spec fn is_header_text(s: Seq<char>) -> bool {
    forall|i: int| 0 <= i < encode_utf8(s).len() ==> is_header_byte(#[trigger] encode_utf8(s)[i])
}

/// Calls `HeaderValue::from_str` (what `str::parse` does for the type).
/// Claimed, as its source shows: it succeeds exactly when every byte of
/// the text is a tab or at least 32 and not 127.
#[verifier::external_body]
pub(crate) fn header_value(text: &str) -> (r: Option<HeaderValue>)
    ensures
        r is Some <==> is_header_text(text@),
{
    match HeaderValue::from_str(text) {
        Ok(v) => Some(v),
        Err(_) => None,
    }
}

} // verus!
