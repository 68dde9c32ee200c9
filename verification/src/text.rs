//! Bytes as text.

use vstd::prelude::*;
use vstd::utf8::{encode_utf8, valid_utf8};

verus! {

/// Calls `std::str::from_utf8`. Trusted: the text comes back exactly when the
/// bytes are valid UTF-8, and it is then the text that those bytes encode.
#[verifier::external_body]
pub(crate) fn utf8_text(bytes: &[u8]) -> (text: Option<&str>)
    ensures
        text is Some <==> valid_utf8(bytes@),
        text matches Some(s) ==> encode_utf8(s@) == bytes@,
{
    std::str::from_utf8(bytes).ok()
}

/// Whether the bytes are valid UTF-8.
pub fn is_utf8(bytes: &[u8]) -> (b: bool)
    ensures
        b == valid_utf8(bytes@),
{
    utf8_text(bytes).is_some()
}

} // verus!
