//! Conversions between byte buffers and strings used across the crate.

use vstd::prelude::*;

verus! {

/// Relies on String::from_utf8: a vector of ASCII bytes is valid UTF-8 and
/// converts to a string whose characters are exactly those bytes.
#[verifier::external_body]
pub(crate) fn ascii_bytes_to_string(v: Vec<u8>) -> (r: String)
    requires
        forall|i: int| 0 <= i < v@.len() ==> v@[i] < 128,
    ensures
        r@.len() == v@.len(),
        forall|i: int| 0 <= i < v@.len() ==> r@[i] == v@[i] as char,
{
    String::from_utf8(v).unwrap_or_default()
}

/// Relies on String::from_utf8: it succeeds exactly on valid UTF-8 input and
/// returns the string whose UTF-8 encoding is that input.
#[verifier::external_body]
pub(crate) fn utf8_bytes_to_string(v: Vec<u8>) -> (r: Option<String>)
    ensures
        r matches Some(s) ==> vstd::utf8::encode_utf8(s@) == v@,
        r is Some <==> vstd::utf8::valid_utf8(v@),
{
    String::from_utf8(v).ok()
}

} // verus!
