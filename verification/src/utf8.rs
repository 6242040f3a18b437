//! Bytes as text, through the conversions of the standard library.

use vstd::prelude::*;
use vstd::utf8::*;

verus! {

/// The text in which the standard library describes why `bytes` is not valid UTF-8.
pub uninterp spec fn utf8_error_text(bytes: Seq<u8>) -> Seq<char>;

/// Calls `std::str::from_utf8`. It succeeds exactly on valid UTF-8, and the string then has
/// these bytes. Otherwise the error, written out, is a text that depends on the bytes alone.
#[verifier::external_body]
pub(crate) fn from_utf8(bytes: &[u8]) -> (r: Result<&str, String>)
    ensures
        r is Ok <==> valid_utf8(bytes@),
        r matches Ok(s) ==> s@ == decode_utf8(bytes@),
        r matches Err(message) ==> message@ == utf8_error_text(bytes@),
{
    std::str::from_utf8(bytes).map_err(|error| error.to_string())
}

/// The text that the standard library makes of `bytes` where they need not be valid UTF-8.
pub uninterp spec fn lossy_text(bytes: Seq<u8>) -> Seq<char>;

/// Calls `String::from_utf8_lossy`. The text depends on the bytes alone, and is their own
/// text where they are valid UTF-8.
#[verifier::external_body]
pub(crate) fn from_utf8_lossy(bytes: &[u8]) -> (s: String)
    ensures
        s@ == lossy_text(bytes@),
        valid_utf8(bytes@) ==> s@ == decode_utf8(bytes@),
{
    String::from_utf8_lossy(bytes).into_owned()
}

} // verus!
