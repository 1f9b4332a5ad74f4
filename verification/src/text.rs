//! Bridging between byte strings and `String` for ASCII text.
//!
//! The engine computes ticket text, directory names and hash spellings as
//! ASCII byte strings; this module turns them into `String`s for the host.

use vstd::prelude::*;
use vstd::string::StringSliceAdditionalSpecFns;
use vstd::utf8::encode_utf8;

verus! {

/// The characters that a sequence of ASCII bytes stands for.
pub open spec fn chars_of_bytes(b: Seq<u8>) -> Seq<char> {
    b.map_values(|x: u8| x as char)
}

/// All bytes of the sequence are ASCII.
pub open spec fn all_ascii(b: Seq<u8>) -> bool {
    forall|i: int| 0 <= i < b.len() ==> #[trigger] b[i] < 128
}

/// Relies on `String::from_utf8`: a string of ASCII bytes is valid UTF-8,
/// decodes to exactly those bytes read as characters, and encodes back to
/// the same bytes (UTF-8 extends ASCII unchanged).
#[verifier::external_body]
pub fn ascii_string(bytes: Vec<u8>) -> (r: String)
    requires
        all_ascii(bytes@),
    ensures
        r@ == chars_of_bytes(bytes@),
        encode_utf8(r@) == bytes@,
{
    String::from_utf8(bytes).unwrap_or_default()
}

/// The UTF-8 bytes of a string, with their specification: `r@` is the
/// UTF-8 encoding of the string's characters.
pub fn str_bytes(s: &str) -> (r: &[u8])
    ensures
        r@ == s.spec_bytes(),
        r@ == encode_utf8(s@),
{
    s.as_bytes()
}

} // verus!
