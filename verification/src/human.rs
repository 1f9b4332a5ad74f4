//! Human-readable byte counts for the host's display.

use vstd::prelude::*;

verus! {

/// The text a byte count is rendered to. The result depends on the count
/// alone.
pub uninterp spec fn byte_size_chars(size: u64) -> Seq<char>;

/// Relies on `bytesize::ByteSize::b` and its `Display` implementation: the
/// rendered text (binary units, one decimal place) is a function of the
/// byte count alone.
#[verifier::external_body]
pub fn format_bytes(size: u64) -> (r: String)
    ensures
        r@ == byte_size_chars(size),
{
    bytesize::ByteSize::b(size).to_string()
}

} // verus!
