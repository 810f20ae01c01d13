//! Turning response bytes into caller-facing text.
//!
//! The grammar works on raw bytes; only at the very edge, when a trailing
//! text is handed to the caller, are bytes decoded into a `String`.  The
//! decoding itself is std's, taken on trust; everything stated about it is
//! a function of the bytes alone.

use vstd::prelude::*;
use vstd::utf8::decode_utf8;
use vstd::utf8::valid_utf8;

verus! {

/// What `String::from_utf8_lossy` makes of a byte string.
pub uninterp spec fn lossy_of(bytes: Seq<u8>) -> Seq<char>;

/// `text` is the lossy decoding of `bytes`: always `lossy_of`, and for
/// valid UTF-8 exactly the bytes' own characters.
pub open spec fn decoded(bytes: Seq<u8>, text: Seq<char>) -> bool {
    &&& text == lossy_of(bytes)
    &&& valid_utf8(bytes) ==> text == decode_utf8(bytes)
}

/// Relies on `String::from_utf8_lossy`: the result depends on the bytes
/// alone, and bytes that are valid UTF-8 decode to exactly their own
/// characters (invalid sequences become replacement characters).
#[verifier::external_body]
pub(crate) fn bytes_to_string(bytes: &[u8]) -> (r: String)
    ensures
        r@ == lossy_of(bytes@),
        valid_utf8(bytes@) ==> r@ == decode_utf8(bytes@),
{
    String::from_utf8_lossy(bytes).into_owned()
}

} // verus!
