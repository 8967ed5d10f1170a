//! Java's modified UTF-8, through the `cesu8` crate.
use vstd::prelude::*;
use vstd::utf8::*;

verus! {

/// Text that Java's modified UTF-8 writes as plain UTF-8: no NUL and no
/// character beyond the Basic Multilingual Plane.
pub open spec fn plain_text(s: Seq<char>) -> bool {
    forall|i: int| 0 <= i < s.len() ==> #[trigger] s[i] != '\0' && (s[i] as u32) < 0x10000
}

/// The modified UTF-8 bytes `cesu8::to_java_cesu8` produces for a text.
pub uninterp spec fn java_cesu8_encode(s: Seq<char>) -> Seq<u8>;

/// The text `cesu8::from_java_cesu8` decodes from bytes, or `None` when it
/// rejects them.
pub uninterp spec fn java_cesu8_decode(b: Seq<u8>) -> Option<Seq<char>>;

/// Encodes text as Java's modified UTF-8 with `cesu8::to_java_cesu8`.
/// The crate passes plain text through as its UTF-8 bytes (it borrows
/// `text.as_bytes()` when the text has no NUL and no 4-byte character),
/// and `cesu8::from_java_cesu8` decodes what it writes back to the text:
/// plain text as UTF-8, `C0 80` as NUL, a six-byte surrogate pair as the
/// character beyond the Basic Multilingual Plane it stands for.
#[verifier::external_body]
pub(crate) fn to_java_cesu8(s: &str) -> (b: Vec<u8>)
    ensures
        b@ == java_cesu8_encode(s@),
        plain_text(s@) ==> b@ == encode_utf8(s@),
        java_cesu8_decode(b@) == Some(s@),
{
    cesu8::to_java_cesu8(s).into_owned()
}

/// Decodes Java's modified UTF-8 with `cesu8::from_java_cesu8`. The crate
/// first tries `std::str::from_utf8` and returns that text when the bytes
/// are valid UTF-8.
#[verifier::external_body]
pub(crate) fn from_java_cesu8(b: &[u8]) -> (r: Option<String>)
    ensures
        r is Some <==> java_cesu8_decode(b@) is Some,
        r matches Some(s) ==> s@ == java_cesu8_decode(b@)->0,
        valid_utf8(b@) ==> r is Some && r->0@ == decode_utf8(b@),
{
    match cesu8::from_java_cesu8(b) {
        Ok(s) => Some(s.into_owned()),
        Err(_) => None,
    }
}

} // verus!
