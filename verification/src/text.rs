//! Text decoding at the edge of the crate: archive names are UTF-8 and
//! PICT text operands are windows-1252.  The decoders themselves come
//! from outside; their results are named here and every claim about the
//! surrounding logic is stated over those names.

use vstd::prelude::*;

verus! {

/// The character sequence that strict UTF-8 decoding assigns to a valid
/// UTF-8 byte sequence.
pub uninterp spec fn utf8_chars(bytes: Seq<u8>) -> Seq<char>;

/// Whether a byte sequence is valid UTF-8.
pub uninterp spec fn is_utf8(bytes: Seq<u8>) -> bool;

/// Relies on `String::from_utf8`: it returns `Ok` exactly when the
/// input is valid UTF-8 — a property of the bytes alone — and the
/// decoded text is a function of the bytes alone.
#[verifier::external_body]
pub fn string_from_utf8(bytes: Vec<u8>) -> (r: Option<String>)
    ensures
        r is Some <==> is_utf8(bytes@),
        r matches Some(s) ==> s@ == utf8_chars(bytes@),
{
    String::from_utf8(bytes).ok()
}

/// The character that the windows-1252 encoding assigns to a byte.
pub uninterp spec fn win1252_char(b: u8) -> char;

/// The windows-1252 decoding of a byte sequence: one character per byte.
pub open spec fn win1252_chars(bytes: Seq<u8>) -> Seq<char> {
    Seq::new(bytes.len(), |i: int| win1252_char(bytes[i]))
}

/// Relies on `encoding_rs::WINDOWS_1252`'s whole-input decode without
/// replacement: windows-1252 is a single-byte encoding whose table maps
/// every one of the 128 high bytes to a character (ASCII maps to
/// itself), so the decode always succeeds, with one character per input
/// byte, and is a function of the bytes alone.
#[verifier::external_body]
pub fn decode_windows_1252(bytes: &[u8]) -> (r: Option<String>)
    ensures
        r is Some,
        r matches Some(s) ==> s@ == Seq::new(bytes@.len(), |i: int| win1252_char(bytes@[i])),
        r matches Some(s) ==> s@ == win1252_chars(bytes@),
{
    encoding_rs::WINDOWS_1252
        .decode_without_bom_handling_and_without_replacement(bytes)
        .map(|c| c.into_owned())
}

} // verus!
