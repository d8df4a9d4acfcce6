//! The Unicode character properties and case mappings that slugs and file
//! extensions go by, as std computes them.

use vstd::prelude::*;

verus! {

/// Whether `char::is_alphanumeric` holds of `c` (Unicode `Alphabetic` or
/// `Numeric`).
pub uninterp spec fn char_is_alphanumeric(c: char) -> bool;

/// The first character of `char::to_lowercase` of `c`.
pub uninterp spec fn char_lowercase_first(c: char) -> char;

/// An ASCII letter or digit.
pub open spec fn is_ascii_alphanumeric(c: char) -> bool {
    ('a' <= c && c <= 'z') || ('A' <= c && c <= 'Z') || ('0' <= c && c <= '9')
}

/// An ASCII uppercase letter.
pub open spec fn is_ascii_upper(c: char) -> bool {
    'A' <= c && c <= 'Z'
}

/// Every character of `s` is ASCII.
pub open spec fn is_ascii_text(s: Seq<char>) -> bool {
    forall|i: int| 0 <= i < s.len() ==> (#[trigger] s[i] as u32) < 128
}

/// Calls `char::is_alphanumeric`. Claimed: the result is
/// `char_is_alphanumeric(c)`; among ASCII characters exactly the letters and
/// digits are alphanumeric, so `-` is not (the Unicode tables for the rest
/// are not spelled out).
#[verifier::external_body]
pub(crate) fn is_alphanumeric(c: char) -> (r: bool)
    ensures
        r == char_is_alphanumeric(c),
        (c as u32) < 128 ==> (r == is_ascii_alphanumeric(c)),
{
    c.is_alphanumeric()
}

/// Calls `char::to_lowercase` and takes the first character of the mapping
/// (the mapping always has one). Claimed: that character is
/// `char_lowercase_first(c)`; it is never an ASCII uppercase letter; an
/// ASCII character other than `A`..`Z` is its own lowercase; and the
/// lowercase of an alphanumeric character is alphanumeric, not `-`, and its
/// own lowercase (Unicode case mapping is idempotent). The case mapping
/// itself is not spelled out.
#[verifier::external_body]
pub(crate) fn lowercase_first(c: char) -> (r: char)
    ensures
        r == char_lowercase_first(c),
        !is_ascii_upper(r),
        (c as u32) < 128 && !is_ascii_upper(c) ==> r == c,
        (c as u32) < 128 ==> (r as u32) < 128,
        char_is_alphanumeric(c) ==> char_is_alphanumeric(r) && r != '-' && char_lowercase_first(r)
            == r,
{
    c.to_lowercase().next().unwrap()
}

/// `str::to_lowercase` of `s`.
pub uninterp spec fn str_lowercase(s: Seq<char>) -> Seq<char>;

/// Calls `str::to_lowercase`. Claimed: the result is `str_lowercase(s)`, and
/// an ASCII text lowercases to an ASCII text of the same length (each ASCII
/// character maps to one ASCII character); the Unicode case mapping is not
/// spelled out.
#[verifier::external_body]
pub(crate) fn lowercase(s: &str) -> (r: String)
    ensures
        r@ == str_lowercase(s@),
        is_ascii_text(s@) ==> is_ascii_text(r@) && r@.len() == s@.len(),
{
    s.to_lowercase()
}

} // verus!
