//! Facts of `std` that vstd does not state, used for Unicode case handling.
use vstd::prelude::*;
use crate::casing::{ascii_lower, ascii_upper};

verus! {

/// Whether `char::is_uppercase` holds of the character (the Unicode `Uppercase` property).
pub uninterp spec fn char_is_uppercase(c: char) -> bool;

/// Whether `char::is_alphanumeric` holds of the character (Unicode `Alphabetic` or `Numeric`).
pub uninterp spec fn char_is_alphanumeric(c: char) -> bool;

/// What `str::to_lowercase` gives for a string.
pub uninterp spec fn lowercase_of(s: Seq<char>) -> Seq<char>;

/// What `str::to_uppercase` gives for a string.
pub uninterp spec fn uppercase_of(s: Seq<char>) -> Seq<char>;

/// Every character is ASCII (below U+0080).
pub open spec fn all_ascii(s: Seq<char>) -> bool {
    forall|i: int| 0 <= i < s.len() ==> (#[trigger] s[i] as u32) < 128
}

/// Calls `char::is_uppercase`; the contract names its result and states nothing more of it.
#[verifier::external_body]
pub(crate) fn is_uppercase_char(c: char) -> (b: bool)
    ensures
        b == char_is_uppercase(c),
{
    c.is_uppercase()
}

/// Calls `char::is_alphanumeric`; the contract names its result and states nothing more of it.
#[verifier::external_body]
pub(crate) fn is_alphanumeric_char(c: char) -> (b: bool)
    ensures
        b == char_is_alphanumeric(c),
{
    c.is_alphanumeric()
}

/// Calls `str::to_lowercase`; the contract names its result, a function of the string alone,
/// and states that an ASCII string has each ASCII uppercase letter lowered and nothing else
/// changed (the Unicode lowercase mapping of ASCII characters).
#[verifier::external_body]
pub(crate) fn to_lowercase_string(s: &str) -> (r: String)
    ensures
        r@ == lowercase_of(s@),
        all_ascii(s@) ==> r@ == s@.map_values(|c: char| ascii_lower(c)),
{
    s.to_lowercase()
}

/// Calls `str::to_uppercase`; the contract names its result, a function of the string alone,
/// and states that an ASCII string has each ASCII lowercase letter raised and nothing else
/// changed (the Unicode uppercase mapping of ASCII characters).
#[verifier::external_body]
pub(crate) fn to_uppercase_string(s: &str) -> (r: String)
    ensures
        r@ == uppercase_of(s@),
        all_ascii(s@) ==> r@ == s@.map_values(|c: char| ascii_upper(c)),
{
    s.to_uppercase()
}

} // verus!
