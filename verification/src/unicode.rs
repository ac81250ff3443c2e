//! Unicode character properties and case mappings from the standard library.
//!
//! On ASCII these agree with the ASCII classes and case mapping, as the
//! standard library documents; beyond ASCII the Unicode tables behind them
//! take pages, so each result there is named and depends on its argument
//! alone.
use vstd::prelude::*;
use crate::text::{ascii_lower, ascii_lower_seq, is_ascii_alnum, is_ascii_alpha};

verus! {

/// What `str::to_lowercase` returns for a string that is not all ASCII.
pub uninterp spec fn unicode_str_lowercase(s: Seq<char>) -> Seq<char>;

/// What `char::is_alphanumeric` returns for a character beyond ASCII.
pub uninterp spec fn unicode_is_alphanumeric(c: char) -> bool;

/// What `char::is_alphabetic` returns for a character beyond ASCII.
pub uninterp spec fn unicode_is_alphabetic(c: char) -> bool;

/// What `char::is_uppercase` returns for a character beyond ASCII.
pub uninterp spec fn unicode_is_uppercase(c: char) -> bool;

/// The characters `char::to_lowercase` yields for a character beyond ASCII.
pub uninterp spec fn unicode_char_lowercase(c: char) -> Seq<char>;

/// An ASCII character.
pub open spec fn is_ascii_char(c: char) -> bool {
    (c as u32) < 0x80
}

/// `str::to_lowercase`: ASCII lower-casing for an all-ASCII text.
pub open spec fn spec_str_lowercase(s: Seq<char>) -> Seq<char> {
    if forall|i: int| 0 <= i < s.len() ==> is_ascii_char(#[trigger] s[i]) {
        ascii_lower_seq(s)
    } else {
        unicode_str_lowercase(s)
    }
}

/// `char::is_alphanumeric`: an ASCII letter or digit, for ASCII.
pub open spec fn spec_is_alphanumeric(c: char) -> bool {
    if is_ascii_char(c) {
        is_ascii_alnum(c)
    } else {
        unicode_is_alphanumeric(c)
    }
}

/// `char::is_alphabetic`: an ASCII letter, for ASCII.
pub open spec fn spec_is_alphabetic(c: char) -> bool {
    if is_ascii_char(c) {
        is_ascii_alpha(c)
    } else {
        unicode_is_alphabetic(c)
    }
}

/// `char::is_uppercase`: `A` to `Z`, for ASCII.
pub open spec fn spec_is_uppercase(c: char) -> bool {
    if is_ascii_char(c) {
        'A' <= c && c <= 'Z'
    } else {
        unicode_is_uppercase(c)
    }
}

/// `char::to_lowercase`: the ASCII lower case, for ASCII.
pub open spec fn spec_char_lowercase(c: char) -> Seq<char> {
    if is_ascii_char(c) {
        seq![ascii_lower(c)]
    } else {
        unicode_char_lowercase(c)
    }
}

/// `str::to_lowercase`: the Unicode lower-case mapping of the whole string.
/// For an all-ASCII string that is ASCII lower-casing, as documented; beyond
/// that the result is named.
#[verifier::external_body]
pub fn str_lowercase(s: &str) -> (r: String)
    ensures
        r@ == spec_str_lowercase(s@),
        !(forall|i: int| 0 <= i < s@.len() ==> is_ascii_char(#[trigger] s@[i])) ==> r@ == unicode_str_lowercase(s@),
{
    s.to_lowercase()
}

/// `char::is_alphanumeric` (Unicode `Alphabetic` or `Numeric`): on ASCII the
/// letters and digits; beyond ASCII the result is named.
#[verifier::external_body]
pub fn is_alphanumeric(c: char) -> (r: bool)
    ensures
        r == spec_is_alphanumeric(c),
        !is_ascii_char(c) ==> r == unicode_is_alphanumeric(c),
{
    c.is_alphanumeric()
}

/// `char::is_alphabetic` (Unicode `Alphabetic`): on ASCII the letters;
/// beyond ASCII the result is named.
#[verifier::external_body]
pub fn is_alphabetic(c: char) -> (r: bool)
    ensures
        r == spec_is_alphabetic(c),
        !is_ascii_char(c) ==> r == unicode_is_alphabetic(c),
{
    c.is_alphabetic()
}

/// `char::is_uppercase` (Unicode `Uppercase`): on ASCII `A` to `Z`; beyond
/// ASCII the result is named.
#[verifier::external_body]
pub fn is_uppercase(c: char) -> (r: bool)
    ensures
        r == spec_is_uppercase(c),
        !is_ascii_char(c) ==> r == unicode_is_uppercase(c),
{
    c.is_uppercase()
}

/// `char::to_lowercase`, collected: the one to three characters of the
/// lower-case mapping of `c`; on ASCII its ASCII lower case, beyond ASCII
/// named.
#[verifier::external_body]
pub fn char_lowercase(c: char) -> (r: Vec<char>)
    ensures
        r@ == spec_char_lowercase(c),
        !is_ascii_char(c) ==> r@ == unicode_char_lowercase(c),
{
    c.to_lowercase().collect()
}

} // verus!
