//! Character classes of the lexical grammar.
//!
//! The grammar sorts characters into whitespace, word characters
//! (alphanumerics and `_`), decimal digits and punctuation. Within ASCII the
//! classes are spelled out below; beyond ASCII they follow the Unicode
//! properties that `char`'s own classification methods implement, which are
//! named here but left unspecified.

use vstd::prelude::*;

verus! {

/// Whether `c` lies in the ASCII range.
pub open spec fn is_ascii_char(c: char) -> bool {
    (c as u32) < 128
}

/// What `char::is_alphabetic` returns on a character beyond ASCII.
pub uninterp spec fn ext_alphabetic(c: char) -> bool;

/// What `char::is_alphanumeric` returns on a character beyond ASCII.
pub uninterp spec fn ext_alphanumeric(c: char) -> bool;

/// What `char::is_whitespace` returns on a character beyond ASCII.
pub uninterp spec fn ext_whitespace(c: char) -> bool;

/// A decimal digit, `'0'` to `'9'`.
pub open spec fn is_digit_char(c: char) -> bool {
    ('0' as u32) <= (c as u32) <= ('9' as u32)
}

/// An alphabetic character: an ASCII letter, or beyond ASCII a character
/// with Unicode's `Alphabetic` property.
pub open spec fn spec_alphabetic(c: char) -> bool {
    if is_ascii_char(c) {
        ('a' as u32) <= (c as u32) <= ('z' as u32) || ('A' as u32) <= (c as u32) <= ('Z' as u32)
    } else {
        ext_alphabetic(c)
    }
}

/// An alphanumeric character: an ASCII letter or digit, or beyond ASCII a
/// character that is alphabetic or carries one of Unicode's numeric
/// properties.
pub open spec fn spec_alphanumeric(c: char) -> bool {
    if is_ascii_char(c) {
        spec_alphabetic(c) || is_digit_char(c)
    } else {
        ext_alphanumeric(c)
    }
}

/// A whitespace character: the ASCII space or one of the controls
/// U+0009..U+000D, or beyond ASCII a character with Unicode's `White_Space`
/// property.
pub open spec fn spec_whitespace(c: char) -> bool {
    if is_ascii_char(c) {
        c == ' ' || (9 <= (c as u32) <= 13)
    } else {
        ext_whitespace(c)
    }
}

/// A character that may open an identifier or keyword.
pub open spec fn is_word_start(c: char) -> bool {
    spec_alphabetic(c) || c == '_'
}

/// A character that may continue an identifier or keyword.
pub open spec fn is_word_char(c: char) -> bool {
    spec_alphanumeric(c) || c == '_'
}

/// One of the five punctuation characters of the grammar.
pub open spec fn is_symbol_char(c: char) -> bool {
    c == '{' || c == '}' || c == '(' || c == ')' || c == ';'
}

/// Relies on `char::is_whitespace`: within ASCII it holds of exactly the
/// space character and the controls U+0009..U+000D; beyond ASCII it decides
/// by Unicode's `White_Space` property, a fixed function of the character,
/// named `ext_whitespace`.
pub assume_specification[ char::is_whitespace ](c: char) -> (r: bool)
    ensures
        r == spec_whitespace(c),
        !is_ascii_char(c) ==> r == ext_whitespace(c),
;

/// Relies on `char::is_alphabetic`: within ASCII it holds of exactly the
/// letters `'a'`..`'z'` and `'A'`..`'Z'`; beyond ASCII it decides by
/// Unicode's `Alphabetic` property, a fixed function of the character,
/// named `ext_alphabetic`.
pub assume_specification[ char::is_alphabetic ](c: char) -> (r: bool)
    ensures
        r == spec_alphabetic(c),
        !is_ascii_char(c) ==> r == ext_alphabetic(c),
;

/// Relies on `char::is_alphanumeric`: within ASCII it holds of exactly the
/// letters and digits; beyond ASCII it decides by Unicode's `Alphabetic`
/// and numeric properties, a fixed function of the character, named
/// `ext_alphanumeric`.
pub assume_specification[ char::is_alphanumeric ](c: char) -> (r: bool)
    ensures
        r == spec_alphanumeric(c),
        !is_ascii_char(c) ==> r == ext_alphanumeric(c),
;

/// Relies on `char::is_ascii_digit`: it holds of exactly the decimal digits
/// `'0'` to `'9'`.
pub assume_specification[ char::is_ascii_digit ](c: &char) -> (r: bool)
    ensures
        r == is_digit_char(*c),
;

} // verus!
