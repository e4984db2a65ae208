//! Character classes used by the lexer, as the standard library decides them.
use vstd::prelude::*;

verus! {

/// White_Space property of a character outside ASCII, as `char::is_whitespace` reads it
/// from the Unicode tables.
pub uninterp spec fn non_ascii_whitespace(c: char) -> bool;

/// Alphabetic property of a character outside ASCII, as `char::is_alphabetic` reads it
/// from the Unicode tables.
pub uninterp spec fn non_ascii_alphabetic(c: char) -> bool;

/// Numeric general category of a character outside ASCII, as `char::is_numeric` reads it
/// from the Unicode tables.
pub uninterp spec fn non_ascii_numeric(c: char) -> bool;

pub open spec fn is_ascii_char(c: char) -> bool {
    (c as u32) < 128
}

pub open spec fn is_ascii_letter(c: char) -> bool {
    ('a' <= c && c <= 'z') || ('A' <= c && c <= 'Z')
}

pub open spec fn is_ascii_digit(c: char) -> bool {
    '0' <= c && c <= '9'
}

/// Whitespace: in ASCII, space and tab through carriage return.
pub open spec fn char_is_whitespace(c: char) -> bool {
    if is_ascii_char(c) {
        c == ' ' || ('\t' <= c && c <= '\r')
    } else {
        non_ascii_whitespace(c)
    }
}

/// Alphabetic: in ASCII, the Latin letters.
pub open spec fn char_is_alphabetic(c: char) -> bool {
    if is_ascii_char(c) {
        is_ascii_letter(c)
    } else {
        non_ascii_alphabetic(c)
    }
}

/// Numeric: in ASCII, the decimal digits.
pub open spec fn char_is_numeric(c: char) -> bool {
    if is_ascii_char(c) {
        is_ascii_digit(c)
    } else {
        non_ascii_numeric(c)
    }
}

/// Relies on `char::is_whitespace`: true for space and `'\t'..='\r'` in ASCII, and
/// for characters with the White_Space property beyond it.
#[verifier::external_body]
pub(crate) fn is_whitespace(c: char) -> (r: bool)
    ensures
        r == char_is_whitespace(c),
        !is_ascii_char(c) ==> r == non_ascii_whitespace(c),
{
    c.is_whitespace()
}

/// Relies on `char::is_alphabetic`: true for `'a'..='z'` and `'A'..='Z'` in ASCII, and
/// for characters with the Alphabetic property beyond it.
#[verifier::external_body]
pub(crate) fn is_alphabetic(c: char) -> (r: bool)
    ensures
        r == char_is_alphabetic(c),
        !is_ascii_char(c) ==> r == non_ascii_alphabetic(c),
{
    c.is_alphabetic()
}

/// Relies on `char::is_numeric`: true for `'0'..='9'` in ASCII, and for characters of
/// the numeric general categories beyond it.
#[verifier::external_body]
pub(crate) fn is_numeric(c: char) -> (r: bool)
    ensures
        r == char_is_numeric(c),
        !is_ascii_char(c) ==> r == non_ascii_numeric(c),
{
    c.is_numeric()
}

/// Relies on `char::is_alphanumeric`: documented as `is_alphabetic() || is_numeric()`.
#[verifier::external_body]
pub(crate) fn is_alphanumeric(c: char) -> (r: bool)
    ensures
        r == (char_is_alphabetic(c) || char_is_numeric(c)),
{
    c.is_alphanumeric()
}

} // verus!
