//! Character classes and string-buffer primitives that the scanner and the
//! printer build on.

use vstd::prelude::*;

verus! {

/// Whether a character has the Unicode `White_Space` property.
pub uninterp spec fn unicode_whitespace(c: char) -> bool;

/// Whether a character has the Unicode `Alphabetic` property.
pub uninterp spec fn unicode_alphabetic(c: char) -> bool;

/// Whether a character is in one of the Unicode numeric categories `Nd`, `Nl`, `No`.
pub uninterp spec fn unicode_numeric(c: char) -> bool;

/// Assumed of `char::is_whitespace`: it decides the `White_Space` property, a fixed
/// predicate on the code point. The predicate is named, not spelled out: its table belongs
/// to the Unicode version that the standard library ships.
pub assume_specification[ std::primitive::char::is_whitespace ](c: char) -> (r: bool)
    ensures
        r == unicode_whitespace(c),
;

/// Assumed of `char::is_alphabetic`: it decides the `Alphabetic` property, a fixed
/// predicate on the code point.
pub assume_specification[ std::primitive::char::is_alphabetic ](c: char) -> (r: bool)
    ensures
        r == unicode_alphabetic(c),
;

/// Assumed of `char::is_numeric`: it decides membership in the general categories for
/// numbers, a fixed predicate on the code point.
pub assume_specification[ std::primitive::char::is_numeric ](c: char) -> (r: bool)
    ensures
        r == unicode_numeric(c),
;

/// Assumed of `char::is_alphanumeric`: it holds of the characters of which
/// `is_alphabetic` or `is_numeric` holds.
pub assume_specification[ std::primitive::char::is_alphanumeric ](c: char) -> (r: bool)
    ensures
        r == (unicode_alphabetic(c) || unicode_numeric(c)),
;

/// Assumed of `==` on string slices: two slices are equal where they hold the same
/// characters.
pub assume_specification[ <str as PartialEq>::eq ](a: &str, b: &str) -> (r: bool)
    ensures
        r == (a@ == b@),
;

/// Assumed of `String::push`: it appends the character and changes nothing else.
pub assume_specification[ String::push ](s: &mut String, c: char)
    ensures
        final(s)@ == old(s)@.push(c),
;

/// Assumed of `String::pop`: it removes the last character and returns it, or returns
/// `None` and leaves an empty string empty.
pub assume_specification[ String::pop ](s: &mut String) -> (r: Option<char>)
    ensures
        old(s)@.len() == 0 ==> r is None && final(s)@ == old(s)@,
        old(s)@.len() > 0 ==> r == Some(old(s)@.last()) && final(s)@ == old(s)@.drop_last(),
;

/// An ASCII decimal digit.
pub open spec fn is_digit(c: char) -> bool {
    '0' <= c <= '9'
}

/// Whether two texts are the same.
pub fn same_text(a: &str, b: &str) -> (r: bool)
    ensures
        r == (a@ == b@),
{
    *a == *b
}

/// Whether a character is an ASCII decimal digit.
pub fn ascii_digit(c: char) -> (r: bool)
    ensures
        r == is_digit(c),
{
    '0' <= c && c <= '9'
}

} // verus!
