//! Character classes that the lexical grammar is written over.

use vstd::prelude::*;

verus! {

/// Whether `c` has the Unicode `White_Space` property.
pub uninterp spec fn unicode_whitespace(c: char) -> bool;

/// Whether `c` has the Unicode `Alphabetic` property.
pub uninterp spec fn unicode_alphabetic(c: char) -> bool;

/// Whether `c` is alphabetic or numeric in Unicode's sense.
pub uninterp spec fn unicode_alphanumeric(c: char) -> bool;

/// `char::is_whitespace` decides the `White_Space` property; the tables behind
/// it are not restated here, only named.
pub assume_specification[ char::is_whitespace ](c: char) -> (b: bool)
    ensures
        b == unicode_whitespace(c),
;

/// `char::is_alphabetic` decides the `Alphabetic` property. The standard
/// library documents `is_alphanumeric` as "alphabetic or numeric", so every
/// alphabetic character is alphanumeric as well.
pub assume_specification[ char::is_alphabetic ](c: char) -> (b: bool)
    ensures
        b == unicode_alphabetic(c),
        b ==> unicode_alphanumeric(c),
;

/// `char::is_alphanumeric` decides whether a character is alphabetic or
/// numeric; the tables behind it are only named.
pub assume_specification[ char::is_alphanumeric ](c: char) -> (b: bool)
    ensures
        b == unicode_alphanumeric(c),
;

/// An ASCII decimal digit.
pub open spec fn is_digit(c: char) -> bool {
    '0' <= c && c <= '9'
}

/// The value of an ASCII decimal digit.
pub open spec fn digit_value(c: char) -> nat
    recommends
        is_digit(c),
{
    (c as u32 - '0' as u32) as nat
}

/// A character that may continue a numeric literal without being the dot.
pub open spec fn is_number_body(c: char) -> bool {
    is_digit(c) || c == '_'
}

/// A character that may start an identifier or keyword.
pub open spec fn is_identifier_start(c: char) -> bool {
    unicode_alphabetic(c) || c == '_'
}

/// A character that may continue an identifier or keyword.
pub open spec fn is_identifier_part(c: char) -> bool {
    unicode_alphanumeric(c) || c == '_'
}

/// Decides `is_digit`.
pub fn check_digit(c: char) -> (b: bool)
    ensures
        b == is_digit(c),
{
    '0' <= c && c <= '9'
}

/// The numeric value of the decimal digit `c`.
pub fn digit_of(c: char) -> (d: u32)
    requires
        is_digit(c),
    ensures
        d == digit_value(c),
        d <= 9,
{
    c as u32 - '0' as u32
}

/// Decides `is_identifier_start`.
pub fn check_identifier_start(c: char) -> (b: bool)
    ensures
        b == is_identifier_start(c),
        b ==> is_identifier_part(c),
{
    c == '_' || c.is_alphabetic()
}

/// Decides `is_identifier_part`.
pub fn check_identifier_part(c: char) -> (b: bool)
    ensures
        b == is_identifier_part(c),
{
    c == '_' || c.is_alphanumeric()
}

} // verus!
