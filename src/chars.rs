use vstd::prelude::*;

verus! {

/// Whether `c` has the Unicode `Alphabetic` property, as `char::is_alphabetic` decides it.
pub uninterp spec fn alphabetic(c: char) -> bool;

/// Whether `c` is `Alphabetic` or `Numeric`, as `char::is_alphanumeric` decides it.
pub uninterp spec fn alphanumeric(c: char) -> bool;

/// The characters of the upper-case mapping of `c`, as `char::to_uppercase` yields them.
pub uninterp spec fn upper_of(c: char) -> Seq<char>;

pub open spec fn is_digit_char(c: char) -> bool {
    '0' <= c && c <= '9'
}

pub open spec fn is_whitespace_char(c: char) -> bool {
    c == ' ' || c == '\r' || c == '\t'
}

pub open spec fn is_name_start_char(c: char) -> bool {
    alphabetic(c) || c == '_'
}

pub open spec fn is_name_continue_char(c: char) -> bool {
    alphanumeric(c) || c == '_'
}

/// A character that may stand anywhere in a name after its first one.
pub open spec fn is_name_char(c: char) -> bool {
    is_name_start_char(c) || is_name_continue_char(c)
}

/// Relies on `char::is_alphabetic`: the answer depends on the character alone.
#[verifier::external_body]
fn char_is_alphabetic(c: char) -> (r: bool)
    ensures
        r == alphabetic(c),
{
    c.is_alphabetic()
}

/// Relies on `char::is_alphanumeric`: the answer depends on the character alone.
#[verifier::external_body]
fn char_is_alphanumeric(c: char) -> (r: bool)
    ensures
        r == alphanumeric(c),
{
    c.is_alphanumeric()
}

/// Relies on `char::to_uppercase`: the upper-case mapping of one character, which depends
/// on the character alone, collected into a string.
#[verifier::external_body]
pub(crate) fn char_to_uppercase(c: char) -> (r: String)
    ensures
        r@ == upper_of(c),
{
    c.to_uppercase().to_string()
}

/// Relies on `String::push`: appends one character at the end.
#[verifier::external_body]
pub(crate) fn push_char(s: &mut String, c: char)
    ensures
        final(s)@ == old(s)@.push(c),
{
    s.push(c)
}

/// An ASCII decimal digit, `0` to `9`.
pub fn is_digit(c: char) -> (r: bool)
    ensures
        r == is_digit_char(c),
{
    '0' <= c && c <= '9'
}

/// Blanks that separate tokens on one line: space, carriage return and tab.
pub fn is_whitespace(c: char) -> (r: bool)
    ensures
        r == is_whitespace_char(c),
{
    c == ' ' || c == '\r' || c == '\t'
}

/// A character that may begin a name: an alphabetic one or `_`.
pub fn is_name_start(c: char) -> (r: bool)
    ensures
        r == is_name_start_char(c),
{
    char_is_alphabetic(c) || c == '_'
}

/// A character that may continue a name: an alphanumeric one or `_`.
pub fn is_name_continue(c: char) -> (r: bool)
    ensures
        r == is_name_continue_char(c),
{
    char_is_alphanumeric(c) || c == '_'
}

} // verus!
