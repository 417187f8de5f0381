//! How the lexer classifies characters.
use vstd::prelude::*;

verus! {

/// Unicode's White_Space property, the set that `char::is_whitespace` tests.
pub open spec fn white_space(c: char) -> bool {
    ('\u{9}' <= c && c <= '\u{d}') || c == ' ' || c == '\u{85}' || c == '\u{a0}' || c
        == '\u{1680}' || ('\u{2000}' <= c && c <= '\u{200a}') || c == '\u{2028}' || c == '\u{2029}'
        || c == '\u{202f}' || c == '\u{205f}' || c == '\u{3000}'
}

/// An ASCII decimal digit.
pub open spec fn digit(c: char) -> bool {
    '0' <= c && c <= '9'
}

/// Whether `c` is Unicode alphabetic or numeric, as `char::is_alphanumeric` decides.
pub uninterp spec fn alphanumeric(c: char) -> bool;

/// A character that ends a pending atom and is then read as usual.
pub open spec fn delimiter(c: char) -> bool {
    white_space(c) || c == '(' || c == ')' || c == '\''
}

/// The punctuation that may continue a symbol.
pub open spec fn symbol_punct(c: char) -> bool {
    c == '!' || c == '$' || c == '%' || c == '&' || c == '*' || c == '+' || c == '-' || c == '.'
        || c == '/' || c == ':' || c == '<' || c == '=' || c == '>' || c == '?' || c == '@' || c
        == '^' || c == '_' || c == '~'
}

/// Whether `c` extends a symbol that is being read.
pub open spec fn continues_symbol(c: char) -> bool {
    !delimiter(c) && c != '"' && (alphanumeric(c) || symbol_punct(c))
}

/// Whether `c` extends a number that is being read.
pub open spec fn continues_number(c: char) -> bool {
    digit(c) || c == '.'
}

pub(crate) fn is_white_space(c: char) -> (r: bool)
    ensures
        r == white_space(c),
{
    ('\u{9}' <= c && c <= '\u{d}') || c == ' ' || c == '\u{85}' || c == '\u{a0}' || c == '\u{1680}'
        || ('\u{2000}' <= c && c <= '\u{200a}') || c == '\u{2028}' || c == '\u{2029}' || c
        == '\u{202f}' || c == '\u{205f}' || c == '\u{3000}'
}

pub(crate) fn is_digit(c: char) -> (r: bool)
    ensures
        r == digit(c),
{
    '0' <= c && c <= '9'
}

/// Relies on `char::is_alphanumeric`, which depends on the character alone.
#[verifier::external_body]
fn is_alphanumeric(c: char) -> (r: bool)
    ensures
        r == alphanumeric(c),
{
    c.is_alphanumeric()
}

pub(crate) fn is_delimiter(c: char) -> (r: bool)
    ensures
        r == delimiter(c),
{
    is_white_space(c) || c == '(' || c == ')' || c == '\''
}

pub(crate) fn is_symbol_punct(c: char) -> (r: bool)
    ensures
        r == symbol_punct(c),
{
    c == '!' || c == '$' || c == '%' || c == '&' || c == '*' || c == '+' || c == '-' || c == '.'
        || c == '/' || c == ':' || c == '<' || c == '=' || c == '>' || c == '?' || c == '@' || c
        == '^' || c == '_' || c == '~'
}

pub(crate) fn extends_symbol(c: char) -> (r: bool)
    ensures
        r == continues_symbol(c),
{
    !is_delimiter(c) && c != '"' && (is_alphanumeric(c) || is_symbol_punct(c))
}

pub(crate) fn extends_number(c: char) -> (r: bool)
    ensures
        r == continues_number(c),
{
    is_digit(c) || c == '.'
}

} // verus!
