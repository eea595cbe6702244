//! Character classes used by the tokenizer.

use vstd::prelude::*;

verus! {

/// What `char::is_alphabetic` returns for `c` (the Unicode `Alphabetic` property).
pub uninterp spec fn unicode_alphabetic(c: char) -> bool;

/// What `char::is_numeric` returns for `c` (general categories `Nd`, `Nl`, `No`).
pub uninterp spec fn unicode_numeric(c: char) -> bool;

/// The Unicode `White_Space` property: U+0009 to U+000D, U+0020, U+0085,
/// U+00A0, U+1680, U+2000 to U+200A, U+2028, U+2029, U+202F, U+205F and
/// U+3000.
pub open spec fn unicode_whitespace(c: char) -> bool {
    let u = c as u32;
    ||| 0x9 <= u <= 0xd
    ||| u == 0x20
    ||| u == 0x85
    ||| u == 0xa0
    ||| u == 0x1680
    ||| 0x2000 <= u <= 0x200a
    ||| u == 0x2028
    ||| u == 0x2029
    ||| u == 0x202f
    ||| u == 0x205f
    ||| u == 0x3000
}

/// An ASCII decimal digit.
pub open spec fn is_ascii_digit(c: char) -> bool {
    '0' <= c && c <= '9'
}

/// `char::is_ascii_hexdigit`: `0-9`, `a-f`, `A-F`.
pub open spec fn is_hex_digit(c: char) -> bool {
    is_ascii_digit(c) || ('a' <= c && c <= 'f') || ('A' <= c && c <= 'F')
}

/// Calls `char::is_alphabetic`. The contract claims only that the result is
/// a function of `c`, named `unicode_alphabetic`; the Unicode table behind it
/// is not written out.
#[verifier::external_body]
pub(crate) fn is_alphabetic(c: char) -> (r: bool)
    ensures
        r == unicode_alphabetic(c),
{
    c.is_alphabetic()
}

/// Calls `char::is_numeric`. The contract claims only that the result is a
/// function of `c`, named `unicode_numeric`; the Unicode table behind it is
/// not written out.
#[verifier::external_body]
pub(crate) fn is_numeric(c: char) -> (r: bool)
    ensures
        r == unicode_numeric(c),
{
    c.is_numeric()
}

/// Calls `char::is_whitespace`, which is documented to return whether `c`
/// has the Unicode `White_Space` property; the contract claims that it
/// returns exactly `unicode_whitespace(c)`, the code points of that property.
#[verifier::external_body]
pub(crate) fn is_whitespace(c: char) -> (r: bool)
    ensures
        r == unicode_whitespace(c),
{
    c.is_whitespace()
}

/// `char::is_ascii_hexdigit`, written out.
pub fn is_ascii_hexdigit(c: char) -> (r: bool)
    ensures
        r == is_hex_digit(c),
{
    ('0' <= c && c <= '9') || ('a' <= c && c <= 'f') || ('A' <= c && c <= 'F')
}

} // verus!
