//! Moving text between `String` form and character vectors, which the
//! verified parsers and printers work on.

use vstd::prelude::*;

verus! {

/// Relies on str::chars: the iterator yields exactly the characters that
/// the string's view holds, in order.
#[verifier::external_body]
pub(crate) fn str_to_chars(s: &str) -> (r: Vec<char>)
    ensures
        r@ == s@,
{
    s.chars().collect()
}

/// Relies on String's FromIterator impl: collecting characters builds the
/// string whose view is exactly that character sequence.
#[verifier::external_body]
pub(crate) fn chars_to_string(v: &Vec<char>) -> (r: String)
    ensures
        r@ == v@,
{
    v.iter().collect()
}

/// Relies on char::from_u32: for a valid scalar value it yields the
/// character with exactly that code point.
#[verifier::external_body]
pub(crate) fn char_from_code(cv: u32) -> (r: char)
    requires
        cv < 0xD800 || (0xE000 <= cv && cv <= 0x10FFFF),
    ensures
        r == (cv as char),
{
    char::from_u32(cv).unwrap()
}

} // verus!
