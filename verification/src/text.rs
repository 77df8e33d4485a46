//! String operations of std that the library builds on.

use vstd::prelude::*;

verus! {

/// Whether `a` and `b` hold the same characters.
/// Calls `<str as PartialEq>::eq`, which compares the two strings for equality.
#[verifier::external_body]
pub fn str_eq(a: &str, b: &str) -> (r: bool)
    ensures
        r == (a@ == b@),
{
    a == b
}

/// Appends `c` to `s`.
/// Calls `String::push`, which appends the character at the end of the string.
#[verifier::external_body]
pub fn push_char(s: &mut String, c: char)
    ensures
        final(s)@ == old(s)@.push(c),
{
    s.push(c)
}

} // verus!
