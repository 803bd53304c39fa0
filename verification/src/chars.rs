//! Conversions between strings and vectors of characters, so that the rest
//! of the crate can read and build text one character at a time.

use vstd::prelude::*;

verus! {

/// Relies on str::chars: the iterator yields exactly the characters of the
/// string in order, which form the string's view.
#[verifier::external_body]
pub(crate) fn str_to_char_vec(s: &str) -> (r: Vec<char>)
    ensures
        r@ == s@,
{
    s.chars().collect()
}

/// Relies on String's FromIterator<char> impl: collecting characters yields
/// the string holding exactly those characters in order.
#[verifier::external_body]
pub(crate) fn char_vec_to_string(v: &Vec<char>) -> (r: String)
    ensures
        r@ == v@,
{
    v.iter().collect()
}

} // verus!
