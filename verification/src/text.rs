//! Strings from characters.
use vstd::prelude::*;

verus! {

/// `String::from_iter` of std, on the characters of a vector: the string
/// made of those characters in their order.
#[verifier::external_body]
pub(crate) fn string_from_chars(chars: &Vec<char>) -> (s: String)
    ensures
        s@ == chars@,
{
    String::from_iter(chars)
}

} // verus!
