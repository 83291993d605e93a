//! Conversions between strings and character vectors; the library's logic
//! works on character vectors throughout.

use vstd::prelude::*;

verus! {

broadcast use vstd::string::axiom_spec_iter;

/// Collects the characters of a string slice into a vector.
pub fn str_to_chars(s: &str) -> (v: Vec<char>)
    ensures
        v@ == s@,
{
    let mut v: Vec<char> = Vec::new();
    for c in it: s.chars()
        invariant
            v@ == it.seq().take(it.index() as int),
    {
        v.push(c);
    }
    v
}

/// Builds a string from a character vector.
/// Relies on `String: FromIterator<char>`: collecting characters yields the
/// string holding exactly those characters in order.
#[verifier::external_body]
pub fn chars_to_string(v: &Vec<char>) -> (s: String)
    ensures
        s@ == v@,
{
    v.iter().collect()
}

} // verus!
