//! Turning characters into strings.
use vstd::prelude::*;

verus! {

/// Relies on `String: FromIterator<&char>`: the string of exactly these characters, in order.
#[verifier::external_body]
pub(crate) fn string_of_chars(chars: &[char]) -> (r: String)
    ensures
        r@ == chars@,
{
    chars.iter().collect()
}

} // verus!
