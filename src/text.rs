use vstd::prelude::*;

verus! {

/// Relies on `String: FromIterator<char>` (`Iterator::collect`): the string
/// holds the given characters, in order.
#[verifier::external_body]
pub(crate) fn string_from_chars(chars: &Vec<char>) -> (r: String)
    ensures
        r@ == chars@,
{
    chars.iter().collect()
}

} // verus!
