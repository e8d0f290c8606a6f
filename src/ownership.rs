use vstd::prelude::*;
use vstd::utf8::encode_utf8;

verus! {

/// A new string, handed to the caller.
pub fn gives_ownership() -> (r: String)
    ensures
        r@ == "yours!"@,
{
    String::from_str("yours!")
}

/// Takes a string and hands it back.
pub fn takes_and_gives_back(some_string: String) -> (r: String)
    ensures
        r == some_string,
{
    some_string
}

/// The length of a string in bytes.
pub fn calculate_length(s: &String) -> (r: usize)
    ensures
        r == encode_utf8(s@).len() as usize,
{
    s.as_str().len()
}

/// Appends ", world!" to a string.
pub fn change(some_string: &mut String)
    ensures
        final(some_string)@ == old(some_string)@ + ", world!"@,
{
    some_string.append(", world!");
}

} // verus!
