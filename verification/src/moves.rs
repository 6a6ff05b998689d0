//! Strings that change hands: each routine takes or gives a `String` by
//! value, so the caller's binding moves.

use vstd::prelude::*;
use vstd::utf8::encode_utf8;

verus! {

/// Makes a new string and hands it to the caller.
pub fn gives_ownership() -> (some_string: String)
    ensures
        some_string@ == "hello"@,
{
    let some_string: String = "hello".to_owned();
    some_string
}

/// Takes a string and hands the same string back.
pub fn takes_and_gives_back(a_string: String) -> (given_back: String)
    ensures
        given_back == a_string,
{
    a_string
}

/// Takes a string and hands it back together with its length in bytes.
pub fn calculate_length(string: String) -> (pair: (String, usize))
    ensures
        pair.0 == string,
        pair.1 == encode_utf8(string@).len(),
{
    let length: usize = string.as_str().as_bytes().len();
    (string, length)
}

} // verus!
