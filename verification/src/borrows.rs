//! Strings on loan: each routine reads or changes a `String` through a
//! reference and leaves it with its owner.

use vstd::prelude::*;
use vstd::string::StringExecFns;
use vstd::utf8::encode_utf8;

verus! {

/// The length of the borrowed string in bytes.
pub fn calculate_len_with_ref(string: &String) -> (length: usize)
    ensures
        length == encode_utf8(string@).len(),
{
    string.as_str().as_bytes().len()
}

/// Appends `", world"` to the borrowed string.
pub fn change(string: &mut String)
    ensures
        final(string)@ == old(string)@ + ", world"@,
{
    string.append(", world");
}

} // verus!
