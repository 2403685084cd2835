//! What is taken on trust of the standard library's strings.

use vstd::prelude::*;

verus! {

/// `String::push` of the standard library, which appends the given character
/// to the end of the string. The contract says so in terms of the string's
/// characters: after the call they are those from before, followed by `ch`.
/// This is assumed of the standard library, not proved.
pub assume_specification[ String::push ](text: &mut String, ch: char)
    ensures
        final(text)@ == old(text)@.push(ch),
;

} // verus!
