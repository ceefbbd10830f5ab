use vstd::prelude::*;

verus! {

/// `String::push` of the standard library, taken on trust: it puts the
/// character at the end of the string and leaves what was there as it was.
pub assume_specification[ String::push ](s: &mut String, ch: char)
    ensures
        final(s)@ == old(s)@.push(ch),
;

} // verus!
