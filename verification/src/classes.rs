use vstd::prelude::*;

verus! {

/// A character that may start an identifier: an ASCII letter or `_`.
pub open spec fn is_word_start(c: char) -> bool {
    ('a' <= c && c <= 'z') || ('A' <= c && c <= 'Z') || c == '_'
}

/// An ASCII decimal digit.
pub open spec fn is_digit(c: char) -> bool {
    '0' <= c && c <= '9'
}

/// A character that may continue an identifier.
pub open spec fn is_word_part(c: char) -> bool {
    is_word_start(c) || is_digit(c)
}

/// A hexadecimal digit as this scanner reads them: a decimal digit or a lower
/// case letter `a` to `f`. Upper case letters are not digits.
pub open spec fn is_hex_digit(c: char) -> bool {
    is_digit(c) || ('a' <= c && c <= 'f')
}

/// A binary digit.
pub open spec fn is_bin_digit(c: char) -> bool {
    c == '0' || c == '1'
}

/// A character that `trim` skips: a space or a line feed, and nothing else.
pub open spec fn is_blank(c: char) -> bool {
    c == ' ' || c == '\n'
}

/// `end` is where the longest run of characters of `class` starting at `from`
/// stops: every character from `from` up to `end` is in the class, and the
/// one at `end`, if there is one, is not.
pub open spec fn is_run(s: Seq<char>, from: int, end: int, class: spec_fn(char) -> bool) -> bool {
    &&& 0 <= from <= end <= s.len()
    &&& forall|i: int| from <= i < end ==> class(#[trigger] s[i])
    &&& end < s.len() ==> !class(s[end])
}

/// The longest run from a given offset ends in exactly one place.
pub proof fn lemma_run_is_unique(
    s: Seq<char>,
    from: int,
    a: int,
    b: int,
    class: spec_fn(char) -> bool,
)
    requires
        is_run(s, from, a, class),
        is_run(s, from, b, class),
    ensures
        a == b,
{
    if a < b {
        assert(class(s[a]));
    } else if b < a {
        assert(class(s[b]));
    }
}

} // verus!
