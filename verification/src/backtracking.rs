use crate::lines::{column, newlines_before};
use crate::parse_error::ParseError;
use crate::string_eater::{is_next, StringEater};
use vstd::prelude::*;

verus! {

/// `states` are the scanner before, between and after successive calls of
/// `next`, and `read` is what the calls returned, in order.
pub open spec fn is_reading(states: Seq<StringEater>, read: Seq<Result<char, ParseError>>) -> bool {
    &&& states.len() == read.len() + 1
    &&& forall|i: int| 0 <= i < read.len() ==> is_next(states[i], #[trigger] states[i + 1], read[i])
}

/// Backtracking leaves no trace.
///
/// Take a checkpoint with `backup`, read characters with `next` any number of
/// times, and `restore` the checkpoint. Reading as many characters again
/// returns the same characters and the same ends of input as the first time,
/// and leaves the cursor at the same offset, so on the same line and in the
/// same column.
///
/// `first` and `second` are the two passes. The first starts where the
/// checkpoint was taken. The second starts from what `restore` made of the end
/// of the first: the same source, with the cursor at the checkpoint.
pub proof fn lemma_restore_replays(
    first: Seq<StringEater>,
    first_read: Seq<Result<char, ParseError>>,
    second: Seq<StringEater>,
    second_read: Seq<Result<char, ParseError>>,
)
    requires
        is_reading(first, first_read),
        is_reading(second, second_read),
        second_read.len() == first_read.len(),
        second[0]@ == first.last()@,
        second[0].position() == first[0].position(),
    ensures
        second_read == first_read,
        second.last()@ == first.last()@,
        second.last().position() == first.last().position(),
        newlines_before(second.last()@, second.last().position() as int) == newlines_before(
            first.last()@,
            first.last().position() as int,
        ),
        column(second.last()@, second.last().position() as int) == column(
            first.last()@,
            first.last().position() as int,
        ),
{
    lemma_reading_keeps_source(first, first_read, first_read.len() as int);
    assert forall|i: int| 0 <= i <= first_read.len() implies (#[trigger] second[i])@ == first[i]@
        && second[i].position() == first[i].position() by {
        lemma_readings_agree(first, first_read, second, second_read, i);
    }
    assert forall|i: int| 0 <= i < first_read.len() implies second_read[i] == first_read[i] by {
        assert(second[i]@ == first[i]@ && second[i].position() == first[i].position());
        assert(is_next(first[i], first[i + 1], first_read[i]));
        assert(is_next(second[i], second[i + 1], second_read[i]));
    }
    assert(second_read =~= first_read);
}

/// Reading never changes the source.
proof fn lemma_reading_keeps_source(
    states: Seq<StringEater>,
    read: Seq<Result<char, ParseError>>,
    upto: int,
)
    requires
        is_reading(states, read),
        0 <= upto <= read.len(),
    ensures
        states[upto]@ == states[0]@,
    decreases upto,
{
    if upto > 0 {
        lemma_reading_keeps_source(states, read, upto - 1);
        assert(is_next(states[upto - 1], states[upto - 1 + 1], read[upto - 1]));
    }
}

/// Two passes over one source from one offset are in the same state after
/// every step.
proof fn lemma_readings_agree(
    first: Seq<StringEater>,
    first_read: Seq<Result<char, ParseError>>,
    second: Seq<StringEater>,
    second_read: Seq<Result<char, ParseError>>,
    upto: int,
)
    requires
        is_reading(first, first_read),
        is_reading(second, second_read),
        second_read.len() == first_read.len(),
        second[0]@ == first[0]@,
        second[0].position() == first[0].position(),
        0 <= upto <= first_read.len(),
    ensures
        second[upto]@ == first[upto]@,
        second[upto].position() == first[upto].position(),
    decreases upto,
{
    if upto > 0 {
        lemma_readings_agree(first, first_read, second, second_read, upto - 1);
        assert(is_next(first[upto - 1], first[upto - 1 + 1], first_read[upto - 1]));
        assert(is_next(second[upto - 1], second[upto - 1 + 1], second_read[upto - 1]));
    }
}

} // verus!
