use vstd::prelude::*;

verus! {

/// The number of line feeds among the first `pos` characters of `s`. This is
/// the number, counted from 0, of the line a cursor at `pos` is on.
pub open spec fn newlines_before(s: Seq<char>, pos: int) -> nat
    decreases pos,
{
    if pos <= 0 {
        0
    } else if s[pos - 1] == '\n' {
        newlines_before(s, pos - 1) + 1
    } else {
        newlines_before(s, pos - 1)
    }
}

/// Where the line of a cursor at `pos` starts: just after the last line feed
/// among the first `pos` characters, or at 0 if there is none.
pub open spec fn line_start(s: Seq<char>, pos: int) -> int
    decreases pos,
{
    if pos <= 0 {
        0
    } else if s[pos - 1] == '\n' {
        pos
    } else {
        line_start(s, pos - 1)
    }
}

/// Where the line containing offset `from` ends: at the first line feed at or
/// after `from`, or at the end of `s`.
pub open spec fn line_end(s: Seq<char>, from: int) -> int
    decreases s.len() - from,
{
    if from >= s.len() {
        s.len() as int
    } else if from >= 0 && s[from] == '\n' {
        from
    } else {
        line_end(s, from + 1)
    }
}

/// The text from `start` to the end of its line, without the line feed.
pub open spec fn line_text(s: Seq<char>, start: int) -> Seq<char> {
    s.subrange(start, line_end(s, start))
}

/// Where line number `line` starts, counted from 0: just after the line feed
/// that ends the line before it. If the source has fewer lines, this is the
/// end of the source.
pub open spec fn line_offset(s: Seq<char>, line: nat) -> int
    decreases line,
{
    if line == 0 {
        0
    } else {
        let end = line_end(s, line_offset(s, (line - 1) as nat));
        if end < s.len() {
            end + 1
        } else {
            s.len() as int
        }
    }
}

/// The column of a cursor at `pos`: its distance from the start of its line.
pub open spec fn column(s: Seq<char>, pos: int) -> int {
    pos - line_start(s, pos)
}

/// The line of a cursor starts at or before the cursor, just after a line
/// feed or at the start of the source, and has no line feed between its start
/// and the cursor. A cursor has at most as many lines before it as
/// characters, and is on line 0 exactly if its line starts at 0.
pub proof fn lemma_line_start(s: Seq<char>, pos: int)
    requires
        0 <= pos <= s.len(),
    ensures
        0 <= line_start(s, pos) <= pos,
        line_start(s, pos) > 0 ==> s[line_start(s, pos) - 1] == '\n',
        forall|i: int| line_start(s, pos) <= i < pos ==> #[trigger] s[i] != '\n',
        newlines_before(s, pos) <= pos,
        line_start(s, pos) == 0 <==> newlines_before(s, pos) == 0,
    decreases pos,
{
    if pos > 0 {
        lemma_line_start(s, pos - 1);
    }
}

/// A line ends at or after any offset in it, at a line feed or at the end of
/// the source, and has no line feed between the offset and its end.
pub proof fn lemma_line_end(s: Seq<char>, from: int)
    requires
        0 <= from <= s.len(),
    ensures
        from <= line_end(s, from) <= s.len(),
        line_end(s, from) < s.len() ==> s[line_end(s, from)] == '\n',
        forall|i: int| from <= i < line_end(s, from) ==> #[trigger] s[i] != '\n',
    decreases s.len() - from,
{
    if from < s.len() && s[from] != '\n' {
        lemma_line_end(s, from + 1);
    }
}

/// Two offsets with no line feed between them are on one line, so the line
/// ends at the same place for both.
pub proof fn lemma_line_end_within(s: Seq<char>, from: int, to: int)
    requires
        0 <= from <= to <= s.len(),
        forall|i: int| from <= i < to ==> #[trigger] s[i] != '\n',
    ensures
        line_end(s, from) == line_end(s, to),
    decreases to - from,
{
    if from < to {
        lemma_line_end_within(s, from + 1, to);
    }
}

/// A line that runs to the end of the source is the last one: every greater
/// line number has its offset at the end of the source.
pub proof fn lemma_line_offset_past_last(s: Seq<char>, last: nat, line: nat)
    requires
        line_end(s, line_offset(s, last)) == s.len(),
        last < line,
    ensures
        line_offset(s, line) == s.len(),
    decreases line,
{
    if line - 1 > last {
        lemma_line_offset_past_last(s, last, (line - 1) as nat);
    }
}

/// The line a cursor is on is the line with that number: counting the line
/// feeds before the cursor and then walking that many lines from the start
/// of the source arrives at the start of the cursor's line.
pub proof fn lemma_line_offset_of_cursor(s: Seq<char>, pos: int)
    requires
        0 <= pos <= s.len(),
    ensures
        line_offset(s, newlines_before(s, pos)) == line_start(s, pos),
    decreases pos,
{
    if pos > 0 {
        lemma_line_offset_of_cursor(s, pos - 1);
        if s[pos - 1] == '\n' {
            let before = line_start(s, pos - 1);
            lemma_line_start(s, pos - 1);
            lemma_line_end_within(s, before, pos - 1);
        }
    }
}

} // verus!
