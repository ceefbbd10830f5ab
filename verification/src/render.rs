use crate::lines::{
    column, lemma_line_end, lemma_line_end_within, lemma_line_offset_of_cursor, lemma_line_start,
    line_end, line_offset, line_start, line_text, newlines_before,
};
use crate::numbers::{decimal, push_decimal};
use crate::parse_error::ParseError;
use crate::string_eater::{is_error_at, StringEater};
use vstd::prelude::*;
use vstd::string::StringExecFns;

verus! {

/// `count` spaces.
pub open spec fn spaces(count: nat) -> Seq<char> {
    Seq::new(count, |i: int| ' ')
}

/// The line that shows line number `line` of `source`: the number, ` | `, and
/// the text of the line exactly as it is in the source. A line that the source
/// does not have shows as empty.
pub open spec fn excerpt(source: Seq<char>, line: nat) -> Seq<char> {
    decimal(line) + seq![' ', '|', ' '] + line_text(source, line_offset(source, line))
}

/// The line that points at column `column` of the excerpt above it: a caret
/// preceded by as many spaces as the line number has digits, plus three for
/// the gutter, plus the column.
pub open spec fn pointer(line: nat, column: nat) -> Seq<char> {
    spaces(decimal(line).len() + 3 + column) + seq!['^']
}

/// What a diagnostic looks like on `source`.
///
/// A syntax error takes three lines: its message, the excerpt of its line, and
/// the pointer to its column. The end of input takes one fixed line. There is
/// no line feed after the last line.
pub open spec fn rendered(source: Seq<char>, error: ParseError) -> Seq<char> {
    match error {
        ParseError::SyntaxError(line, column, message) => message@ + seq!['\n'] + excerpt(
            source,
            line as nat,
        ) + seq!['\n'] + pointer(line as nat, column as nat),
        ParseError::UnexpectedEOF => "unexpected end of input"@,
    }
}

/// An error raised at a cursor renders as the line the cursor is on, with the
/// caret under the cursor.
///
/// The excerpt shows the whole line around the cursor, from its start to its
/// end. The caret is at most one column past the excerpt. If the cursor is
/// before a character of its line, that character is the one directly above
/// the caret; if the cursor is at the end of its line, the caret is just past
/// the excerpt.
pub proof fn lemma_caret_is_under_cursor(
    source: Seq<char>,
    pos: int,
    message: &'static str,
    error: ParseError,
)
    requires
        0 <= pos <= source.len(),
        is_error_at(error, source, pos, message),
    ensures
        rendered(source, error) == message@ + seq!['\n'] + excerpt(
            source,
            newlines_before(source, pos),
        ) + seq!['\n'] + pointer(newlines_before(source, pos), column(source, pos) as nat),
        line_text(source, line_offset(source, newlines_before(source, pos))) == source.subrange(
            line_start(source, pos),
            line_end(source, pos),
        ),
        line_start(source, pos) <= pos <= line_end(source, pos),
        pointer(newlines_before(source, pos), column(source, pos) as nat).len() - 1 <= excerpt(
            source,
            newlines_before(source, pos),
        ).len(),
        pos < line_end(source, pos) ==> excerpt(source, newlines_before(source, pos))[pointer(
            newlines_before(source, pos),
            column(source, pos) as nat,
        ).len() - 1] == source[pos],
{
    lemma_line_offset_of_cursor(source, pos);
    lemma_line_start(source, pos);
    lemma_line_end_within(source, line_start(source, pos), pos);
    lemma_line_end(source, pos);
}

/// Appends `count` spaces to `out`.
fn push_spaces(out: &mut String, count: usize)
    ensures
        final(out)@ == old(out)@ + spaces(count as nat),
{
    let mut done: usize = 0;
    assert(out@ =~= old(out)@ + spaces(0));
    while done < count
        invariant
            done <= count,
            out@ == old(out)@ + spaces(done as nat),
        decreases count - done,
    {
        out.push(' ');
        done = done + 1;
        assert((old(out)@ + spaces((done - 1) as nat)).push(' ') =~= old(out)@ + spaces(
            done as nat,
        ));
    }
}

impl StringEater {
    /// The text that shows `error` to a reader, laid out on the source of this
    /// scanner. It depends on the source and on `error` alone, not on the
    /// cursor.
    pub fn render(&self, error: &ParseError) -> (text: String)
        ensures
            text@ == rendered(self@, *error),
    {
        match error {
            ParseError::SyntaxError(line, column, message) => {
                let mut out = String::new();
                out.append(message);
                out.push('\n');
                let digits = push_decimal(&mut out, *line);
                out.push(' ');
                out.push('|');
                out.push(' ');
                let start = self.offset_of_line(*line);
                let text = self.line_from(start);
                out.append(text.as_str());
                out.push('\n');
                push_spaces(&mut out, digits);
                push_spaces(&mut out, 3);
                push_spaces(&mut out, *column);
                out.push('^');
                proof {
                    let number = decimal(*line as nat);
                    assert(spaces(number.len()) + spaces(3) + spaces(*column as nat) =~= spaces(
                        number.len() + 3 + *column as nat,
                    ));
                    assert(out@ =~= rendered(self@, *error));
                }
                out
            },
            ParseError::UnexpectedEOF => String::from_str("unexpected end of input"),
        }
    }
}

} // verus!
