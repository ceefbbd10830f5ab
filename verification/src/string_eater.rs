use crate::classes::{
    is_bin_digit, is_blank, is_digit, is_hex_digit, is_run, is_word_part, is_word_start,
};
use crate::lines::{
    column, lemma_line_offset_past_last, lemma_line_start, line_end, line_offset, line_start,
    line_text, newlines_before,
};
use crate::numbers::{
    digit_in, digit_of, is_digit_of, lemma_digits_of_bases, lemma_number_value_push, number_value,
    push_digit, saturated,
};
use crate::parse_error::ParseError;
use vstd::prelude::*;
use vstd::std_specs::iter::IteratorSpec;

verus! {

/// A cursor over a source text.
///
/// The source never changes. The cursor is an offset into it, counted in
/// characters, and never lies past its end.
pub struct StringEater {
    source: Vec<char>,
    index: usize,
}

impl View for StringEater {
    type V = Seq<char>;

    /// The source text.
    closed spec fn view(&self) -> Seq<char> {
        self.source@
    }
}

/// What reading at offset `pos` of `s` yields: the character there, or the
/// end of input.
pub open spec fn char_at(s: Seq<char>, pos: int) -> Result<char, ParseError> {
    if 0 <= pos < s.len() {
        Ok(s[pos])
    } else {
        Err(ParseError::UnexpectedEOF)
    }
}

/// Where the cursor is once the character at `index` has been read: one past
/// `index`, or `index` itself if it is the end of `s`.
pub open spec fn reached(s: Seq<char>, index: int) -> int {
    if index < s.len() {
        index + 1
    } else {
        index
    }
}

/// `error` is the syntax error raised at a cursor at `pos` with `message`: it
/// holds the number of the cursor's line, the cursor's column on that line,
/// and the message.
pub open spec fn is_error_at(error: ParseError, s: Seq<char>, pos: int, message: &'static str) -> bool {
    &&& error matches ParseError::SyntaxError(line, col, text)
    &&& line == newlines_before(s, pos)
    &&& col == column(s, pos)
    &&& text == message
}

/// One call of `next` takes the scanner from `before` to `after` and returns
/// `got`: the source is unchanged, `got` is the character at the cursor, and
/// the cursor advances by one if there was a character.
pub open spec fn is_next(before: StringEater, after: StringEater, got: Result<char, ParseError>) -> bool {
    &&& after@ == before@
    &&& got == char_at(before@, before.position() as int)
    &&& after.position() == if got is Ok {
        before.position() + 1
    } else {
        before.position()
    }
}

/// `end` is where the identifier starting at `from` stops. If the character at
/// `from` is a letter or `_`, that is the end of the longest run of letters,
/// `_` and digits; otherwise no identifier starts there and `end` is `from`.
pub open spec fn is_word_end(s: Seq<char>, from: int, end: int) -> bool {
    if 0 <= from < s.len() && is_word_start(s[from]) {
        is_run(s, from, end, |c: char| is_word_part(c))
    } else {
        end == from
    }
}

impl StringEater {
    #[verifier::type_invariant]
    spec fn in_bounds(self) -> bool {
        self.index <= self.source@.len()
    }

    /// The cursor: the number of characters of the source already read.
    pub closed spec fn position(&self) -> nat {
        self.index as nat
    }

    /// A scanner at the start of `string`.
    pub fn new(string: &String) -> (eater: StringEater)
        ensures
            eater@ == string@,
            eater.position() == 0,
    {
        let mut source: Vec<char> = Vec::new();
        let mut rest = string.as_str().chars();
        loop
            invariant
                source@ + rest.remaining() == string@,
                rest.obeys_prophetic_iter_laws(),
                rest.decrease() is Some,
            ensures
                source@ == string@,
            decreases rest.decrease()->0,
        {
            match rest.next() {
                Some(c) => {
                    source.push(c);
                },
                None => {
                    assert(source@ + rest.remaining() =~= source@);
                    break ;
                },
            }
        }
        StringEater { source, index: 0 }
    }

    /// The cursor, as a value to hand to `restore` later.
    pub fn backup(&self) -> (backup: usize)
        ensures
            backup == self.position(),
            backup <= self@.len(),
    {
        proof {
            use_type_invariant(self);
        }
        self.index
    }

    /// Moves the cursor to `backup`, a value that `backup` returned earlier.
    /// The cursor is all the state there is, so the scanner then behaves
    /// exactly as it did when the value was taken.
    pub fn restore(&mut self, backup: usize)
        requires
            backup <= old(self)@.len(),
        ensures
            final(self)@ == old(self)@,
            final(self).position() == backup,
    {
        self.index = backup;
    }

    /// The next character, without reading it.
    pub fn peek(&mut self) -> (next: Result<char, ParseError>)
        ensures
            *final(self) == *old(self),
            next == char_at(old(self)@, old(self).position() as int),
    {
        proof {
            use_type_invariant(&*self);
        }
        if self.index < self.source.len() {
            Ok(self.source[self.index])
        } else {
            Err(ParseError::UnexpectedEOF)
        }
    }

    /// Reads the next character. At the end of the source it fails and the
    /// cursor stays.
    pub fn next(&mut self) -> (next: Result<char, ParseError>)
        ensures
            is_next(*old(self), *final(self), next),
            final(self).position() <= final(self)@.len(),
    {
        proof {
            use_type_invariant(&*self);
        }
        if self.index < self.source.len() {
            let c = self.source[self.index];
            self.index = self.index + 1;
            Ok(c)
        } else {
            Err(ParseError::UnexpectedEOF)
        }
    }

    /// Reads the next character if it is `expected` and returns whether it
    /// did. Otherwise the cursor stays.
    pub fn eat(&mut self, expected: char) -> (eaten: bool)
        ensures
            final(self)@ == old(self)@,
            eaten == (char_at(old(self)@, old(self).position() as int) == Ok::<char, ParseError>(expected)),
            final(self).position() == if eaten {
                old(self).position() + 1
            } else {
                old(self).position()
            },
            final(self).position() <= final(self)@.len(),
    {
        proof {
            use_type_invariant(&*self);
        }
        if self.index < self.source.len() && self.source[self.index] == expected {
            self.index = self.index + 1;
            true
        } else {
            false
        }
    }

    /// The line number and the line start for a cursor at `cursor`, found by
    /// walking the source up to it.
    fn locate(&self, cursor: usize) -> (place: (usize, usize))
        requires
            cursor <= self@.len(),
        ensures
            place.0 == newlines_before(self@, cursor as int),
            place.1 == line_start(self@, cursor as int),
            place.1 <= cursor,
    {
        let mut line: usize = 0;
        let mut start: usize = 0;
        let mut i: usize = 0;
        while i < cursor
            invariant
                i <= cursor <= self.source@.len(),
                line == newlines_before(self.source@, i as int),
                start == line_start(self.source@, i as int),
                line <= i,
                start <= i,
            decreases cursor - i,
        {
            if self.source[i] == '\n' {
                line = line + 1;
                start = i + 1;
            }
            i = i + 1;
        }
        (line, start)
    }

    /// Where the line containing offset `from` ends.
    pub(crate) fn end_of_line(&self, from: usize) -> (end: usize)
        requires
            from <= self@.len(),
        ensures
            end == line_end(self@, from as int),
            from <= end <= self@.len(),
    {
        let mut end: usize = from;
        while end < self.source.len() && self.source[end] != '\n'
            invariant
                from <= end <= self.source@.len(),
                line_end(self.source@, end as int) == line_end(self.source@, from as int),
            decreases self.source@.len() - end,
        {
            end = end + 1;
        }
        end
    }

    /// The text from `start` to the end of its line.
    pub(crate) fn line_from(&self, start: usize) -> (text: String)
        requires
            start <= self@.len(),
        ensures
            text@ == line_text(self@, start as int),
    {
        let end = self.end_of_line(start);
        let mut text = String::new();
        let mut i: usize = start;
        while i < end
            invariant
                start <= i <= end <= self.source@.len(),
                text@ == self.source@.subrange(start as int, i as int),
            decreases end - i,
        {
            text.push(self.source[i]);
            i = i + 1;
            assert(self.source@.subrange(start as int, i as int) =~= self.source@.subrange(
                start as int,
                i - 1,
            ).push(self.source@[i - 1]));
        }
        text
    }

    /// Where line number `line` starts.
    pub(crate) fn offset_of_line(&self, line: usize) -> (start: usize)
        ensures
            start == line_offset(self@, line as nat),
            start <= self@.len(),
    {
        let mut start: usize = 0;
        let mut seen: usize = 0;
        while seen < line
            invariant
                seen <= line,
                start == line_offset(self.source@, seen as nat),
                start <= self.source@.len(),
            decreases line - seen,
        {
            let end = self.end_of_line(start);
            if end == self.source.len() {
                proof {
                    lemma_line_offset_past_last(self.source@, seen as nat, line as nat);
                }
                return end;
            }
            start = end + 1;
            seen = seen + 1;
        }
        start
    }

    /// The line on which reading continues once the character at `index` has
    /// been read: its text without the line feed, its number counted from 0,
    /// and the offset at which it starts.
    ///
    /// A line feed at `index` therefore gives the line after it. With `index`
    /// at the end of the source the result is the last line.
    pub fn _read_line(&self, index: usize) -> (found: (String, usize, usize))
        requires
            index <= self@.len(),
        ensures
            found.1 == newlines_before(self@, reached(self@, index as int)),
            found.2 == line_start(self@, reached(self@, index as int)),
            found.0@ == line_text(self@, found.2 as int),
    {
        let cursor: usize = if index < self.source.len() {
            index + 1
        } else {
            index
        };
        let (line, start) = self.locate(cursor);
        let text = self.line_from(start);
        (text, line, start)
    }

    /// A syntax error at the cursor: the cursor's line and column, and
    /// `string` as the description of what was expected there.
    pub fn err(&self, string: &'static str) -> (error: ParseError)
        ensures
            is_error_at(error, self@, self.position() as int, string),
    {
        proof {
            use_type_invariant(self);
            lemma_line_start(self.source@, self.index as int);
        }
        let (line, start) = self.locate(self.index);
        ParseError::SyntaxError(line, self.index - start, string)
    }

    /// Whether `c` may start an identifier.
    pub fn is_word(c: char) -> (yes: bool)
        ensures
            yes == is_word_start(c),
    {
        (c >= 'a' && c <= 'z') || (c >= 'A' && c <= 'Z') || c == '_'
    }

    /// Whether `c` is a decimal digit.
    pub fn is_integer(c: char) -> (yes: bool)
        ensures
            yes == is_digit(c),
    {
        c >= '0' && c <= '9'
    }

    /// Whether an identifier may start at the cursor. Nothing is read.
    pub fn next_is_word(&mut self) -> (answer: Result<bool, ParseError>)
        ensures
            *final(self) == *old(self),
            answer == match char_at(old(self)@, old(self).position() as int) {
                Ok(c) => Ok::<bool, ParseError>(is_word_start(c)),
                Err(e) => Err(e),
            },
    {
        match self.peek() {
            Ok(c) => Ok(Self::is_word(c)),
            Err(_) => Err(ParseError::UnexpectedEOF),
        }
    }

    /// Whether the character at the cursor is a decimal digit. Nothing is
    /// read.
    pub fn next_is_integer(&mut self) -> (answer: Result<bool, ParseError>)
        ensures
            *final(self) == *old(self),
            answer == match char_at(old(self)@, old(self).position() as int) {
                Ok(c) => Ok::<bool, ParseError>(is_digit(c)),
                Err(e) => Err(e),
            },
    {
        match self.peek() {
            Ok(c) => Ok(Self::is_integer(c)),
            Err(_) => Err(ParseError::UnexpectedEOF),
        }
    }

    /// Opens a token at the cursor: its start, and an end yet to be set.
    pub fn begin_token(&self) -> (token: (usize, usize))
        ensures
            token.0 == self.position(),
            token.1 == 0,
    {
        (self.index, 0)
    }

    /// Closes `token` at the cursor. Its start is kept.
    pub fn end_token(&self, token: &mut (usize, usize))
        ensures
            final(token).0 == old(token).0,
            final(token).1 == self.position(),
    {
        token.1 = self.index;
    }

    /// Skips the longest run of spaces and line feeds at the cursor, and
    /// nothing else, and returns whether it skipped anything.
    pub fn trim(&mut self) -> (trimmed: bool)
        ensures
            final(self)@ == old(self)@,
            is_run(
                old(self)@,
                old(self).position() as int,
                final(self).position() as int,
                |c: char| is_blank(c),
            ),
            trimmed == (final(self).position() > old(self).position()),
    {
        proof {
            use_type_invariant(&*self);
        }
        let start: usize = self.index;
        while self.index < self.source.len() && (self.source[self.index] == ' '
            || self.source[self.index] == '\n')
            invariant
                self.source@ == old(self).source@,
                start <= self.index <= self.source@.len(),
                forall|i: int| start <= i < self.index ==> is_blank(#[trigger] self.source@[i]),
            decreases self.source@.len() - self.index,
        {
            self.index = self.index + 1;
        }
        self.index > start
    }

    /// Reads the longest identifier at the cursor: a letter or `_` followed by
    /// letters, `_` and digits. If none starts there, the word is empty and
    /// the cursor does not move.
    pub fn read_word(&mut self) -> (word: Result<String, ParseError>)
        ensures
            final(self)@ == old(self)@,
            is_word_end(old(self)@, old(self).position() as int, final(self).position() as int),
            old(self).position() <= final(self).position() <= final(self)@.len(),
            word matches Ok(text) && text@ == old(self)@.subrange(
                old(self).position() as int,
                final(self).position() as int,
            ),
    {
        proof {
            use_type_invariant(&*self);
        }
        let start: usize = self.index;
        let mut out = String::new();
        if self.index < self.source.len() && Self::is_word(self.source[self.index]) {
            while self.index < self.source.len() && (Self::is_word(self.source[self.index])
                || Self::is_integer(self.source[self.index]))
                invariant
                    self.source@ == old(self).source@,
                    start <= self.index <= self.source@.len(),
                    forall|i: int|
                        start <= i < self.index ==> is_word_part(#[trigger] self.source@[i]),
                    out@ == self.source@.subrange(start as int, self.index as int),
                decreases self.source@.len() - self.index,
            {
                out.push(self.source[self.index]);
                self.index = self.index + 1;
                assert(self.source@.subrange(start as int, self.index as int)
                    =~= self.source@.subrange(start as int, self.index - 1).push(
                    self.source@[self.index - 1],
                ));
            }
        } else {
            assert(out@ =~= self.source@.subrange(start as int, start as int));
        }
        Ok(out)
    }

    /// Reads the longest run of digits of base `radix` at the cursor and
    /// returns the number they spell, saturated at the largest `u64`.
    fn read_radix(&mut self, radix: u64) -> (number: u64)
        requires
            radix == 2 || radix == 10 || radix == 16,
        ensures
            final(self)@ == old(self)@,
            is_run(
                old(self)@,
                old(self).position() as int,
                final(self).position() as int,
                |c: char| is_digit_of(c, radix as nat),
            ),
            number == saturated(
                number_value(
                    old(self)@.subrange(old(self).position() as int, final(self).position() as int),
                    radix as nat,
                ),
            ),
    {
        proof {
            use_type_invariant(&*self);
        }
        let start: usize = self.index;
        let mut value: u64 = 0;
        assert(self.source@.subrange(start as int, start as int) =~= Seq::<char>::empty());
        while self.index < self.source.len() && digit_in(self.source[self.index], radix)
            invariant
                radix == 2 || radix == 10 || radix == 16,
                self.source@ == old(self).source@,
                start <= self.index <= self.source@.len(),
                forall|i: int|
                    start <= i < self.index ==> is_digit_of(#[trigger] self.source@[i], radix as nat),
                value == saturated(
                    number_value(
                        self.source@.subrange(start as int, self.index as int),
                        radix as nat,
                    ),
                ),
            decreases self.source@.len() - self.index,
        {
            let c = self.source[self.index];
            let ghost before = self.source@.subrange(start as int, self.index as int);
            let digit = digit_of(c);
            let pushed = push_digit(value, digit, radix);
            proof {
                lemma_number_value_push(before, c, radix as nat);
                assert(self.source@.subrange(start as int, self.index + 1) =~= before.push(c));
                let n = number_value(before, radix as nat);
                if n > u64::MAX {
                    assert(n * radix + digit > u64::MAX) by (nonlinear_arith)
                        requires
                            n > u64::MAX,
                            radix >= 2,
                            digit >= 0,
                            u64::MAX > 0,
                    ;
                    assert(value * radix + digit > u64::MAX) by (nonlinear_arith)
                        requires
                            value == u64::MAX,
                            radix >= 2,
                            digit >= 0,
                            u64::MAX > 0,
                    ;
                }
            }
            value = pushed;
            self.index = self.index + 1;
        }
        value
    }

    /// Reads the longest run of decimal digits at the cursor and returns the
    /// number they spell. The caller makes sure that a digit is there. A
    /// number too large for a `u64` is still read to its last digit, and the
    /// result is the largest `u64`.
    pub fn read_integer(&mut self) -> (number: Result<u64, ParseError>)
        requires
            char_at(old(self)@, old(self).position() as int) matches Ok(c) && is_digit(c),
        ensures
            final(self)@ == old(self)@,
            is_run(
                old(self)@,
                old(self).position() as int,
                final(self).position() as int,
                |c: char| is_digit(c),
            ),
            number == Ok::<u64, ParseError>(
                saturated(
                    number_value(
                        old(self)@.subrange(
                            old(self).position() as int,
                            final(self).position() as int,
                        ),
                        10,
                    ),
                ),
            ),
    {
        let number = self.read_radix(10);
        proof {
            assert forall|c: char| is_digit_of(c, 10) == is_digit(c) by {
                lemma_digits_of_bases(c);
            }
        }
        Ok(number)
    }

    /// Reads the longest run of hexadecimal digits at the cursor, that is of
    /// decimal digits and the lower case letters `a` to `f`, and returns the
    /// number they spell. The caller makes sure that a digit is there. A
    /// number too large for a `u64` is still read to its last digit, and the
    /// result is the largest `u64`.
    pub fn read_integer_hex(&mut self) -> (number: Result<u64, ParseError>)
        requires
            char_at(old(self)@, old(self).position() as int) matches Ok(c) && is_hex_digit(c),
        ensures
            final(self)@ == old(self)@,
            is_run(
                old(self)@,
                old(self).position() as int,
                final(self).position() as int,
                |c: char| is_hex_digit(c),
            ),
            number == Ok::<u64, ParseError>(
                saturated(
                    number_value(
                        old(self)@.subrange(
                            old(self).position() as int,
                            final(self).position() as int,
                        ),
                        16,
                    ),
                ),
            ),
    {
        let number = self.read_radix(16);
        proof {
            assert forall|c: char| is_digit_of(c, 16) == is_hex_digit(c) by {
                lemma_digits_of_bases(c);
            }
        }
        Ok(number)
    }

    /// Reads the longest run of `0` and `1` at the cursor and returns the
    /// number they spell in base 2. The caller makes sure that a digit is
    /// there. A number too large for a `u64` is still read to its last digit,
    /// and the result is the largest `u64`.
    pub fn read_integer_bin(&mut self) -> (number: Result<u64, ParseError>)
        requires
            char_at(old(self)@, old(self).position() as int) matches Ok(c) && is_bin_digit(c),
        ensures
            final(self)@ == old(self)@,
            is_run(
                old(self)@,
                old(self).position() as int,
                final(self).position() as int,
                |c: char| is_bin_digit(c),
            ),
            number == Ok::<u64, ParseError>(
                saturated(
                    number_value(
                        old(self)@.subrange(
                            old(self).position() as int,
                            final(self).position() as int,
                        ),
                        2,
                    ),
                ),
            ),
    {
        let number = self.read_radix(2);
        proof {
            assert forall|c: char| is_digit_of(c, 2) == is_bin_digit(c) by {
                lemma_digits_of_bases(c);
            }
        }
        Ok(number)
    }
}

} // verus!
