use vstd::prelude::*;

verus! {

/// What a scan can fail with.
#[derive(Debug)]
pub enum ParseError {
    /// The input is not what the caller expected: the line (counted from 0),
    /// the column on that line (counted from 0), and the caller's description
    /// of what was expected.
    SyntaxError(usize, usize, &'static str),
    /// A character was asked for and none is left.
    UnexpectedEOF,
}

} // verus!
