//! A character-stream reader for hand-written recursive-descent parsers.
//!
//! [`string_eater::StringEater`] walks over a source text one character at a
//! time, can return to any earlier position, reads identifiers and unsigned
//! integers by maximal munch, and attaches a line and a column to the errors it
//! makes. Every operation is stated over the source as a `Seq<char>` and the
//! cursor as an offset into it.

pub mod backtracking;
pub mod classes;
pub mod lines;
pub mod numbers;
pub mod parse_error;
pub mod render;
pub mod string_eater;
pub mod text;
