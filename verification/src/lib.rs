//! An interactive line editor with history recall and an arithmetic
//! expression parser and evaluator built on top of it.
//!
//! The editor turns a stream of key events into committed lines of text,
//! with in-place cursor editing, word and line navigation, and a
//! fork-on-write history of previously committed lines. The parser turns a
//! committed line into an arithmetic expression over integers, which the
//! evaluator reduces to a value.

pub mod chars;
pub mod parse;
pub mod prompt;
