//! The ways a line can fail to parse or evaluate.

use vstd::prelude::*;

verus! {

/// The mathematical shape of an [`Error`]: the same three cases, with the
/// message as a sequence of characters.
pub ghost enum ErrorModel {
    TokenizeError(char),
    SyntaxError(Seq<char>),
    EvalError(Seq<char>),
}

/// A parse or evaluation failure: an unusable character, a token sequence
/// that matches no expression form, or an evaluation that leaves the
/// integer range.
#[derive(Debug)]
pub enum Error {
    /// The line holds a character the tokenizer does not know.
    TokenizeError(char),
    /// The tokens do not form an expression; the payload describes the
    /// offending part of the line.
    SyntaxError(String),
    /// The evaluation failed; the payload says how.
    EvalError(String),
}

impl View for Error {
    type V = ErrorModel;

    open spec fn view(&self) -> ErrorModel {
        match self {
            Error::TokenizeError(c) => ErrorModel::TokenizeError(*c),
            Error::SyntaxError(s) => ErrorModel::SyntaxError(s@),
            Error::EvalError(s) => ErrorModel::EvalError(s@),
        }
    }
}

} // verus!
