//! Faults found while scanning source text.

use vstd::prelude::*;
use vstd::string::*;

verus! {

#[derive(Debug, Clone, Copy, PartialEq, Eq, Structural)]
pub enum LexerErrorType {
    UnknownChar(char),
    UnterminatedString,
}

#[derive(Debug, Clone, Copy, PartialEq, Eq, Structural)]
pub struct LexerError {
    pub line_number: usize,
    pub error_type: LexerErrorType,
}

impl LexerError {
    pub fn new(error_type: LexerErrorType, line_number: usize) -> (e: LexerError)
        ensures
            e.line_number == line_number,
            e.error_type == error_type,
    {
        LexerError { line_number, error_type }
    }
}

impl LexerErrorType {
    /// The message shown for the fault.
    pub open spec fn message(self) -> Seq<char> {
        match self {
            LexerErrorType::UnknownChar(c) => "Unexpected character: "@.push(c),
            LexerErrorType::UnterminatedString => "Unterminated string."@,
        }
    }

    /// The message shown for the fault.
    pub fn to_string(&self) -> (s: String)
        ensures
            s@ == self.message(),
    {
        match self {
            LexerErrorType::UnknownChar(c) => {
                let mut s = "Unexpected character: ".to_string();
                s.push(*c);
                s
            },
            LexerErrorType::UnterminatedString => "Unterminated string.".to_string(),
        }
    }
}

} // verus!
