//! The errors of all stages under one type.

use vstd::prelude::*;
use vstd::std_specs::convert::FromSpecImpl;
use vstd::string::*;
use crate::interpreter::error::RuntimeError;
use crate::lexer::error::LexerError;
use crate::parser::error::ParseError;
use crate::text::{decimal, decimal_string};

verus! {

#[derive(Debug)]
pub enum LoxError {
    LexerError(LexerError),
    ParseError(ParseError),
    RuntimeError(RuntimeError),
}

impl From<LexerError> for LoxError {
    fn from(value: LexerError) -> (e: LoxError) {
        Self::LexerError(value)
    }
}

impl FromSpecImpl<LexerError> for LoxError {
    open spec fn obeys_from_spec() -> bool {
        true
    }

    open spec fn from_spec(value: LexerError) -> LoxError {
        LoxError::LexerError(value)
    }
}

impl From<ParseError> for LoxError {
    fn from(value: ParseError) -> (e: LoxError) {
        Self::ParseError(value)
    }
}

impl FromSpecImpl<ParseError> for LoxError {
    open spec fn obeys_from_spec() -> bool {
        true
    }

    open spec fn from_spec(value: ParseError) -> LoxError {
        LoxError::ParseError(value)
    }
}

impl From<RuntimeError> for LoxError {
    fn from(value: RuntimeError) -> (e: LoxError) {
        Self::RuntimeError(value)
    }
}

impl FromSpecImpl<RuntimeError> for LoxError {
    open spec fn obeys_from_spec() -> bool {
        true
    }

    open spec fn from_spec(value: RuntimeError) -> LoxError {
        LoxError::RuntimeError(value)
    }
}

impl LoxError {
    /// The line that the error is reported at: for a parse error, that of
    /// the offending token.
    pub open spec fn line(self) -> usize {
        match self {
            LoxError::LexerError(error) => error.line_number,
            LoxError::ParseError(error) => error.token.line_number,
            LoxError::RuntimeError(error) => error.line_number,
        }
    }

    /// The message of the error.
    pub open spec fn message(self) -> Seq<char> {
        match self {
            LoxError::LexerError(error) => error.error_type.message(),
            LoxError::ParseError(error) => error.message@,
            LoxError::RuntimeError(error) => error.message@,
        }
    }

    /// The line of the error.
    pub fn line_number(&self) -> (line: usize)
        ensures
            line == self.line(),
    {
        match self {
            Self::LexerError(err) => err.line_number,
            Self::ParseError(err) => err.token.line_number,
            Self::RuntimeError(err) => err.line_number,
        }
    }

    /// The report of the error: `[line N] Error: <message>` and a line break.
    pub fn to_string(&self) -> (report: String)
        ensures
            report@ == "[line "@ + decimal(self.line() as nat) + "] Error: "@ + self.message()
                + seq!['\n'],
    {
        let mut report = "[line ".to_string();
        report.append(decimal_string(self.line_number()).as_str());
        report.append("] Error: ");
        let message = match self {
            Self::LexerError(err) => err.error_type.to_string(),
            Self::ParseError(err) => err.message.clone(),
            Self::RuntimeError(err) => err.message.clone(),
        };
        report.append(message.as_str());
        report.push('\n');
        report
    }
}

} // verus!
