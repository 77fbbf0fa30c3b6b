//! Faults found while parsing.

use vstd::prelude::*;
use vstd::string::*;
use crate::lexer::token::{Token, TokenView};

verus! {

/// A syntax error: the offending token and what was expected of it.
#[derive(Debug)]
pub struct ParseError {
    pub token: Token,
    pub message: String,
}

pub type ParseResult<T> = Result<T, ParseError>;

pub struct ParseErrorView {
    pub token: TokenView,
    pub message: Seq<char>,
}

impl View for ParseError {
    type V = ParseErrorView;

    open spec fn view(&self) -> ParseErrorView {
        ParseErrorView { token: self.token@, message: self.message@ }
    }
}

impl ParseError {
    pub fn new(token: Token, message: &str) -> (e: ParseError)
        ensures
            e.token == token,
            e.message@ == message@,
    {
        ParseError { token, message: message.to_string() }
    }

    /// The message of the error.
    pub fn to_string(&self) -> (s: String)
        ensures
            s@ == self.message@,
    {
        self.message.clone()
    }
}

} // verus!
