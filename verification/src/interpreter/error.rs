//! Faults raised while a program runs.

use vstd::prelude::*;
use vstd::string::*;

verus! {

/// A runtime error: the line it arose on and what went wrong.
#[derive(Debug)]
pub struct RuntimeError {
    pub line_number: usize,
    pub message: String,
}

pub type RuntimeResult<T> = Result<T, RuntimeError>;

pub struct RuntimeErrorView {
    pub line_number: usize,
    pub message: Seq<char>,
}

impl View for RuntimeError {
    type V = RuntimeErrorView;

    open spec fn view(&self) -> RuntimeErrorView {
        RuntimeErrorView { line_number: self.line_number, message: self.message@ }
    }
}

impl RuntimeError {
    pub fn new(line_number: usize, message: &str) -> (e: RuntimeError)
        ensures
            e.line_number == line_number,
            e.message@ == message@,
    {
        RuntimeError { line_number, message: message.to_string() }
    }

    /// The message of the error.
    pub fn to_string(&self) -> (s: String)
        ensures
            s@ == self.message@,
    {
        self.message.clone()
    }
}

} // verus!
