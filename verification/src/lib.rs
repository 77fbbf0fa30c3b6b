//! A tree-walking interpreter for a small dynamically typed scripting
//! language: a lexer, a recursive-descent parser, and an evaluator with
//! lexically nested scopes.
//!
//! Numbers are IEEE 754 doubles, held by their bit pattern.  The library
//! classifies, compares and negates them itself.  What needs rounding is
//! asked of the caller: functions that read a number from its text, render
//! it in decimal, and add, subtract, multiply and divide.  The contracts
//! say what the library does with whatever those functions give.

pub mod error;
pub mod interpreter;
pub mod lexer;
pub mod number;
pub mod parser;
pub mod round_trip;
pub mod text;
pub mod visitors;
