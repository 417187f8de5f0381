//! A tokenizer for a parenthesized, Lisp-like notation.
//!
//! The lexer turns a sequence of characters into tokens tagged with the
//! inclusive span of source positions they were read from. Lines and columns
//! are both counted from 0; a newline moves to column 0 of the next line.
use vstd::prelude::*;

pub mod token;
pub mod chars;
pub mod position;
pub mod machine;
pub mod lexer;
pub mod laws;
