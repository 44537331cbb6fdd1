use vstd::prelude::*;

pub mod ast;
pub mod grammar;
pub mod lexer;
pub mod literals;
pub mod parser;
pub mod reading;
pub mod spans;
pub mod spelling;
