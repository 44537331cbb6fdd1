use vstd::prelude::*;

pub mod codegen;
