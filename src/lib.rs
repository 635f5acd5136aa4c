use vstd::prelude::*;

pub mod token;
pub mod scanner;
pub mod ast;
pub mod grammar;
pub mod parser;
pub mod environment;
pub mod interpreter;

verus! {

} // verus!
