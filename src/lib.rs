use vstd::prelude::*;

pub mod builder;
pub mod compiler;
pub mod lexer;
pub mod minimal_lang;
pub mod parser;
pub mod return_code;
pub mod text;

pub use minimal_lang::compile;

verus! {

} // verus!
