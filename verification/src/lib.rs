//! Cipr: a small scripting language with a scanner, a recursive-descent
//! parser, a static type checker and a tree-walking evaluator.

pub mod text;
pub mod token;
pub mod scanner;
pub mod diagnostics;
pub mod ast;
pub mod type_syntax;
pub mod type_checker;
pub mod parser;
pub mod interpreter;
pub mod environment;
pub mod native;
pub mod driver;
pub mod ast_printer;
pub mod lowering;

use vstd::prelude::*;

verus! {

} // verus!
