//! Front end of a compiler for a small stream-oriented imperative language:
//! a lexer, a Pratt-style parser with pipeline rewriting, and a first
//! semantic pass over the parsed file.

pub mod checker;
pub mod error;
pub mod lexer;
pub mod parser;
pub mod text;

use crate::checker::{check_file, Checker};
use crate::error::CompileError;
use crate::lexer::scan::lex;
use crate::parser::hierarchy::parse_file;
use crate::parser::Parser;
use vstd::prelude::*;

verus! {

/// What the front end says of a source text: the first error of lexing and
/// parsing, or else the first fault that the checker finds in the parsed
/// file.
pub open spec fn compile_result(src: Seq<char>) -> Result<(), CompileError> {
    match parse_file(lex(src)) {
        Ok(p) => check_file(p.value),
        Err(e) => Err(e),
    }
}

/// Runs the front end on `program`: lexes and parses it as a file, then
/// checks the file.
pub fn compile(program: &str) -> (r: Result<(), CompileError>)
    ensures
        r == compile_result(program@),
{
    let mut parser = Parser::new(program);
    let items = match parser.file() {
        Ok(items) => items,
        Err(err) => {
            return Err(err);
        },
    };
    let mut checker = Checker::new(&items);
    checker.check_all()
}

} // verus!
