//! Errors of compiling a source file. Code generation itself is not part of
//! this crate; a file that does not parse is the one failure defined here.
use crate::parser::ParseError;
use vstd::prelude::*;

verus! {

#[derive(Debug)]
pub enum CompileError<'a> {
    ParseError(ParseError<'a>),
}

} // verus!
