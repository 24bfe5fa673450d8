//! A small comprehension DSL compiler.
//!
//! The library turns a flat token sequence written in set-builder style --
//! one mapping expression followed by one or more `for <pattern> in <source>`
//! clauses, each with zero or more `if <condition>` filters -- into a nested
//! lazy pipeline: `filter_map` at every nesting level, `flatten` at every
//! level but the innermost.
//!
//! Expression and pattern leaves belong to the host expression grammar and
//! are threaded through opaquely; the library never looks inside them.

use vstd::prelude::*;

pub mod ast;
pub mod parser;
pub mod pipeline;
pub mod laws;
pub mod semantics;

use crate::ast::SyntaxError;
use crate::ast::Token;
use crate::parser::parse_comprehension;
use crate::parser::spec_parse_comprehension;
use crate::pipeline::compile;
use crate::pipeline::spec_compile;
use crate::pipeline::Pipeline;

verus! {

/// The whole translation: parse the comprehension at the front of the token
/// sequence and compile it into its lazy pipeline, returning the pipeline
/// with the index of the first unconsumed token, or the syntax error's
/// position.
pub fn translate(toks: &Vec<Token>) -> (r: Result<(Pipeline, usize), SyntaxError>)
    ensures
        (match spec_parse_comprehension(toks@) {
            Ok(p) => r matches Ok(q) && q.0@ == spec_compile(p.0.clauses, p.0.mapping)
                && q.1 as int == p.1,
            Err(sp) => r matches Err(e) && e.pos as int == sp,
        }),
{
    match parse_comprehension(toks) {
        Ok(c) => {
            let (c, end) = c;
            Ok((compile(c), end))
        },
        Err(e) => Err(e),
    }
}

} // verus!
