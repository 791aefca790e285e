//! A small configuration language of flat variable assignments, in the style
//! of a restricted shell dialect: quoting, escaping, line continuations, and
//! variable expansion over string and array values.
//!
//! The pipeline runs in three stages, each with a verified contract:
//! a lossless tree is parsed from source text ([`ApmlLst::parse`]), a
//! semantic tree of assignment statements is emitted from it
//! ([`ApmlAst::emit_from`]), and the statements are evaluated in source
//! order into a mapping from variable name to value
//! ([`ApmlContext::eval_source`]).

use vstd::prelude::*;

pub mod ast;
pub mod context;
pub mod eval;
pub mod lst;
pub mod text;
pub mod value;

pub use ast::{ApmlAst, EmitError};
pub use context::ApmlContext;
pub use eval::EvalError;
pub use lst::{ApmlLst, ParseError};
pub use value::VariableValue;

verus! {

/// The error of the whole pipeline: a plain wrapper around the first
/// failing stage's error, which propagates unchanged.
#[derive(Debug, Clone, Copy, PartialEq, Eq, Structural)]
pub enum ApmlError {
    /// Lexical or syntactic failure in the raw source text.
    Parse(ParseError),
    /// Semantic-tree construction failure from a valid lossless tree.
    Emit(EmitError),
    /// Structurally invalid expansion surviving to evaluation
    /// (defensive).
    Eval(EvalError),
}

} // verus!
