//! An evaluator of arithmetic expressions over decimal numbers with
//! `+ - * /` and braces.
//!
//! `evaluate` validates an expression and builds its tree; each leaf holds
//! the text of a numeric literal, so the caller chooses the arithmetic that
//! the tree is computed in.
use vstd::prelude::*;

pub mod builder;
pub mod laws;
pub mod preprocess;
pub mod tree;

use crate::builder::{build, create_node_from_str};
use crate::preprocess::{preprocess, preprocessed, Fault};
use crate::tree::{Node, SyntaxError, Term};

verus! {

/// What evaluating `raw` gives: the tree of its normalised text, or the
/// position and kind of the first rule that it breaks.
pub open spec fn evaluation(raw: Seq<char>) -> Result<Term, (int, Fault)> {
    match preprocessed(raw) {
        Ok(p) => Ok(build(p)),
        Err(e) => Err(e),
    }
}

/// Validates `exp` and builds its tree, or reports the first syntax error.
pub fn evaluate(exp: &str) -> (r: Result<Node, SyntaxError>)
    ensures
        match evaluation(exp@) {
            Ok(t) => r is Ok && r->Ok_0.term() == t,
            Err((i, f)) => r is Err && r->Err_0.index == i && r->Err_0.message@ == f.text(),
        },
{
    match preprocess(exp) {
        Ok(p) => Ok(create_node_from_str(&p)),
        Err(e) => Err(e),
    }
}

} // verus!
