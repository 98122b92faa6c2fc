//! The expression tree and the diagnostics of the evaluator.
use vstd::prelude::*;

verus! {

/// A binary arithmetic operation.
#[derive(Clone, Copy, Debug, PartialEq, Eq, Structural)]
pub enum Operator {
    Add,
    Sub,
    Mul,
    Div,
}

/// One side of a node: a numeric literal, kept as its text, or a subtree.
#[derive(Debug)]
pub enum Operand {
    Expression(Box<Node>),
    Number(String),
}

/// A complete binary operation that owns both of its operands.
#[derive(Debug)]
pub struct Node {
    pub operator: Operator,
    pub operand1: Operand,
    pub operand2: Operand,
}

/// The mathematical shape of a tree: literals by their text.
pub enum Term {
    Num(Seq<char>),
    Bin(Operator, Box<Term>, Box<Term>),
}

pub open spec fn operand_term(o: &Operand) -> Term
    decreases o,
{
    match o {
        Operand::Number(s) => Term::Num(s@),
        Operand::Expression(n) => Term::Bin(
            n.operator,
            Box::new(operand_term(&n.operand1)),
            Box::new(operand_term(&n.operand2)),
        ),
    }
}

impl Node {
    pub open spec fn term(&self) -> Term {
        Term::Bin(
            self.operator,
            Box::new(operand_term(&self.operand1)),
            Box::new(operand_term(&self.operand2)),
        )
    }
}

/// A rejected expression: `index` is a position in the expression with its
/// whitespace taken out, `message` says what is wrong there.
#[derive(Debug)]
pub struct SyntaxError {
    pub index: usize,
    pub message: String,
}

} // verus!
