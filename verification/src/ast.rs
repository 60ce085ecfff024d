//! Expression trees: the output of the parser and the input of the
//! evaluator.

use vstd::prelude::*;
use crate::value::Value;

verus! {

/// An expression tree, exclusively owned top-down: a literal value, a
/// parenthesized grouping, a unary application, or a binary application.
#[derive(Debug, PartialEq)]
pub enum Expression {
    Literal(Value),
    Grouping(Box<Expression>),
    Unary(UnaryOperator, Box<Expression>),
    Binary(BinaryOperator, Box<Expression>, Box<Expression>),
}

/// A unary operator: arithmetic negation or logical not.
#[derive(Copy, Clone, PartialEq, Eq, Structural, Debug)]
pub enum UnaryOperator {
    Neg,
    Not,
}

/// A binary operator: arithmetic, equality, or ordering.
#[derive(Copy, Clone, PartialEq, Eq, Structural, Debug)]
pub enum BinaryOperator {
    Add,
    Sub,
    Div,
    Mul,
    Equal,
    NotEqual,
    Greater,
    GreaterEqual,
    Less,
    LessEqual,
}

} // verus!
