//! The values that the tokenizer and the parser produce.
use vstd::prelude::*;

verus! {

/// One lexical unit of an expression.
#[derive(Debug, Clone, Copy, PartialEq, Eq, Structural)]
pub enum Token {
    Number(i32),
    Variable(char),
    Operator(char),
    LeftBracket,
    RightBracket,
}

/// A node of the expression tree; each `Operation` owns its two children.
#[derive(Debug, PartialEq, Eq)]
pub enum Expression {
    Number(i32),
    Variable(char),
    Operation { left: Box<Expression>, operator: char, right: Box<Expression> },
}

/// Why a text could not be tokenized or parsed.
#[derive(Debug, Clone, Copy, PartialEq, Eq, Structural)]
pub enum ParseError {
    /// A character that is no digit, letter, operator, bracket or whitespace.
    InvalidSymbol(char),
    /// A `)` without its `(`, or a `(` never closed.
    UnmatchedBracket,
    /// An operator without two operands, or not exactly one tree at the end.
    MalformedExpression,
}

} // verus!
