//! The shunting-yard parser: tokens to an expression tree.
//!
//! The parser keeps two stacks: the operands, already built subtrees, and the
//! operators, pending operators and open-bracket markers. The spec functions
//! below state each transition on the two stacks; the executable functions
//! are proved to make exactly these transitions.
use vstd::prelude::*;

use crate::syntax::{Expression, ParseError, Token};
use crate::tokenizer::{numerals_fit, tokenize, tokens_of};

verus! {

/// An entry of the operator stack.
#[derive(Debug, Clone, Copy, PartialEq, Eq, Structural)]
pub enum StackEntry {
    Operator(char),
    LeftBracket,
}

/// The operand stack and the operator stack, bottom first.
pub type Stacks = (Seq<Expression>, Seq<StackEntry>);

/// Binding strength of an operator: `*` and `/` bind tighter than `+` and `-`.
pub open spec fn rank(op: char) -> int {
    if op == '*' || op == '/' {
        2
    } else if op == '+' || op == '-' {
        1
    } else {
        0
    }
}

/// The operand stack after the top two operands are joined by `op`: the one
/// below is the left child, the top one the right child.
pub open spec fn combine(operands: Seq<Expression>, op: char) -> Seq<Expression>
    recommends
        operands.len() >= 2,
{
    let n = operands.len();
    operands.take(n - 2).push(
        Expression::Operation {
            left: Box::new(operands[n - 2]),
            operator: op,
            right: Box::new(operands[n - 1]),
        },
    )
}

/// Pops and combines operators while the top of the operator stack is an
/// operator of rank at least `min_rank`; stops at a bracket marker or an empty
/// stack. An operator with fewer than two operands fails the parse.
pub open spec fn reduce(
    operands: Seq<Expression>,
    operators: Seq<StackEntry>,
    min_rank: int,
) -> Result<Stacks, ParseError>
    decreases operators.len(),
{
    if operators.len() == 0 {
        Ok((operands, operators))
    } else {
        match operators.last() {
            StackEntry::LeftBracket => Ok((operands, operators)),
            StackEntry::Operator(op) => {
                if rank(op) < min_rank {
                    Ok((operands, operators))
                } else if operands.len() < 2 {
                    Err(ParseError::MalformedExpression)
                } else {
                    reduce(combine(operands, op), operators.drop_last(), min_rank)
                }
            },
        }
    }
}

/// Whether a bracket marker stands anywhere on the operator stack.
pub open spec fn has_bracket(operators: Seq<StackEntry>) -> bool {
    exists|k: int| 0 <= k < operators.len() && operators[k] == StackEntry::LeftBracket
}

/// The stacks after one token.
pub open spec fn step(st: Stacks, t: Token) -> Result<Stacks, ParseError> {
    let (operands, operators) = st;
    match t {
        Token::Number(n) => Ok((operands.push(Expression::Number(n)), operators)),
        Token::Variable(v) => Ok((operands.push(Expression::Variable(v)), operators)),
        Token::Operator(op) => match reduce(operands, operators, rank(op)) {
            Ok((a, b)) => Ok((a, b.push(StackEntry::Operator(op)))),
            Err(e) => Err(e),
        },
        Token::LeftBracket => Ok((operands, operators.push(StackEntry::LeftBracket))),
        Token::RightBracket => {
            if !has_bracket(operators) {
                Err(ParseError::UnmatchedBracket)
            } else {
                match reduce(operands, operators, 0) {
                    Ok((a, b)) => Ok((a, b.drop_last())),
                    Err(e) => Err(e),
                }
            }
        },
    }
}

/// The tree left by the stacks at the end of the input: a bracket still open
/// is unmatched; after all operators are combined exactly one operand must
/// remain.
pub open spec fn finish(st: Stacks) -> Result<Expression, ParseError> {
    let (operands, operators) = st;
    if has_bracket(operators) {
        Err(ParseError::UnmatchedBracket)
    } else {
        match reduce(operands, operators, 0) {
            Ok((a, b)) => if a.len() == 1 {
                Ok(a[0])
            } else {
                Err(ParseError::MalformedExpression)
            },
            Err(e) => Err(e),
        }
    }
}

/// The result of feeding `tokens` to the parser, left to right, from the
/// stacks `st`; the first error ends the parse.
pub open spec fn run(tokens: Seq<Token>, st: Stacks) -> Result<Expression, ParseError>
    decreases tokens.len(),
{
    if tokens.len() == 0 {
        finish(st)
    } else {
        match step(st, tokens[0]) {
            Ok(next) => run(tokens.drop_first(), next),
            Err(e) => Err(e),
        }
    }
}

/// The tree of a token sequence, parsed from empty stacks.
pub open spec fn tree_of(tokens: Seq<Token>) -> Result<Expression, ParseError> {
    run(tokens, (Seq::empty(), Seq::empty()))
}

/// The tree of a text: its tokens parsed, or the tokenizer's error.
pub open spec fn parse_text(s: Seq<char>) -> Result<Expression, ParseError> {
    match tokens_of(s) {
        Ok(t) => tree_of(t),
        Err(e) => Err(e),
    }
}

/// With `min_rank` 0 every operator is reduced, so a bracket below stops the
/// reduction and stays on top.
proof fn lemma_reduce_to_bracket(operands: Seq<Expression>, operators: Seq<StackEntry>)
    requires
        has_bracket(operators),
    ensures
        reduce(operands, operators, 0) matches Ok((a, b)) ==> b.len() > 0 && b.last()
            == StackEntry::LeftBracket,
    decreases operators.len(),
{
    let k = choose|k: int| 0 <= k < operators.len() && operators[k] == StackEntry::LeftBracket;
    if let StackEntry::Operator(op) = operators.last() {
        if operands.len() >= 2 {
            assert(k < operators.len() - 1);
            assert(operators.drop_last()[k] == StackEntry::LeftBracket);
            lemma_reduce_to_bracket(combine(operands, op), operators.drop_last());
        }
    }
}

/// The rank of `op`, as `rank` states.
fn precedence(op: char) -> (r: u8)
    ensures
        r as int == rank(op),
{
    if op == '*' || op == '/' {
        2
    } else if op == '+' || op == '-' {
        1
    } else {
        0
    }
}

/// Replaces the top two operands by one `Operation` node joining them by `op`.
fn build_operation(operands: &mut Vec<Expression>, op: char) -> (r: Result<(), ParseError>)
    ensures
        old(operands)@.len() >= 2 ==> r is Ok && final(operands)@ == combine(old(operands)@, op),
        old(operands)@.len() < 2 ==> r == Err::<(), ParseError>(ParseError::MalformedExpression),
{
    if operands.len() < 2 {
        return Err(ParseError::MalformedExpression);
    }
    let ghost before = operands@;
    let right = operands.pop().unwrap();
    let left = operands.pop().unwrap();
    operands.push(Expression::Operation { left: Box::new(left), operator: op, right: Box::new(right) });
    assert(operands@ =~= combine(before, op));
    Ok(())
}

/// Pops and combines operators of rank at least `min_rank` from the top of
/// `operators`, as `reduce` states.
fn reduce_operators(
    operands: &mut Vec<Expression>,
    operators: &mut Vec<StackEntry>,
    min_rank: u8,
) -> (r: Result<(), ParseError>)
    ensures
        match reduce(old(operands)@, old(operators)@, min_rank as int) {
            Ok((a, b)) => r is Ok && final(operands)@ == a && final(operators)@ == b,
            Err(e) => r == Err::<(), ParseError>(e),
        },
{
    while operators.len() > 0
        invariant
            reduce(old(operands)@, old(operators)@, min_rank as int) == reduce(
                operands@,
                operators@,
                min_rank as int,
            ),
        decreases operators@.len(),
    {
        match operators[operators.len() - 1] {
            StackEntry::LeftBracket => {
                return Ok(());
            },
            StackEntry::Operator(op) => {
                if precedence(op) < min_rank {
                    return Ok(());
                }
                match build_operation(operands, op) {
                    Ok(()) => {},
                    Err(e) => {
                        return Err(e);
                    },
                }
                operators.pop();
            },
        }
    }
    Ok(())
}

/// Whether a bracket marker stands anywhere on `operators`.
fn contains_bracket(operators: &Vec<StackEntry>) -> (r: bool)
    ensures
        r == has_bracket(operators@),
{
    let mut i: usize = 0;
    while i < operators.len()
        invariant
            i <= operators@.len(),
            forall|k: int| 0 <= k < i ==> operators@[k] != StackEntry::LeftBracket,
        decreases operators@.len() - i,
    {
        if let StackEntry::LeftBracket = operators[i] {
            return true;
        }
        i += 1;
    }
    false
}

/// Feeds one token to the parser, as `step` states.
fn apply_token(operands: &mut Vec<Expression>, operators: &mut Vec<StackEntry>, t: Token) -> (r:
    Result<(), ParseError>)
    ensures
        match step((old(operands)@, old(operators)@), t) {
            Ok((a, b)) => r is Ok && final(operands)@ == a && final(operators)@ == b,
            Err(e) => r == Err::<(), ParseError>(e),
        },
{
    match t {
        Token::Number(n) => {
            operands.push(Expression::Number(n));
        },
        Token::Variable(v) => {
            operands.push(Expression::Variable(v));
        },
        Token::Operator(op) => {
            let p = precedence(op);
            match reduce_operators(operands, operators, p) {
                Ok(()) => {},
                Err(e) => {
                    return Err(e);
                },
            }
            operators.push(StackEntry::Operator(op));
        },
        Token::LeftBracket => {
            operators.push(StackEntry::LeftBracket);
        },
        Token::RightBracket => {
            if !contains_bracket(operators) {
                return Err(ParseError::UnmatchedBracket);
            }
            proof {
                lemma_reduce_to_bracket(operands@, operators@);
            }
            match reduce_operators(operands, operators, 0) {
                Ok(()) => {},
                Err(e) => {
                    return Err(e);
                },
            }
            operators.pop();
        },
    }
    Ok(())
}

/// Ends the parse, as `finish` states.
fn finish_parse(mut operands: Vec<Expression>, mut operators: Vec<StackEntry>) -> (r: Result<
    Expression,
    ParseError,
>)
    ensures
        r == finish((operands@, operators@)),
{
    if contains_bracket(&operators) {
        return Err(ParseError::UnmatchedBracket);
    }
    match reduce_operators(&mut operands, &mut operators, 0) {
        Ok(()) => {},
        Err(e) => {
            return Err(e);
        },
    }
    if operands.len() != 1 {
        return Err(ParseError::MalformedExpression);
    }
    Ok(operands.pop().unwrap())
}

/// Builds the expression tree of a token sequence with the shunting-yard
/// algorithm: operators of equal rank group from the left, `*` and `/` bind
/// tighter than `+` and `-`, brackets group first.
pub fn parse_tokens(tokens: &Vec<Token>) -> (r: Result<Expression, ParseError>)
    ensures
        r == tree_of(tokens@),
{
    let mut operands: Vec<Expression> = Vec::new();
    let mut operators: Vec<StackEntry> = Vec::new();
    let mut i: usize = 0;
    assert(tokens@.skip(0) =~= tokens@);
    while i < tokens.len()
        invariant
            i <= tokens@.len(),
            tree_of(tokens@) == run(tokens@.skip(i as int), (operands@, operators@)),
        decreases tokens@.len() - i,
    {
        assert(tokens@.skip(i as int).drop_first() =~= tokens@.skip(i + 1));
        match apply_token(&mut operands, &mut operators, tokens[i]) {
            Ok(()) => {},
            Err(e) => {
                return Err(e);
            },
        }
        i += 1;
    }
    finish_parse(operands, operators)
}

/// Parses an infix expression over integers, single-letter variables,
/// `+ - * /` and brackets into its expression tree.
pub fn parse(input: &str) -> (r: Result<Expression, ParseError>)
    requires
        numerals_fit(input@),
    ensures
        r == parse_text(input@),
{
    match tokenize(input) {
        Ok(tokens) => parse_tokens(&tokens),
        Err(e) => Err(e),
    }
}

} // verus!
