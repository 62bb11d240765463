//! How the parser groups operators, for any atoms and any operators.
use vstd::prelude::*;

use crate::parser::{has_bracket, rank, reduce, run, tree_of, StackEntry};
use crate::syntax::{Expression, ParseError, Token};

verus! {

/// Whether `t` is a number or a variable.
pub open spec fn is_atom(t: Token) -> bool {
    t is Number || t is Variable
}

/// The leaf that an atom becomes.
pub open spec fn leaf(t: Token) -> Expression
    recommends
        is_atom(t),
{
    match t {
        Token::Number(n) => Expression::Number(n),
        Token::Variable(v) => Expression::Variable(v),
        _ => Expression::Number(0),
    }
}

/// The tree node joining `l` and `r` by `op`.
pub open spec fn node(l: Expression, op: char, r: Expression) -> Expression {
    Expression::Operation { left: Box::new(l), operator: op, right: Box::new(r) }
}

/// An operator that binds tighter than the one before it takes the operand
/// between them: `x o1 y o2 z` is `x o1 (y o2 z)` when `o2` outranks `o1`.
pub proof fn lemma_tighter_operator_groups_first(x: Token, o1: char, y: Token, o2: char, z: Token)
    requires
        is_atom(x),
        is_atom(y),
        is_atom(z),
        rank(o1) < rank(o2),
    ensures
        tree_of(seq![x, Token::Operator(o1), y, Token::Operator(o2), z]) == Ok::<
            Expression,
            ParseError,
        >(node(leaf(x), o1, node(leaf(y), o2, leaf(z)))),
{
    reveal_with_fuel(run, 6);
    reveal_with_fuel(reduce, 3);
}

/// Of two operators where the first ranks at least as high, the first groups
/// first: `x o1 y o2 z` is `(x o1 y) o2 z`; with equal ranks this is grouping
/// from the left.
pub proof fn lemma_earlier_operator_groups_first(x: Token, o1: char, y: Token, o2: char, z: Token)
    requires
        is_atom(x),
        is_atom(y),
        is_atom(z),
        rank(o1) >= rank(o2),
    ensures
        tree_of(seq![x, Token::Operator(o1), y, Token::Operator(o2), z]) == Ok::<
            Expression,
            ParseError,
        >(node(node(leaf(x), o1, leaf(y)), o2, leaf(z))),
{
    reveal_with_fuel(run, 6);
    reveal_with_fuel(reduce, 3);
}

/// Brackets group first, whatever the ranks: `(x o1 y) o2 z` is
/// `(x o1 y) o2 z`.
pub proof fn lemma_brackets_group_first(x: Token, o1: char, y: Token, o2: char, z: Token)
    requires
        is_atom(x),
        is_atom(y),
        is_atom(z),
    ensures
        tree_of(
            seq![
                Token::LeftBracket,
                x,
                Token::Operator(o1),
                y,
                Token::RightBracket,
                Token::Operator(o2),
                z,
            ],
        ) == Ok::<Expression, ParseError>(node(node(leaf(x), o1, leaf(y)), o2, leaf(z))),
{
    reveal_with_fuel(run, 8);
    reveal_with_fuel(reduce, 3);
    let b = seq![StackEntry::LeftBracket, StackEntry::Operator(o1)];
    assert(has_bracket(b)) by {
        assert(b[0] == StackEntry::LeftBracket);
    }
}

} // verus!
