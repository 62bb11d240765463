use infix_parser::{parse, parse_tokens, Expression, ParseError, Token};

fn var(c: char) -> Expression {
    Expression::Variable(c)
}

fn num(n: i32) -> Expression {
    Expression::Number(n)
}

fn op(left: Expression, operator: char, right: Expression) -> Expression {
    Expression::Operation { left: Box::new(left), operator, right: Box::new(right) }
}

#[test]
fn parse_doc_examples() {
    assert_eq!(parse("1 + 2"), Ok(op(num(1), '+', num(2))));
    assert_eq!(parse("x * y"), Ok(op(var('x'), '*', var('y'))));
    assert_eq!(parse("(a + b) * c"), Ok(op(op(var('a'), '+', var('b')), '*', var('c'))));
}

#[test]
fn parse_atoms() {
    assert_eq!(parse("x"), Ok(var('x')));
    assert_eq!(parse("4"), Ok(num(4)));
    assert_eq!(parse("  3  "), Ok(num(3)));
}

#[test]
fn parse_precedence() {
    assert_eq!(parse("a + b * c"), Ok(op(var('a'), '+', op(var('b'), '*', var('c')))));
    assert_eq!(parse("a * b + c"), Ok(op(op(var('a'), '*', var('b')), '+', var('c'))));
    assert_eq!(parse("a - b / c"), Ok(op(var('a'), '-', op(var('b'), '/', var('c')))));
}

#[test]
fn parse_left_associative() {
    assert_eq!(parse("a - b - c"), Ok(op(op(var('a'), '-', var('b')), '-', var('c'))));
    assert_eq!(parse("a / b * c"), Ok(op(op(var('a'), '/', var('b')), '*', var('c'))));
    assert_eq!(parse("a + b - c"), Ok(op(op(var('a'), '+', var('b')), '-', var('c'))));
}

#[test]
fn parse_brackets_override_precedence() {
    assert_eq!(parse("(a + b) * c"), Ok(op(op(var('a'), '+', var('b')), '*', var('c'))));
    assert_eq!(parse("a - (b - c)"), Ok(op(var('a'), '-', op(var('b'), '-', var('c')))));
    assert_eq!(parse("((a))"), Ok(var('a')));
}

#[test]
fn parse_mixed_expression() {
    assert_eq!(
        parse("(a + b) * (c - d) / 2"),
        Ok(op(op(op(var('a'), '+', var('b')), '*', op(var('c'), '-', var('d'))), '/', num(2)))
    );
    assert_eq!(parse("12*x+345"), Ok(op(op(num(12), '*', var('x')), '+', num(345))));
}

#[test]
fn parse_whitespace_idempotent() {
    let spaced = parse(" a + ( x * 3 ) ");
    assert_eq!(spaced, parse("a+(x*3)"));
    assert_eq!(spaced, Ok(op(var('a'), '+', op(var('x'), '*', num(3)))));
}

#[test]
fn parse_empty_input_fails() {
    assert_eq!(parse(""), Err(ParseError::MalformedExpression));
    assert_eq!(parse("   "), Err(ParseError::MalformedExpression));
}

#[test]
fn parse_dangling_operator_fails() {
    assert_eq!(parse("a +"), Err(ParseError::MalformedExpression));
    assert_eq!(parse("a + * b"), Err(ParseError::MalformedExpression));
    assert_eq!(parse("++a"), Err(ParseError::MalformedExpression));
}

#[test]
fn parse_unmatched_brackets_fail() {
    assert_eq!(parse("(a + b"), Err(ParseError::UnmatchedBracket));
    assert_eq!(parse("a + b)"), Err(ParseError::UnmatchedBracket));
    assert_eq!(parse(")"), Err(ParseError::UnmatchedBracket));
    assert_eq!(parse("(a +"), Err(ParseError::UnmatchedBracket));
}

#[test]
fn parse_adjacent_atoms_fail() {
    assert_eq!(parse("a b"), Err(ParseError::MalformedExpression));
    assert_eq!(parse("123abc"), Err(ParseError::MalformedExpression));
    assert_eq!(parse("()"), Err(ParseError::MalformedExpression));
}

#[test]
fn parse_invalid_symbols_fail() {
    assert_eq!(parse("a! + b"), Err(ParseError::InvalidSymbol('!')));
    assert_eq!(parse("@"), Err(ParseError::InvalidSymbol('@')));
}

#[test]
fn parse_tokens_builds_tree() {
    let tokens = vec![
        Token::Number(1),
        Token::Operator('+'),
        Token::Number(2),
        Token::Operator('*'),
        Token::Variable('z'),
    ];
    assert_eq!(parse_tokens(&tokens), Ok(op(num(1), '+', op(num(2), '*', var('z')))));
}

#[test]
fn parse_tokens_reports_errors() {
    assert_eq!(parse_tokens(&vec![]), Err(ParseError::MalformedExpression));
    assert_eq!(parse_tokens(&vec![Token::RightBracket]), Err(ParseError::UnmatchedBracket));
    assert_eq!(
        parse_tokens(&vec![Token::Operator('-'), Token::Operator('-')]),
        Err(ParseError::MalformedExpression)
    );
}

#[test]
fn parse_nested_brackets() {
    assert_eq!(
        parse("((a + b) * c) + d"),
        Ok(op(op(op(var('a'), '+', var('b')), '*', var('c')), '+', var('d')))
    );
}

#[test]
fn parse_complex_chain() {
    let sum = op(op(var('a'), '+', var('b')), '+', op(op(var('c'), '*', var('d')), '*', var('e')));
    assert_eq!(parse("a + b + c * d * e - f / g"), Ok(op(sum, '-', op(var('f'), '/', var('g')))));
}

#[test]
fn parse_spaces_everywhere() {
    assert_eq!(parse("  a  +  (  x  *  3  )  "), parse("a+(x*3)"));
    assert_eq!(parse("a\t*\nb"), parse("a*b"));
}

#[test]
fn parse_trailing_operator_fails() {
    assert_eq!(parse("a + b +"), Err(ParseError::MalformedExpression));
}

#[test]
fn parse_whitespace_inside_number_splits_it() {
    assert_eq!(parse("12"), Ok(num(12)));
    assert_eq!(parse("1 2"), Err(ParseError::MalformedExpression));
}
