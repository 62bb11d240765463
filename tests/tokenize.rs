use infix_parser::{numerals_in_range, tokenize, ParseError, Token};

#[test]
fn tokenize_numbers_and_operators() {
    assert_eq!(
        tokenize("1 + 2"),
        Ok(vec![Token::Number(1), Token::Operator('+'), Token::Number(2)])
    );
}

#[test]
fn tokenize_variables() {
    assert_eq!(
        tokenize("x * y"),
        Ok(vec![Token::Variable('x'), Token::Operator('*'), Token::Variable('y')])
    );
}

#[test]
fn tokenize_brackets() {
    assert_eq!(
        tokenize("(a + b) * c"),
        Ok(vec![
            Token::LeftBracket,
            Token::Variable('a'),
            Token::Operator('+'),
            Token::Variable('b'),
            Token::RightBracket,
            Token::Operator('*'),
            Token::Variable('c'),
        ])
    );
}

#[test]
fn tokenize_digit_run_then_letters() {
    assert_eq!(
        tokenize("123abc"),
        Ok(vec![
            Token::Number(123),
            Token::Variable('a'),
            Token::Variable('b'),
            Token::Variable('c'),
        ])
    );
}

#[test]
fn tokenize_all_operators() {
    assert_eq!(
        tokenize("+-*/"),
        Ok(vec![
            Token::Operator('+'),
            Token::Operator('-'),
            Token::Operator('*'),
            Token::Operator('/'),
        ])
    );
}

#[test]
fn tokenize_largest_number() {
    assert_eq!(tokenize("2147483647"), Ok(vec![Token::Number(i32::MAX)]));
    assert_eq!(tokenize("007"), Ok(vec![Token::Number(7)]));
}

#[test]
fn tokenize_skips_all_whitespace() {
    assert_eq!(
        tokenize("\ta\n+\r 1\u{A0}"),
        Ok(vec![Token::Variable('a'), Token::Operator('+'), Token::Number(1)])
    );
    assert_eq!(tokenize(""), Ok(vec![]));
    assert_eq!(tokenize("   "), Ok(vec![]));
}

#[test]
fn tokenize_whitespace_splits_numbers() {
    assert_eq!(tokenize("1 2"), Ok(vec![Token::Number(1), Token::Number(2)]));
}

#[test]
fn tokenize_invalid_symbol() {
    assert_eq!(tokenize("a! + b"), Err(ParseError::InvalidSymbol('!')));
    assert_eq!(tokenize("@"), Err(ParseError::InvalidSymbol('@')));
    assert_eq!(tokenize("1 + #"), Err(ParseError::InvalidSymbol('#')));
}

#[test]
fn tokenize_first_invalid_symbol_wins() {
    assert_eq!(tokenize("a $ b %"), Err(ParseError::InvalidSymbol('$')));
}

#[test]
fn tokenize_letters_are_ascii_only() {
    assert_eq!(tokenize("é"), Err(ParseError::InvalidSymbol('é')));
    assert_eq!(tokenize("1.5"), Err(ParseError::InvalidSymbol('.')));
}

#[test]
fn numerals_in_range_accepts_fitting_numbers() {
    assert!(numerals_in_range("2147483647"));
    assert!(numerals_in_range("12 + x * 0042"));
    assert!(numerals_in_range("abc"));
    assert!(numerals_in_range(""));
    assert!(numerals_in_range("a! 7"));
}

#[test]
fn numerals_in_range_rejects_overflowing_numbers() {
    assert!(!numerals_in_range("2147483648"));
    assert!(!numerals_in_range("1 + 99999999999"));
    assert!(!numerals_in_range("x21474836470"));
}
