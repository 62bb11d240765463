//! Infix arithmetic expressions: a tokenizer and a shunting-yard parser that
//! builds a binary expression tree.
pub mod arith;
pub mod syntax;
pub mod tokenizer;
pub mod parser;
pub mod grouping;
pub mod spacing;

pub use arith::add;
pub use syntax::{Expression, ParseError, Token};
pub use tokenizer::{numerals_in_range, tokenize};
pub use parser::{parse, parse_tokens};
