//! An S-expression front end (lexer and recursive-descent parser) and a
//! small polynomial differentiator, with their behaviour stated in contracts.

pub mod lexer;
pub mod parser;
pub mod polynomial;
pub mod text;

pub use lexer::{tokenize, LexError, Token};
pub use parser::{parse_lisp, parse_tokens, ParseError, AST, MAX_DEPTH};
pub use polynomial::{
    differentiate, is_non_zero_term, power_rule, Polynomial, PolynomialParseError, Term,
    TermParseError,
};
