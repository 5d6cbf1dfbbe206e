//! A tree-walking interpreter front end for a small dynamically typed
//! expression/statement language: lexical scanning, recursive-descent parsing
//! into an abstract syntax tree, and direct evaluation of that tree against a
//! mutable variable environment.

pub mod error;
pub mod expression;
pub mod interpreter;
pub mod lexer;
pub mod number;
pub mod parser;
pub mod printer;
pub mod statement;
pub mod token;

pub use error::{Error, ParserErrorReporter};
pub use expression::{BinaryExpression, Expression, LiteralExpression, UnaryExpression};
pub use interpreter::{
    interpret_lox, interpret_lox_with_state, interpret_program, Environment, RuntimeError, Value,
};
pub use lexer::{LexerError, Scanner};
pub use parser::{Parser, ParserError};
pub use statement::Statement;
pub use token::{Position, Token, TokenWithPosition};
