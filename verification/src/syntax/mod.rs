//! Surface syntax: the term language and its parser.

pub mod ast;
pub mod lexer;
pub mod parser;

pub use ast::Term;
pub use parser::parse;
