//! Scanner and recursive-descent parser for the expression language.

pub mod error;
pub mod token;
pub mod scanner;
pub mod expression;
pub mod parser;
pub mod lox;
