//! Front end of a small expression-oriented language: a tokenizer and a
//! recursive-descent parser that builds an abstract syntax tree for function
//! definitions, external declarations and bare expressions, with
//! precedence-climbing for binary operators, local constant folding and
//! line-tracked error recovery.
//!
//! - [`numeral`]: exact decimal numbers, the values of numeric literals and
//!   of folded constants.
//! - [`lexer`]: the tokenizer, proved to implement the spec function
//!   `lexer::scan`.
//! - [`ast`]: the tree the parser builds, and its ghost models.
//! - [`parser`]: recursive descent with one token of lookahead, proved to
//!   implement the spec functions `parser::sp_run` and company.

pub mod ast;
pub mod lexer;
pub mod numeral;
pub mod parser;
