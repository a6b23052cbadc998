//! A small calculator core: a tokenizer, a right-associative
//! precedence-climbing parser, and an evaluator over exact unsigned integers
//! and floating-point terms, with named variable bindings.
pub mod diagnostic;
pub mod environment;
pub mod expression;
pub mod laws;
pub mod lexer;
pub mod parser;
pub mod syntax;
pub mod token;
