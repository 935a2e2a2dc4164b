//! A tokenizer, recursive-descent parser, symbol table and tree-walking
//! evaluator for a small indentation-sensitive expression language.
pub mod number;
pub mod lexer;
pub mod parser;
pub mod environment;
pub mod interpreter;
pub mod source;
pub mod layout;
pub mod spelling;
