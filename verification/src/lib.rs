//! Front end of a small programming-language toolchain: a hand-written
//! tokenizer and an operator-precedence (Pratt) parser that turn source text
//! into an abstract syntax tree, together with the canonical string rendering
//! of that tree.

pub mod ast;
pub mod lexer;
pub mod parser;
pub mod token;
