pub mod ast;
pub mod grammar;
pub mod parser;
pub mod semantic_checker;
pub mod lexer;
