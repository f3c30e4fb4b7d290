//! A small SQL-like database engine: lexer, parser, type checker,
//! expression evaluator and statement executor, with their contracts.

pub mod span;
pub mod text;
pub mod token;
pub mod expr;
pub mod statement;
pub mod float;
pub mod lexer;
pub mod parser;
pub mod error;
pub mod database;
pub mod evaluation;
pub mod executor;
pub mod laws;
pub mod sql_laws;
pub mod messages;
pub mod repl;
