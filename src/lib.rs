//! A small interpreter for a Scheme-like Lisp dialect: lexer, reader,
//! evaluator and primitives, each with its behaviour stated as a contract.

pub mod exception;
pub mod text;
pub mod ast;
pub mod parser;
pub mod semantics;
pub mod runtime;
pub mod primitives;
pub mod session;
pub mod laws;
pub mod round_trip;
