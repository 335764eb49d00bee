//! Front end for a small expression/statement scripting language: a lexer
//! that turns source text into a position-tracked token stream, and a
//! precedence-climbing parser that turns the token stream into an abstract
//! syntax tree.

#![allow(non_snake_case)]

pub mod ast;
pub mod laws;
pub mod lexer;
pub mod parser;
pub mod precedences;
pub mod token;
