//! A small imperative scripting language: a lexer, a precedence-climbing
//! parser, the syntax tree they produce, and a tree-walking interpreter.
//!
//! Every executable function carries a contract that ties it to a
//! mathematical model, and Verus proves the contracts:
//!
//! - [`lexer`] turns characters into tokens, as [`lexer::tokenize`] says;
//! - [`parser`] turns tokens into function definitions, as
//!   [`grammar::parse_program`] says;
//! - [`interpreter`] runs the function `main`, as [`semantics::run`] says.
//!
//! [`spelling`], [`notation`] and [`laws`] state and prove what holds of
//! these models for every input: that the lexer reads back what was
//! spelled and the parser what was written, how operators group, the
//! discipline of declarations, the rule of truth values, and that fuel
//! only ever cuts a run short.
//!
//! The library neither reads nor writes: a run takes the lines of input as
//! a vector and returns the printed values in one.

pub mod ast;
pub mod environment;
pub mod grammar;
pub mod interpreter;
pub mod laws;
pub mod lexer;
pub mod notation;
pub mod parser;
pub mod semantics;
pub mod spelling;
