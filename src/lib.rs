//! A small arithmetic expression evaluator: a tokenizer and a recursive-descent
//! parser for `+ - * /` over unsigned decimal literals, with the input rules of
//! an on-screen calculator keypad.
//!
//! Parsing yields an expression tree whose literals keep their decimal text;
//! its numeric value is left to the caller's floating-point arithmetic.
pub mod error;
pub mod keypad;
pub mod laws;
pub mod parser;
pub mod token;
