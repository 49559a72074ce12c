//! Errors of evaluation and their mathematical model.
use vstd::prelude::*;

verus! {

/// The grammar level that ran out of tokens.
#[derive(Clone, Copy, Debug, PartialEq, Eq, Structural)]
pub enum Context {
    Expression,
    Term,
    Factor,
}

/// Why an expression could not be evaluated.
#[derive(Clone, Debug, PartialEq, Eq)]
pub enum EvalError {
    /// A character that is neither a digit, `.`, an operator nor whitespace.
    InvalidCharacter(char),
    /// A token that stands where a number is expected but is not a decimal number.
    InvalidNumber(String),
    /// A divisor that is exactly zero.
    DivisionByZero,
    /// The token sequence ended where the given grammar level needed a token.
    UnexpectedEndOfInput(Context),
}

/// The model of an [`EvalError`]: texts as character sequences.
pub enum SpecError {
    InvalidCharacter(char),
    InvalidNumber(Seq<char>),
    DivisionByZero,
    UnexpectedEndOfInput(Context),
}

impl View for EvalError {
    type V = SpecError;

    open spec fn view(&self) -> SpecError {
        match self {
            EvalError::InvalidCharacter(c) => SpecError::InvalidCharacter(*c),
            EvalError::InvalidNumber(s) => SpecError::InvalidNumber(s@),
            EvalError::DivisionByZero => SpecError::DivisionByZero,
            EvalError::UnexpectedEndOfInput(ctx) => SpecError::UnexpectedEndOfInput(*ctx),
        }
    }
}

} // verus!
