//! The input rules of the calculator keypad: what each key press does to the
//! expression being typed.
use vstd::prelude::*;

use crate::error::{EvalError, SpecError};
use crate::parser::{parse, parse_spec, Expr, SpecExpr};
use crate::token::{operator_char, operator_of, push_char, Operator};

verus! {

/// The expression typed so far.
pub struct Calculator {
    expression: String,
}

/// The character of a decimal digit.
pub open spec fn digit_char(digit: u8) -> char {
    (48 + digit) as char
}

/// Whether a press of `op` extends the text `s`: on empty text only `-` does;
/// otherwise any operator does, but only after a character that is not an
/// operator, so that no two operators stand side by side.
pub open spec fn accepts_operator(s: Seq<char>, op: Operator) -> bool {
    if s.len() == 0 {
        op == Operator::Subtract
    } else {
        operator_of(s.last()) is None
    }
}

impl View for Calculator {
    type V = Seq<char>;

    closed spec fn view(&self) -> Seq<char> {
        self.expression@
    }
}

impl Calculator {
    /// A calculator with nothing typed.
    pub fn new() -> (r: Calculator)
        ensures
            r@ == Seq::<char>::empty(),
    {
        Calculator { expression: String::new() }
    }

    /// The expression typed so far.
    pub fn expression(&self) -> (r: &str)
        ensures
            r@ == self@,
    {
        self.expression.as_str()
    }

    /// A press of a digit key appends the digit.
    pub fn push_digit(&mut self, digit: u8)
        requires
            digit < 10,
        ensures
            final(self)@ == old(self)@.push(digit_char(digit)),
    {
        push_char(&mut self.expression, (48 + digit) as char);
    }

    /// A press of an operator key appends the operator where the rules accept it
    /// (see [`accepts_operator`]) and otherwise leaves the text as it is. Returns
    /// whether the text changed.
    pub fn push_operator(&mut self, op: Operator) -> (accepted: bool)
        ensures
            accepted == accepts_operator(old(self)@, op),
            final(self)@ == if accepted {
                old(self)@.push(operator_char(op))
            } else {
                old(self)@
            },
    {
        let text = self.expression.as_str();
        let n = text.unicode_len();
        let accepted = if n == 0 {
            op == Operator::Subtract
        } else {
            Operator::from_char(text.get_char(n - 1)).is_none()
        };
        if accepted {
            push_char(&mut self.expression, op.symbol());
        }
        accepted
    }

    /// A press of the equals key: nothing when no text has been typed, else the
    /// parse of the text.
    pub fn evaluate(&self) -> (r: Option<Result<Expr, EvalError>>)
        ensures
            match r {
                None => self@.len() == 0,
                Some(Ok(e)) => self@.len() > 0 && parse_spec(self@) == Ok::<SpecExpr, SpecError>(e@),
                Some(Err(e)) => self@.len() > 0 && parse_spec(self@) == Err::<SpecExpr, SpecError>(e@),
            },
    {
        let text = self.expression.as_str();
        if text.is_empty() {
            None
        } else {
            Some(parse(text))
        }
    }
}

} // verus!
