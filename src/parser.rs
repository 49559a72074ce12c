//! The recursive-descent parser: an additive level over a multiplicative level
//! over numeric literals, each operator level associating to the left.
use vstd::prelude::*;

use crate::error::{Context, EvalError, SpecError};
use crate::token::{
    is_digit, is_number_char, operator_char, push_char, tokenize, tokenize_spec, tokens_view,
    Operator, SpecToken, Token,
};

verus! {

/// A parsed expression. A literal keeps its text, which is a decimal number.
#[derive(Debug, PartialEq, Eq)]
pub enum Expr {
    Number(String),
    Binary(Operator, Box<Expr>, Box<Expr>),
}

/// The model of an [`Expr`].
pub enum SpecExpr {
    Number(Seq<char>),
    Binary(Operator, Box<SpecExpr>, Box<SpecExpr>),
}

/// The model of an [`Expr`], node by node.
pub open spec fn expr_view(e: Expr) -> SpecExpr
    decreases e,
{
    match e {
        Expr::Number(s) => SpecExpr::Number(s@),
        Expr::Binary(op, l, r) => SpecExpr::Binary(op, Box::new(expr_view(*l)), Box::new(expr_view(*r))),
    }
}

impl View for Expr {
    type V = SpecExpr;

    open spec fn view(&self) -> SpecExpr {
        expr_view(*self)
    }
}

/// A decimal number: digits with at most one `.`, and at least one digit.
pub open spec fn is_number_literal(s: Seq<char>) -> bool {
    &&& forall|i: int| 0 <= i < s.len() ==> is_number_char(#[trigger] s[i])
    &&& forall|i: int, j: int| 0 <= i < j < s.len() && s[i] == '.' ==> s[j] != '.'
    &&& exists|i: int| 0 <= i < s.len() && is_digit(#[trigger] s[i])
}

/// A literal whose every digit is `0`: its value is exactly zero.
pub open spec fn is_zero_literal(s: Seq<char>) -> bool {
    forall|i: int| 0 <= i < s.len() && is_digit(#[trigger] s[i]) ==> s[i] == '0'
}

/// What a parse at some level gives: the expression and the position after it.
pub type SpecParse = Result<(SpecExpr, int), SpecError>;

/// The model of what an executable parse function returns.
pub open spec fn parse_view(r: Result<(Expr, usize), EvalError>) -> SpecParse {
    match r {
        Ok((e, p)) => Ok((e@, p as int)),
        Err(e) => Err(e@),
    }
}

/// A factor at `pos`: a token that is a decimal number.
pub open spec fn factor_spec(t: Seq<SpecToken>, pos: int) -> SpecParse {
    if pos < 0 || pos >= t.len() {
        Err(SpecError::UnexpectedEndOfInput(Context::Factor))
    } else {
        match t[pos] {
            SpecToken::Number(s) => if is_number_literal(s) {
                Ok((SpecExpr::Number(s), pos + 1))
            } else {
                Err(SpecError::InvalidNumber(s))
            },
            SpecToken::Operator(op) => Err(SpecError::InvalidNumber(seq![operator_char(op)])),
        }
    }
}

/// The multiplicative operator at `pos`, if there is one.
pub open spec fn multiplicative_at(t: Seq<SpecToken>, pos: int) -> Option<Operator> {
    if 0 <= pos < t.len() {
        match t[pos] {
            SpecToken::Operator(op) => if op == Operator::Multiply || op == Operator::Divide {
                Some(op)
            } else {
                None
            },
            _ => None,
        }
    } else {
        None
    }
}

/// The additive operator at `pos`, if there is one.
pub open spec fn additive_at(t: Seq<SpecToken>, pos: int) -> Option<Operator> {
    if 0 <= pos < t.len() {
        match t[pos] {
            SpecToken::Operator(op) => if op == Operator::Add || op == Operator::Subtract {
                Some(op)
            } else {
                None
            },
            _ => None,
        }
    } else {
        None
    }
}

/// The rest of a term, with `left` parsed so far: each `*` or `/` and the factor
/// after it fold into `left`; a divisor that is zero fails.
pub open spec fn term_rest(t: Seq<SpecToken>, left: SpecExpr, pos: int) -> SpecParse
    decreases t.len() - pos,
{
    if multiplicative_at(t, pos) is Some {
        let op = multiplicative_at(t, pos)->0;
        match factor_spec(t, pos + 1) {
            Err(e) => Err(e),
            Ok((right, next)) => if op == Operator::Divide && is_zero_literal(
                right->Number_0,
            ) {
                Err(SpecError::DivisionByZero)
            } else {
                term_rest(t, SpecExpr::Binary(op, Box::new(left), Box::new(right)), next)
            },
        }
    } else {
        Ok((left, pos))
    }
}

/// A term at `pos`: factors joined by `*` and `/`.
pub open spec fn term_spec(t: Seq<SpecToken>, pos: int) -> SpecParse {
    if pos < 0 || pos >= t.len() {
        Err(SpecError::UnexpectedEndOfInput(Context::Term))
    } else {
        match factor_spec(t, pos) {
            Err(e) => Err(e),
            Ok((left, next)) => term_rest(t, left, next),
        }
    }
}

/// The rest of an expression, with `left` parsed so far: each `+` or `-` and the
/// term after it fold into `left`.
pub open spec fn expression_rest(t: Seq<SpecToken>, left: SpecExpr, pos: int) -> SpecParse
    decreases t.len() - pos,
{
    if additive_at(t, pos) is Some {
        let op = additive_at(t, pos)->0;
        proof {
            lemma_term_advances(t, pos + 1);
        }
        match term_spec(t, pos + 1) {
            Err(e) => Err(e),
            Ok((right, next)) => expression_rest(
                t,
                SpecExpr::Binary(op, Box::new(left), Box::new(right)),
                next,
            ),
        }
    } else {
        Ok((left, pos))
    }
}

/// A term that parses ends after the token where it began.
pub proof fn lemma_term_advances(t: Seq<SpecToken>, pos: int)
    ensures
        term_spec(t, pos) is Ok ==> pos < term_spec(t, pos)->Ok_0.1 <= t.len(),
{
    if 0 <= pos < t.len() {
        if let Ok((left, next)) = factor_spec(t, pos) {
            lemma_term_rest_advances(t, left, next);
        }
    }
}

/// The rest of a term never moves back.
pub proof fn lemma_term_rest_advances(t: Seq<SpecToken>, left: SpecExpr, pos: int)
    requires
        pos <= t.len(),
    ensures
        term_rest(t, left, pos) is Ok ==> pos <= term_rest(t, left, pos)->Ok_0.1 <= t.len(),
    decreases t.len() - pos,
{
    if multiplicative_at(t, pos) is Some {
        let op = multiplicative_at(t, pos)->0;
        if let Ok((right, next)) = factor_spec(t, pos + 1) {
            if !(op == Operator::Divide && is_zero_literal(right->Number_0)) {
                lemma_term_rest_advances(
                    t,
                    SpecExpr::Binary(op, Box::new(left), Box::new(right)),
                    next,
                );
            }
        }
    }
}

/// An expression at `pos`: terms joined by `+` and `-`.
pub open spec fn expression_spec(t: Seq<SpecToken>, pos: int) -> SpecParse {
    if pos < 0 || pos >= t.len() {
        Err(SpecError::UnexpectedEndOfInput(Context::Expression))
    } else {
        match term_spec(t, pos) {
            Err(e) => Err(e),
            Ok((left, next)) => expression_rest(t, left, next),
        }
    }
}

/// What evaluating the text `s` parses to: its tokens, read as one expression
/// from the first token; tokens after that expression are not read.
pub open spec fn parse_spec(s: Seq<char>) -> Result<SpecExpr, SpecError> {
    match tokenize_spec(s) {
        Err(e) => Err(e),
        Ok(t) => match expression_spec(t, 0) {
            Ok((e, _)) => Ok(e),
            Err(e) => Err(e),
        },
    }
}

/// Whether `s` is a decimal number: digits with at most one `.`, and a digit.
pub fn is_number_text(s: &str) -> (r: bool)
    ensures
        r == is_number_literal(s@),
{
    let mut dot = false;
    let ghost mut dot_at: int = 0;
    let mut digit = false;
    for c in it: s.chars()
        invariant
            it.seq() == s@,
            forall|k: int| 0 <= k < it.index() ==> is_number_char(#[trigger] s@[k]),
            dot ==> 0 <= dot_at < it.index() && s@[dot_at] == '.',
            forall|k: int| 0 <= k < it.index() && (!dot || k != dot_at) ==> #[trigger] s@[k] != '.',
            digit == exists|k: int| 0 <= k < it.index() && is_digit(#[trigger] s@[k]),
    {
        if '0' <= c && c <= '9' {
            digit = true;
        } else if c == '.' {
            if dot {
                assert(!is_number_literal(s@)) by {
                    assert(s@[dot_at] == '.' && s@[it.index() as int] == '.');
                }
                return false;
            }
            dot = true;
            proof {
                dot_at = it.index() as int;
            }
        } else {
            return false;
        }
    }
    digit
}

/// Whether every digit of `s` is `0`.
pub fn is_zero_text(s: &str) -> (r: bool)
    ensures
        r == is_zero_literal(s@),
{
    for c in it: s.chars()
        invariant
            it.seq() == s@,
            forall|k: int| 0 <= k < it.index() && is_digit(#[trigger] s@[k]) ==> s@[k] == '0',
    {
        if '1' <= c && c <= '9' {
            return false;
        }
    }
    true
}

/// Parses a factor at `pos`: the token there must be a decimal number.
pub fn parse_factor(tokens: &[Token], pos: usize) -> (r: Result<(Expr, usize), EvalError>)
    ensures
        parse_view(r) == factor_spec(tokens_view(tokens@), pos as int),
{
    if pos >= tokens.len() {
        return Err(EvalError::UnexpectedEndOfInput(Context::Factor));
    }
    match &tokens[pos] {
        Token::Number(s) => {
            if is_number_text(s.as_str()) {
                Ok((Expr::Number(s.clone()), pos + 1))
            } else {
                Err(EvalError::InvalidNumber(s.clone()))
            }
        },
        Token::Operator(op) => {
            let mut text = String::new();
            push_char(&mut text, op.symbol());
            assert(text@ =~= seq![operator_char(*op)]);
            Err(EvalError::InvalidNumber(text))
        },
    }
}

/// Parses a term at `pos`: factors joined by `*` and `/`, folded left to right.
/// A divisor that is exactly zero fails with [`EvalError::DivisionByZero`].
pub fn parse_term(tokens: &[Token], pos: usize) -> (r: Result<(Expr, usize), EvalError>)
    ensures
        parse_view(r) == term_spec(tokens_view(tokens@), pos as int),
{
    let ghost t = tokens_view(tokens@);
    if pos >= tokens.len() {
        return Err(EvalError::UnexpectedEndOfInput(Context::Term));
    }
    let (mut left, mut current) = match parse_factor(tokens, pos) {
        Ok(p) => p,
        Err(e) => return Err(e),
    };
    while current < tokens.len()
        invariant
            t == tokens_view(tokens@),
            term_spec(t, pos as int) == term_rest(t, left@, current as int),
        decreases tokens.len() - current,
    {
        let op = match &tokens[current] {
            Token::Operator(op) => {
                if op.is_multiplicative() {
                    *op
                } else {
                    return Ok((left, current));
                }
            },
            Token::Number(_) => return Ok((left, current)),
        };
        let (right, next) = match parse_factor(tokens, current + 1) {
            Ok(p) => p,
            Err(e) => return Err(e),
        };
        if op == Operator::Divide {
            let zero = match &right {
                Expr::Number(s) => is_zero_text(s.as_str()),
                Expr::Binary(..) => false,
            };
            if zero {
                return Err(EvalError::DivisionByZero);
            }
        }
        left = Expr::Binary(op, Box::new(left), Box::new(right));
        current = next;
    }
    Ok((left, current))
}

/// Parses an expression at `pos`: terms joined by `+` and `-`, folded left to
/// right. Parsing stops before the first token that continues neither level.
pub fn parse_expression(tokens: &[Token], pos: usize) -> (r: Result<(Expr, usize), EvalError>)
    ensures
        parse_view(r) == expression_spec(tokens_view(tokens@), pos as int),
{
    let ghost t = tokens_view(tokens@);
    if pos >= tokens.len() {
        return Err(EvalError::UnexpectedEndOfInput(Context::Expression));
    }
    let (mut left, mut current) = match parse_term(tokens, pos) {
        Ok(p) => p,
        Err(e) => return Err(e),
    };
    while current < tokens.len()
        invariant
            t == tokens_view(tokens@),
            expression_spec(t, pos as int) == expression_rest(t, left@, current as int),
        decreases tokens.len() - current,
    {
        let op = match &tokens[current] {
            Token::Operator(op) => {
                if op.is_multiplicative() {
                    return Ok((left, current));
                }
                *op
            },
            Token::Number(_) => return Ok((left, current)),
        };
        proof {
            lemma_term_advances(t, current + 1);
        }
        let (right, next) = match parse_term(tokens, current + 1) {
            Ok(p) => p,
            Err(e) => return Err(e),
        };
        left = Expr::Binary(op, Box::new(left), Box::new(right));
        current = next;
    }
    Ok((left, current))
}

/// Tokenizes `expression` and parses its tokens as one expression. Tokens after
/// a complete expression are not read.
pub fn parse(expression: &str) -> (r: Result<Expr, EvalError>)
    ensures
        match r {
            Ok(e) => parse_spec(expression@) == Ok::<SpecExpr, SpecError>(e@),
            Err(e) => parse_spec(expression@) == Err::<SpecExpr, SpecError>(e@),
        },
{
    let tokens = match tokenize(expression) {
        Ok(t) => t,
        Err(e) => return Err(e),
    };
    match parse_expression(tokens.as_slice(), 0) {
        Ok((e, _)) => Ok(e),
        Err(e) => Err(e),
    }
}

} // verus!
