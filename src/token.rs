//! Tokens and the tokenizer.
use vstd::prelude::*;

use crate::error::{EvalError, SpecError};

verus! {

/// One of the four binary operators.
#[derive(Clone, Copy, Debug, PartialEq, Eq, Structural)]
pub enum Operator {
    Add,
    Subtract,
    Multiply,
    Divide,
}

/// The character that writes an operator.
pub open spec fn operator_char(op: Operator) -> char {
    match op {
        Operator::Add => '+',
        Operator::Subtract => '-',
        Operator::Multiply => '*',
        Operator::Divide => '/',
    }
}

/// The operator that a character writes, if any.
pub open spec fn operator_of(c: char) -> Option<Operator> {
    if c == '+' {
        Some(Operator::Add)
    } else if c == '-' {
        Some(Operator::Subtract)
    } else if c == '*' {
        Some(Operator::Multiply)
    } else if c == '/' {
        Some(Operator::Divide)
    } else {
        None
    }
}

impl Operator {
    /// The character that writes this operator.
    pub fn symbol(self) -> (r: char)
        ensures
            r == operator_char(self),
    {
        match self {
            Operator::Add => '+',
            Operator::Subtract => '-',
            Operator::Multiply => '*',
            Operator::Divide => '/',
        }
    }

    /// The operator that `c` writes, if any.
    pub fn from_char(c: char) -> (r: Option<Operator>)
        ensures
            r == operator_of(c),
    {
        if c == '+' {
            Some(Operator::Add)
        } else if c == '-' {
            Some(Operator::Subtract)
        } else if c == '*' {
            Some(Operator::Multiply)
        } else if c == '/' {
            Some(Operator::Divide)
        } else {
            None
        }
    }

    /// `*` and `/`, the operators of the term level.
    pub fn is_multiplicative(self) -> (r: bool)
        ensures
            r == (self == Operator::Multiply || self == Operator::Divide),
    {
        match self {
            Operator::Multiply | Operator::Divide => true,
            _ => false,
        }
    }
}

/// A decimal digit `0`-`9`.
pub open spec fn is_digit(c: char) -> bool {
    '0' <= c && c <= '9'
}

/// A character that may stand in a numeric literal: a digit or `.`.
pub open spec fn is_number_char(c: char) -> bool {
    is_digit(c) || c == '.'
}

/// The characters with the Unicode `White_Space` property.
pub open spec fn is_white_space(c: char) -> bool {
    let u = c as u32;
    (0x09 <= u && u <= 0x0d) || u == 0x20 || u == 0x85 || u == 0xa0 || u == 0x1680 || (0x2000 <= u
        && u <= 0x200a) || u == 0x2028 || u == 0x2029 || u == 0x202f || u == 0x205f || u == 0x3000
}

/// Whether `c` is whitespace, in the sense of Unicode's `White_Space` property.
pub fn is_whitespace(c: char) -> (r: bool)
    ensures
        r == is_white_space(c),
{
    let u = c as u32;
    (0x09 <= u && u <= 0x0d) || u == 0x20 || u == 0x85 || u == 0xa0 || u == 0x1680 || (0x2000 <= u
        && u <= 0x200a) || u == 0x2028 || u == 0x2029 || u == 0x202f || u == 0x205f || u == 0x3000
}

/// A token: a numeric literal as written, or an operator.
#[derive(Clone, Debug, PartialEq, Eq)]
pub enum Token {
    Number(String),
    Operator(Operator),
}

/// The model of a [`Token`].
pub enum SpecToken {
    Number(Seq<char>),
    Operator(Operator),
}

impl View for Token {
    type V = SpecToken;

    open spec fn view(&self) -> SpecToken {
        match self {
            Token::Number(s) => SpecToken::Number(s@),
            Token::Operator(op) => SpecToken::Operator(*op),
        }
    }
}

/// The models of a sequence of tokens.
pub open spec fn tokens_view(t: Seq<Token>) -> Seq<SpecToken> {
    t.map_values(|x: Token| x@)
}

/// `acc` with the pending literal `buf` appended as a token, if `buf` is not empty.
pub open spec fn flush(acc: Seq<SpecToken>, buf: Seq<char>) -> Seq<SpecToken> {
    if buf.len() == 0 {
        acc
    } else {
        acc.push(SpecToken::Number(buf))
    }
}

/// Tokenizing `s` from index `i`, with the tokens `acc` already emitted and the
/// literal `buf` pending: digits and `.` extend the pending literal, an operator
/// ends it and stands as a token of its own, whitespace is skipped (without ending
/// the literal), and any other character is refused.
pub open spec fn tokenize_from(s: Seq<char>, i: int, buf: Seq<char>, acc: Seq<SpecToken>) -> Result<
    Seq<SpecToken>,
    SpecError,
>
    decreases s.len() - i,
{
    if i < 0 || i >= s.len() {
        Ok(flush(acc, buf))
    } else {
        let c = s[i];
        if is_number_char(c) {
            tokenize_from(s, i + 1, buf.push(c), acc)
        } else if operator_of(c) is Some {
            tokenize_from(
                s,
                i + 1,
                Seq::empty(),
                flush(acc, buf).push(SpecToken::Operator(operator_of(c)->0)),
            )
        } else if is_white_space(c) {
            tokenize_from(s, i + 1, buf, acc)
        } else {
            Err(SpecError::InvalidCharacter(c))
        }
    }
}

/// The tokens of `s`, or the first character that no token may hold.
pub open spec fn tokenize_spec(s: Seq<char>) -> Result<Seq<SpecToken>, SpecError> {
    tokenize_from(s, 0, Seq::empty(), Seq::empty())
}

/// Relies on `String::push`: appends one character.
#[verifier::external_body]
pub(crate) fn push_char(s: &mut String, c: char)
    ensures
        final(s)@ == old(s)@.push(c),
{
    s.push(c)
}

/// Splits `expression` into tokens, left to right.
pub fn tokenize(expression: &str) -> (r: Result<Vec<Token>, EvalError>)
    ensures
        match r {
            Ok(t) => tokenize_spec(expression@) == Ok::<Seq<SpecToken>, SpecError>(tokens_view(t@)),
            Err(e) => tokenize_spec(expression@) == Err::<Seq<SpecToken>, SpecError>(e@),
        },
{
    let mut tokens: Vec<Token> = Vec::new();
    let mut buffer = String::new();
    assert(tokens_view(tokens@) =~= Seq::<SpecToken>::empty());
    for c in it: expression.chars()
        invariant
            it.seq() == expression@,
            tokenize_spec(expression@) == tokenize_from(
                expression@,
                it.index() as int,
                buffer@,
                tokens_view(tokens@),
            ),
    {
        if ('0' <= c && c <= '9') || c == '.' {
            push_char(&mut buffer, c);
        } else if let Some(op) = Operator::from_char(c) {
            if !buffer.as_str().is_empty() {
                let ghost before = tokens@;
                tokens.push(Token::Number(buffer));
                assert(tokens_view(tokens@) =~= tokens_view(before).push(SpecToken::Number(buffer@)));
                buffer = String::new();
            }
            let ghost before = tokens@;
            tokens.push(Token::Operator(op));
            assert(tokens_view(tokens@) =~= tokens_view(before).push(SpecToken::Operator(op)));
            assert(buffer@ =~= Seq::<char>::empty());
        } else if !is_whitespace(c) {
            return Err(EvalError::InvalidCharacter(c));
        }
    }
    if !buffer.as_str().is_empty() {
        let ghost before = tokens@;
        tokens.push(Token::Number(buffer));
        assert(tokens_view(tokens@) =~= tokens_view(before).push(SpecToken::Number(buffer@)));
    }
    Ok(tokens)
}

} // verus!
