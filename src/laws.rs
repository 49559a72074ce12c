//! General facts about evaluation, proved over the models.
use vstd::prelude::*;

use crate::error::SpecError;
use crate::parser::{
    additive_at, expression_rest, expression_spec, factor_spec, is_number_literal,
    multiplicative_at, parse_spec, term_rest, term_spec, SpecExpr,
};
use crate::token::{flush, tokenize_from, tokenize_spec, SpecToken};

verus! {

/// A decimal number alone evaluates to that number: its text parses to one literal
/// with the same text.
pub proof fn lemma_number_parses_to_itself(n: Seq<char>)
    requires
        is_number_literal(n),
    ensures
        parse_spec(n) == Ok::<SpecExpr, SpecError>(SpecExpr::Number(n)),
{
    lemma_tokenize_number(n, 0);
    assert(n.subrange(0, 0) =~= Seq::<char>::empty());
    let t = seq![SpecToken::Number(n)];
    assert(tokenize_spec(n) == Ok::<Seq<SpecToken>, SpecError>(t));
    assert(factor_spec(t, 0) == Ok::<(SpecExpr, int), SpecError>((SpecExpr::Number(n), 1)));
    assert(term_rest(t, SpecExpr::Number(n), 1) == Ok::<(SpecExpr, int), SpecError>((SpecExpr::Number(n), 1)));
    assert(expression_rest(t, SpecExpr::Number(n), 1) == Ok::<(SpecExpr, int), SpecError>((SpecExpr::Number(n), 1)));
}

proof fn lemma_tokenize_number(n: Seq<char>, i: int)
    requires
        is_number_literal(n),
        0 <= i <= n.len(),
    ensures
        tokenize_from(n, i, n.subrange(0, i), Seq::empty()) == Ok::<
            Seq<SpecToken>,
            SpecError,
        >(seq![SpecToken::Number(n)]),
    decreases n.len() - i,
{
    if i < n.len() {
        assert(n.subrange(0, i).push(n[i]) =~= n.subrange(0, i + 1));
        lemma_tokenize_number(n, i + 1);
    } else {
        assert(n.subrange(0, i) =~= n);
        assert(n.len() > 0);
        assert(Seq::<SpecToken>::empty().push(SpecToken::Number(n)) =~= seq![SpecToken::Number(n)]);
    }
}

/// Evaluation has no hidden state: the same text always parses to the same result.
pub proof fn lemma_parse_deterministic(a: Seq<char>, b: Seq<char>)
    requires
        a == b,
    ensures
        parse_spec(a) == parse_spec(b),
{
}

/// `u` is `t` followed by tokens that start with a number, if any: the parser
/// stops at the end of `t` in `u` as it does in `t`.
pub open spec fn extended_by_number(t: Seq<SpecToken>, u: Seq<SpecToken>) -> bool {
    &&& t.len() <= u.len()
    &&& u.subrange(0, t.len() as int) == t
    &&& u.len() > t.len() ==> u[t.len() as int] is Number
}

proof fn lemma_operators_agree(t: Seq<SpecToken>, u: Seq<SpecToken>, pos: int)
    requires
        extended_by_number(t, u),
        pos <= t.len(),
    ensures
        multiplicative_at(u, pos) == multiplicative_at(t, pos),
        additive_at(u, pos) == additive_at(t, pos),
{
    if 0 <= pos < t.len() {
        assert(u[pos] == u.subrange(0, t.len() as int)[pos]);
    }
}

proof fn lemma_factor_agrees(t: Seq<SpecToken>, u: Seq<SpecToken>, pos: int)
    requires
        extended_by_number(t, u),
        factor_spec(t, pos) is Ok,
    ensures
        factor_spec(u, pos) == factor_spec(t, pos),
{
    assert(u[pos] == u.subrange(0, t.len() as int)[pos]);
}

proof fn lemma_term_rest_agrees(t: Seq<SpecToken>, u: Seq<SpecToken>, left: SpecExpr, pos: int)
    requires
        extended_by_number(t, u),
        pos <= t.len(),
        term_rest(t, left, pos) is Ok,
    ensures
        term_rest(u, left, pos) == term_rest(t, left, pos),
    decreases t.len() - pos,
{
    lemma_operators_agree(t, u, pos);
    if multiplicative_at(t, pos) is Some {
        let op = multiplicative_at(t, pos)->0;
        lemma_factor_agrees(t, u, pos + 1);
        let (right, next) = factor_spec(t, pos + 1)->Ok_0;
        lemma_term_rest_agrees(t, u, SpecExpr::Binary(op, Box::new(left), Box::new(right)), next);
    }
}

proof fn lemma_term_agrees(t: Seq<SpecToken>, u: Seq<SpecToken>, pos: int)
    requires
        extended_by_number(t, u),
        term_spec(t, pos) is Ok,
    ensures
        term_spec(u, pos) == term_spec(t, pos),
{
    lemma_factor_agrees(t, u, pos);
    let (left, next) = factor_spec(t, pos)->Ok_0;
    lemma_term_rest_agrees(t, u, left, next);
}

proof fn lemma_expression_rest_agrees(
    t: Seq<SpecToken>,
    u: Seq<SpecToken>,
    left: SpecExpr,
    pos: int,
)
    requires
        extended_by_number(t, u),
        pos <= t.len(),
        expression_rest(t, left, pos) is Ok,
    ensures
        expression_rest(u, left, pos) == expression_rest(t, left, pos),
    decreases t.len() - pos,
{
    lemma_operators_agree(t, u, pos);
    if additive_at(t, pos) is Some {
        let op = additive_at(t, pos)->0;
        crate::parser::lemma_term_advances(t, pos + 1);
        lemma_term_agrees(t, u, pos + 1);
        let (right, next) = term_spec(t, pos + 1)->Ok_0;
        lemma_expression_rest_agrees(
            t,
            u,
            SpecExpr::Binary(op, Box::new(left), Box::new(right)),
            next,
        );
    }
}

/// Tokens after a complete expression are ignored: where the tokens `t` parse as
/// an expression, appending tokens that begin with a number changes nothing.
pub proof fn lemma_trailing_tokens_ignored(t: Seq<SpecToken>, rest: Seq<SpecToken>)
    requires
        expression_spec(t, 0) is Ok,
        rest.len() > 0 ==> rest[0] is Number,
    ensures
        expression_spec(t + rest, 0) == expression_spec(t, 0),
{
    let u = t + rest;
    assert(u.subrange(0, t.len() as int) =~= t);
    assert(extended_by_number(t, u));
    lemma_term_agrees(t, u, 0);
    crate::parser::lemma_term_advances(t, 0);
    let (left, next) = term_spec(t, 0)->Ok_0;
    lemma_expression_rest_agrees(t, u, left, next);
}

/// No two numeric tokens stand side by side.
pub open spec fn numbers_apart(t: Seq<SpecToken>) -> bool {
    forall|i: int| 0 <= i && i + 1 < t.len() ==> !(#[trigger] t[i] is Number && t[i + 1] is Number)
}

proof fn lemma_tokens_apart(s: Seq<char>, i: int, buf: Seq<char>, acc: Seq<SpecToken>)
    requires
        numbers_apart(acc),
        acc.len() == 0 || acc.last() is Operator,
        tokenize_from(s, i, buf, acc) is Ok,
    ensures
        numbers_apart(tokenize_from(s, i, buf, acc)->Ok_0),
    decreases s.len() - i,
{
    if i < 0 || i >= s.len() {
    } else {
        let c = s[i];
        if crate::token::is_number_char(c) {
            lemma_tokens_apart(s, i + 1, buf.push(c), acc);
        } else if crate::token::operator_of(c) is Some {
            let next = flush(acc, buf).push(SpecToken::Operator(crate::token::operator_of(c)->0));
            assert(numbers_apart(next));
            lemma_tokens_apart(s, i + 1, Seq::empty(), next);
        } else if crate::token::is_white_space(c) {
            lemma_tokens_apart(s, i + 1, buf, acc);
        }
    }
}

/// Where a term ends: after a number, and not before `*` or `/`.
pub open spec fn ends_term(t: Seq<SpecToken>, p: int) -> bool {
    &&& 1 <= p <= t.len()
    &&& t[p - 1] is Number
    &&& multiplicative_at(t, p) is None
}

proof fn lemma_term_rest_end(t: Seq<SpecToken>, left: SpecExpr, pos: int)
    requires
        1 <= pos <= t.len(),
        t[pos - 1] is Number,
        term_rest(t, left, pos) is Ok,
    ensures
        ends_term(t, term_rest(t, left, pos)->Ok_0.1),
    decreases t.len() - pos,
{
    if multiplicative_at(t, pos) is Some {
        let op = multiplicative_at(t, pos)->0;
        let (right, next) = factor_spec(t, pos + 1)->Ok_0;
        lemma_term_rest_end(t, SpecExpr::Binary(op, Box::new(left), Box::new(right)), next);
    }
}

proof fn lemma_term_end(t: Seq<SpecToken>, pos: int)
    requires
        term_spec(t, pos) is Ok,
    ensures
        ends_term(t, term_spec(t, pos)->Ok_0.1),
{
    let (left, next) = factor_spec(t, pos)->Ok_0;
    lemma_term_rest_end(t, left, next);
}

proof fn lemma_expression_rest_end(t: Seq<SpecToken>, left: SpecExpr, pos: int)
    requires
        ends_term(t, pos),
        expression_rest(t, left, pos) is Ok,
    ensures
        ends_term(t, expression_rest(t, left, pos)->Ok_0.1),
        additive_at(t, expression_rest(t, left, pos)->Ok_0.1) is None,
    decreases t.len() - pos,
{
    if additive_at(t, pos) is Some {
        let op = additive_at(t, pos)->0;
        crate::parser::lemma_term_advances(t, pos + 1);
        lemma_term_end(t, pos + 1);
        let (right, next) = term_spec(t, pos + 1)->Ok_0;
        lemma_expression_rest_end(t, SpecExpr::Binary(op, Box::new(left), Box::new(right)), next);
    }
}

/// Parsing the tokens of a text never leaves tokens unread: whitespace does not
/// split a number, so no number follows a number, and a complete expression can
/// only stop at the end of the tokens.
pub proof fn lemma_text_parse_reads_every_token(s: Seq<char>)
    requires
        tokenize_spec(s) is Ok,
        expression_spec(tokenize_spec(s)->Ok_0, 0) is Ok,
    ensures
        expression_spec(tokenize_spec(s)->Ok_0, 0)->Ok_0.1 == tokenize_spec(s)->Ok_0.len(),
{
    let t = tokenize_spec(s)->Ok_0;
    lemma_tokens_apart(s, 0, Seq::empty(), Seq::empty());
    lemma_term_end(t, 0);
    let (left, next) = term_spec(t, 0)->Ok_0;
    lemma_expression_rest_end(t, left, next);
    let p = expression_spec(t, 0)->Ok_0.1;
    if p < t.len() {
        assert(t[p - 1] is Number);
        assert(t[p] is Number);
    }
}

} // verus!
