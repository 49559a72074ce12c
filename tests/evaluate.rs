use calculator::error::{Context, EvalError};
use calculator::parser::{parse, parse_expression, parse_factor, parse_term, Expr};
use calculator::token::{tokenize, Operator, Token};

/// The value of a parsed expression in floating point.
fn value(e: &Expr) -> f64 {
    match e {
        Expr::Number(s) => s.parse::<f64>().unwrap(),
        Expr::Binary(op, l, r) => {
            let (a, b) = (value(l), value(r));
            match op {
                Operator::Add => a + b,
                Operator::Subtract => a - b,
                Operator::Multiply => a * b,
                Operator::Divide => a / b,
            }
        }
    }
}

fn eval(s: &str) -> Result<f64, EvalError> {
    parse(s).map(|e| value(&e))
}

fn num(s: &str) -> Token {
    Token::Number(s.to_string())
}

fn lit(s: &str) -> Box<Expr> {
    Box::new(Expr::Number(s.to_string()))
}

#[test]
fn number_alone_evaluates_to_itself() {
    for n in ["0", "42", "3.25", ".5", "7.", "007", "123456789.000001"] {
        assert_eq!(parse(n), Ok(Expr::Number(n.to_string())));
        assert_eq!(eval(n), Ok(n.parse::<f64>().unwrap()));
    }
}

#[test]
fn addition() {
    assert_eq!(eval("2+3"), Ok(5.0));
}

#[test]
fn addition_and_subtraction_associate_left() {
    assert_eq!(eval("2-3+4"), Ok(3.0));
    assert_eq!(
        parse("2-3+4"),
        Ok(Expr::Binary(
            Operator::Add,
            Box::new(Expr::Binary(Operator::Subtract, lit("2"), lit("3"))),
            lit("4"),
        ))
    );
}

#[test]
fn multiplication_binds_tighter() {
    assert_eq!(eval("2+3*4"), Ok(14.0));
    assert_eq!(eval("2*3+4"), Ok(10.0));
    assert_eq!(
        parse("2+3*4"),
        Ok(Expr::Binary(
            Operator::Add,
            lit("2"),
            Box::new(Expr::Binary(Operator::Multiply, lit("3"), lit("4"))),
        ))
    );
}

#[test]
fn division_associates_left() {
    assert_eq!(eval("10/2/5"), Ok(1.0));
}

#[test]
fn mixed_expression_with_whitespace_and_decimals() {
    assert_eq!(eval(" 1.5 * 4 - 6 / 3 + 0.5 "), Ok(4.5));
}

#[test]
fn division_by_zero() {
    assert_eq!(eval("5/0"), Err(EvalError::DivisionByZero));
    assert_eq!(eval("5/0.0"), Err(EvalError::DivisionByZero));
    assert_eq!(eval("5/.00"), Err(EvalError::DivisionByZero));
    assert_eq!(eval("1+5/00*3"), Err(EvalError::DivisionByZero));
}

#[test]
fn division_by_zero_comes_before_a_later_bad_number() {
    assert_eq!(eval("5/0*1.2.3"), Err(EvalError::DivisionByZero));
}

#[test]
fn zero_as_dividend_or_factor_is_fine() {
    assert_eq!(eval("0/5"), Ok(0.0));
    assert_eq!(eval("5*0"), Ok(0.0));
    assert_eq!(eval("5/0.5"), Ok(10.0));
}

#[test]
fn missing_term_after_operator() {
    assert_eq!(
        eval("2+"),
        Err(EvalError::UnexpectedEndOfInput(Context::Term))
    );
}

#[test]
fn missing_factor_after_operator() {
    assert_eq!(
        eval("2*"),
        Err(EvalError::UnexpectedEndOfInput(Context::Factor))
    );
}

#[test]
fn invalid_character() {
    assert_eq!(eval("2&3"), Err(EvalError::InvalidCharacter('&')));
    assert_eq!(eval("(1)"), Err(EvalError::InvalidCharacter('(')));
}

#[test]
fn empty_input() {
    assert_eq!(
        eval(""),
        Err(EvalError::UnexpectedEndOfInput(Context::Expression))
    );
    assert_eq!(
        eval(" \t "),
        Err(EvalError::UnexpectedEndOfInput(Context::Expression))
    );
}

#[test]
fn invalid_numbers() {
    assert_eq!(
        eval("1.2.3"),
        Err(EvalError::InvalidNumber("1.2.3".to_string()))
    );
    assert_eq!(eval("."), Err(EvalError::InvalidNumber(".".to_string())));
    assert_eq!(eval("2+*3"), Err(EvalError::InvalidNumber("*".to_string())));
    assert_eq!(eval("-5"), Err(EvalError::InvalidNumber("-".to_string())));
}

#[test]
fn evaluation_is_repeatable() {
    for s in ["2+3*4", "5/0", "2&3", "", "1.2.3"] {
        assert_eq!(parse(s), parse(s));
    }
}

#[test]
fn trailing_tokens_are_ignored() {
    let tokens = vec![num("2"), Token::Operator(Operator::Add), num("3"), num("4")];
    let (e, next) = parse_expression(&tokens, 0).unwrap();
    assert_eq!(next, 3);
    assert_eq!(value(&e), 5.0);
}

#[test]
fn whitespace_does_not_split_a_number() {
    assert_eq!(eval("2+3 4"), Ok(36.0));
    assert_eq!(tokenize("1 2").unwrap(), vec![num("12")]);
}

#[test]
fn tokenize_splits_numbers_and_operators() {
    assert_eq!(
        tokenize("12 + 3.5*4/1-0").unwrap(),
        vec![
            num("12"),
            Token::Operator(Operator::Add),
            num("3.5"),
            Token::Operator(Operator::Multiply),
            num("4"),
            Token::Operator(Operator::Divide),
            num("1"),
            Token::Operator(Operator::Subtract),
            num("0"),
        ]
    );
    assert_eq!(tokenize("").unwrap(), Vec::<Token>::new());
    assert_eq!(tokenize("1.2.3").unwrap(), vec![num("1.2.3")]);
    assert_eq!(tokenize("4\u{3000}2\u{a0}+1").unwrap().len(), 3);
    assert_eq!(tokenize("1x"), Err(EvalError::InvalidCharacter('x')));
}

#[test]
fn parse_levels_report_their_context_at_the_end() {
    let tokens = vec![num("1")];
    assert_eq!(
        parse_expression(&tokens, 1),
        Err(EvalError::UnexpectedEndOfInput(Context::Expression))
    );
    assert_eq!(
        parse_term(&tokens, 1),
        Err(EvalError::UnexpectedEndOfInput(Context::Term))
    );
    assert_eq!(
        parse_factor(&tokens, 1),
        Err(EvalError::UnexpectedEndOfInput(Context::Factor))
    );
    assert_eq!(parse_factor(&tokens, 0), Ok((Expr::Number("1".to_string()), 1)));
}

#[test]
fn term_stops_at_additive_operator() {
    let tokens = vec![
        num("6"),
        Token::Operator(Operator::Divide),
        num("3"),
        Token::Operator(Operator::Subtract),
        num("1"),
    ];
    let (e, next) = parse_term(&tokens, 0).unwrap();
    assert_eq!(next, 3);
    assert_eq!(value(&e), 2.0);
}
