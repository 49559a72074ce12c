use calculator::keypad::Calculator;
use calculator::error::EvalError;
use calculator::parser::Expr;
use calculator::token::{is_whitespace, Operator};

#[test]
fn digits_append() {
    let mut c = Calculator::new();
    c.push_digit(1);
    c.push_digit(0);
    c.push_digit(9);
    assert_eq!(c.expression(), "109");
}

#[test]
fn only_minus_may_start() {
    let mut c = Calculator::new();
    assert!(!c.push_operator(Operator::Add));
    assert!(!c.push_operator(Operator::Multiply));
    assert!(!c.push_operator(Operator::Divide));
    assert_eq!(c.expression(), "");
    assert!(c.push_operator(Operator::Subtract));
    assert_eq!(c.expression(), "-");
}

#[test]
fn no_operator_after_operator() {
    let mut c = Calculator::new();
    c.push_digit(2);
    assert!(c.push_operator(Operator::Multiply));
    assert!(!c.push_operator(Operator::Add));
    assert!(!c.push_operator(Operator::Subtract));
    assert!(!c.push_operator(Operator::Multiply));
    assert!(!c.push_operator(Operator::Divide));
    assert_eq!(c.expression(), "2*");
    c.push_digit(3);
    assert!(c.push_operator(Operator::Subtract));
    assert_eq!(c.expression(), "2*3-");
}

#[test]
fn no_second_operator_after_leading_minus() {
    let mut c = Calculator::new();
    assert!(c.push_operator(Operator::Subtract));
    assert!(!c.push_operator(Operator::Subtract));
    assert_eq!(c.expression(), "-");
}

#[test]
fn equals_on_empty_does_nothing() {
    let c = Calculator::new();
    assert_eq!(c.evaluate(), None);
}

#[test]
fn equals_parses_the_text() {
    let mut c = Calculator::new();
    c.push_digit(7);
    assert_eq!(c.evaluate(), Some(Ok(Expr::Number("7".to_string()))));
    c.push_operator(Operator::Divide);
    assert_eq!(
        c.evaluate(),
        Some(Err(EvalError::UnexpectedEndOfInput(
            calculator::error::Context::Factor
        )))
    );
    c.push_digit(0);
    assert_eq!(c.evaluate(), Some(Err(EvalError::DivisionByZero)));
}

#[test]
fn leading_minus_is_not_in_the_grammar() {
    let mut c = Calculator::new();
    c.push_operator(Operator::Subtract);
    c.push_digit(4);
    assert_eq!(
        c.evaluate(),
        Some(Err(EvalError::InvalidNumber("-".to_string())))
    );
}

#[test]
fn whitespace_matches_std() {
    for c in ['\t', '\n', '\u{b}', '\u{c}', '\r', ' ', '\u{85}', '\u{a0}', '\u{1680}', '\u{2000}',
        '\u{200a}', '\u{2028}', '\u{2029}', '\u{202f}', '\u{205f}', '\u{3000}', 'a', '0', '\u{200b}',
        '\u{180e}', '\u{feff}', '\u{1f}', '\u{2030}']
    {
        assert_eq!(is_whitespace(c), c.is_whitespace(), "{:?}", c);
    }
}

#[test]
fn operator_symbols() {
    assert_eq!(Operator::Add.symbol(), '+');
    assert_eq!(Operator::from_char('/'), Some(Operator::Divide));
    assert_eq!(Operator::from_char('x'), None);
    assert!(Operator::Multiply.is_multiplicative());
    assert!(!Operator::Subtract.is_multiplicative());
}
