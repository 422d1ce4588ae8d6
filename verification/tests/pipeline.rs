use calc::CalcError;
use calc::Environment;
use calc::EvalError;
use calc::LexError;
use calc::ParseError;
use calc::Rationals;
use calc::Value;
use calc::evaluate;
use calc::format_value;

#[test]
fn test_precedence_end_to_end() {
    let mut env = Environment::new();
    assert_eq!(evaluate("2+3*4", &mut env), Ok(Value::Integer(14)));
    assert_eq!(evaluate("2*(3+4)", &mut env), Ok(Value::Integer(14)));
    assert_eq!(evaluate("(1+2)*3", &mut env), Ok(Value::Integer(9)));
    assert_eq!(evaluate("10-2-3", &mut env), Ok(Value::Integer(5)));
    assert_eq!(evaluate("-3+5", &mut env), Ok(Value::Integer(2)));
}

#[test]
fn test_assignment_yields_absence_and_binds() {
    let mut env = Environment::new();
    assert_eq!(evaluate("x = 7", &mut env), Ok(Value::Absence));
    assert_eq!(evaluate("x", &mut env), Ok(Value::Integer(7)));
    assert_eq!(evaluate("x = x + 1", &mut env), Ok(Value::Absence));
    assert_eq!(evaluate("x", &mut env), Ok(Value::Integer(8)));
}

#[test]
fn test_unknown_identifier_leaves_env_unchanged() {
    let mut env = Environment::new();
    assert_eq!(evaluate("x = 7", &mut env), Ok(Value::Absence));
    let r = evaluate("y+1", &mut env);
    assert_eq!(
        r,
        Err(CalcError::Eval(EvalError::UnknownIdentifier(String::from("y"))))
    );
    // A failing assignment does not touch the environment either.
    let r2 = evaluate("x = y + 1", &mut env);
    assert!(matches!(r2, Err(CalcError::Eval(_))));
    assert_eq!(evaluate("x", &mut env), Ok(Value::Integer(7)));
}

#[test]
fn test_division_promotes() {
    let mut env = Environment::new();
    assert_eq!(evaluate("8/2", &mut env), Ok(Value::Integer(4)));
    assert_eq!(
        evaluate("7/2", &mut env),
        Ok(Value::Rational(Rationals::new(2, 7)))
    );
    assert_eq!(
        evaluate("1/3 + 1/3", &mut env),
        Ok(Value::Rational(Rationals::new(3, 2)))
    );
    assert_eq!(evaluate("1/3 * 3", &mut env), Ok(Value::Rational(Rationals::new(1, 1))));
}

#[test]
fn test_division_by_zero_is_a_sentinel() {
    let mut env = Environment::new();
    assert_eq!(
        evaluate("1/0", &mut env),
        Ok(Value::Rational(Rationals::new(1, i64::MAX)))
    );
    assert_eq!(
        evaluate("0/0", &mut env),
        Ok(Value::Rational(Rationals::new(0, 0)))
    );
}

#[test]
fn test_decimal_literals_are_exact_rationals() {
    let mut env = Environment::new();
    assert_eq!(
        evaluate("3.14", &mut env),
        Ok(Value::Rational(Rationals::new(50, 157)))
    );
    assert_eq!(
        evaluate("0.5", &mut env),
        Ok(Value::Rational(Rationals::new(2, 1)))
    );
}

#[test]
fn test_formatting() {
    assert_eq!(format_value(&Value::Integer(14)), "14");
    assert_eq!(format_value(&Value::Integer(-7)), "-7");
    assert_eq!(format_value(&Value::Rational(Rationals::new(2, 7))), "7/2");
    assert_eq!(format_value(&Value::Rational(Rationals::new(2, -7))), "-7/2");
    assert_eq!(format_value(&Value::Rational(Rationals::new(0, 0))), "undefined");
    assert_eq!(
        format_value(&Value::Rational(Rationals::new(1, i64::MAX))),
        "infinity"
    );
}

#[test]
fn test_roundtrip_integer() {
    let mut env = Environment::new();
    let v = evaluate("6*4-10", &mut env).unwrap();
    assert_eq!(v, Value::Integer(14));
    let printed = format_value(&v);
    assert_eq!(evaluate(&printed, &mut env), Ok(v));
    let neg = evaluate("0-3", &mut env).unwrap();
    let printed_neg = format_value(&neg);
    assert_eq!(evaluate(&printed_neg, &mut env), Ok(neg));
}

#[test]
fn test_roundtrip_rational() {
    let mut env = Environment::new();
    let v = evaluate("7/2", &mut env).unwrap();
    let printed = format_value(&v);
    assert_eq!(printed, "7/2");
    assert_eq!(evaluate(&printed, &mut env), Ok(v));
    let w = evaluate("0 - 7/2", &mut env).unwrap();
    let printed_w = format_value(&w);
    assert_eq!(printed_w, "-7/2");
    assert_eq!(evaluate(&printed_w, &mut env), Ok(w));
}

#[test]
fn test_lex_errors() {
    let mut env = Environment::new();
    assert_eq!(
        evaluate("2 # 3", &mut env),
        Err(CalcError::Lex(LexError::UnrecognizedChar { offset: 2, character: '#' }))
    );
    assert_eq!(
        evaluate("99999999999999999999", &mut env),
        Err(CalcError::Lex(LexError::NumberTooLarge { offset: 0 }))
    );
}

#[test]
fn test_parse_errors() {
    let mut env = Environment::new();
    assert_eq!(
        evaluate("(2+3", &mut env),
        Err(CalcError::Parse(ParseError::MissingClosingParen { position: 4 }))
    );
    assert_eq!(
        evaluate("*2", &mut env),
        Err(CalcError::Parse(ParseError::UnexpectedToken { position: 0 }))
    );
    assert_eq!(
        evaluate("2 3", &mut env),
        Err(CalcError::Parse(ParseError::TrailingTokens { position: 1 }))
    );
    assert_eq!(
        evaluate("9223372036854775808", &mut env),
        Err(CalcError::Parse(ParseError::LiteralOutOfRange { position: 0 }))
    );
}

#[test]
fn test_eval_errors() {
    let mut env = Environment::new();
    assert_eq!(
        evaluate("9223372036854775807+1", &mut env),
        Err(CalcError::Eval(EvalError::Overflow))
    );
    assert_eq!(
        evaluate("(x=1)+2", &mut env),
        Err(CalcError::Eval(EvalError::AbsentOperand))
    );
}

#[test]
fn test_environment_direct() {
    let mut env = Environment::new();
    env.insert(String::from("t"), Value::Integer(3));
    assert_eq!(env.lookup(&String::from("t")), Some(Value::Integer(3)));
    assert_eq!(env.lookup(&String::from("u")), None);
    env.insert(String::from("t"), Value::Integer(4));
    assert_eq!(env.lookup(&String::from("t")), Some(Value::Integer(4)));
    assert_eq!(evaluate("t*t", &mut env), Ok(Value::Integer(16)));
}

#[test]
fn test_whitespace_and_nesting() {
    let mut env = Environment::new();
    assert_eq!(evaluate("  2 +\t3 * 4  ", &mut env), Ok(Value::Integer(14)));
    assert_eq!(evaluate("((((5))))", &mut env), Ok(Value::Integer(5)));
    assert_eq!(evaluate("-(2+3)", &mut env), Ok(Value::Integer(-5)));
}
