use replcalc::parse::error::Error;
use replcalc::parse::expr::Value;
use replcalc::parse::parse;

fn expect_value(expected: Value, input: &str) {
    match parse(input) {
        Ok(expr) => match expr.eval() {
            Ok(value) => assert_eq!(expected, value, "input: {:?}", input),
            Err(err) => panic!("input {:?}: eval failed: {:?}", input, err),
        },
        Err(err) => panic!("input {:?}: parse failed: {:?}", input, err),
    }
}

fn expect_syntax_error(input: &str) {
    match parse(input) {
        Err(Error::SyntaxError(_)) => {},
        Err(bad_err) => panic!("input {:?}: expected a syntax error, got {:?}", input, bad_err),
        Ok(expr) => panic!("input {:?}: expected a syntax error, got {:?}", input, expr),
    }
}

#[test]
fn syntax_errors() {
    expect_syntax_error("1++");
    expect_syntax_error("()");
    expect_syntax_error("( )");
    expect_syntax_error("(() ( ) )");
}

#[test]
fn parse_parens() {
    expect_value(Value::Integer(1), "(1)");
    expect_value(Value::Integer(1), " ( 1 ) ");
    expect_value(Value::Integer(1), "(( ( 1 ) ) ) ");
    expect_value(Value::Integer(2), "(1) + (1)");
    expect_value(Value::Integer(0), "(1) - (1)");
    expect_value(Value::Integer(-2), "(1) - (1 + 2)");
    expect_value(Value::Integer(-3), "-(1 + 2)");
    expect_value(Value::Integer(16), "(10+2)-(-5 + (3 - 2))");
    expect_syntax_error("1)");
    expect_syntax_error(" 1 ) ");
    expect_syntax_error("(1");
    expect_syntax_error(" ( 1 ");
    expect_syntax_error("(1))");
    expect_syntax_error("((1)");
    expect_syntax_error(")(");
    expect_syntax_error(")1(");
}

#[test]
fn parse_int() {
    expect_value(Value::Integer(0), "0");
    expect_value(Value::Integer(0), " 0 ");
    expect_value(Value::Integer(11111), "11111");
    expect_value(Value::Integer(-32), "-32");
    expect_value(Value::Integer(234), "+234");
}

#[test]
fn parse_sum() {
    expect_value(Value::Integer(5), "1+4");
    expect_value(Value::Integer(5), " 1 + 4 ");
    expect_value(Value::Integer(15), "-4+19");
    expect_value(Value::Integer(-19), "-20+1");
    expect_value(Value::Integer(3), "0+3");
    expect_value(Value::Integer(-3), "0+ -3");
    expect_value(Value::Integer(-8), "-6 + -2");
    expect_value(Value::Integer(8), "+6 + +2");
    expect_value(Value::Integer(6), "1 + 2 + 3");
    expect_value(Value::Integer(4), "-1 + 2 + 3");
    expect_value(Value::Integer(4), "1 + + 3");
    expect_value(Value::Integer(-2), "1 + - 3");
    expect_value(Value::Integer(-2), "1 + - - + - 3");
    expect_value(Value::Integer(4), "1 + - - + - - 3");
    expect_syntax_error("1++3");
}

#[test]
fn parse_difference() {
    expect_value(Value::Integer(-3), "1-4");
    expect_value(Value::Integer(-3), " 1 - 4 ");
    expect_value(Value::Integer(-23), "-4-19");
    expect_value(Value::Integer(-19), "-20+1");
    expect_value(Value::Integer(-3), "0-3");
    expect_value(Value::Integer(3), "0- -3");
    expect_value(Value::Integer(-4), "-6 - -2");
    expect_value(Value::Integer(4), "+6 - +2");
    expect_value(Value::Integer(-4), "1 - 2 - 3");
    expect_value(Value::Integer(2), "1 - 2 + 3");
    expect_value(Value::Integer(0), "1 + 2 - 3");
    expect_value(Value::Integer(-6), "-1 - 2 - 3");
    expect_value(Value::Integer(4), "1 - - 3");
    expect_value(Value::Integer(-2), "1 - + 3");
    expect_value(Value::Integer(4), "1 - - - + - 3");
    expect_value(Value::Integer(-2), "1 - - - + - - 3");
    expect_syntax_error("1--3");
}

#[test]
fn parse_unary_plus() {
    expect_value(Value::Integer(3), "+3");
    expect_value(Value::Integer(3), " + 3 ");
    expect_value(Value::Integer(3), "+ +3");
    expect_value(Value::Integer(3), "+ + 3");
    expect_value(Value::Integer(-3), "+ + -3");
    expect_value(Value::Integer(-3), "+ + - 3");
    expect_syntax_error("++3");
    expect_syntax_error("+ ++3");
}

#[test]
fn parse_unary_minus() {
    expect_value(Value::Integer(-3), "-3");
    expect_value(Value::Integer(-3), " - 3 ");
    expect_value(Value::Integer(3), "- -3");
    expect_value(Value::Integer(3), "- - 3");
    expect_value(Value::Integer(3), "- - +3");
    expect_value(Value::Integer(3), "- - + 3");
    expect_syntax_error("- --3");
}

#[test]
fn tokenize_error_names_the_character() {
    match parse("1 + \u{e9}") {
        Err(Error::TokenizeError(c)) => assert_eq!(c, '\u{e9}'),
        other => panic!("expected a tokenize error, got {:?}", other),
    }
}

#[test]
fn numeral_too_large_is_rejected() {
    expect_syntax_error("99999999999999999999");
    expect_value(Value::Integer(i64::MAX), "9223372036854775807");
}

#[test]
fn eval_overflow_is_an_eval_error() {
    let expr = parse("9223372036854775807 + 1").expect("parses");
    match expr.eval() {
        Err(Error::EvalError(_)) => {},
        other => panic!("expected an eval error, got {:?}", other),
    }
    let expr = parse("-9223372036854775807 - 2").expect("parses");
    match expr.eval() {
        Err(Error::EvalError(_)) => {},
        other => panic!("expected an eval error, got {:?}", other),
    }
}

#[test]
fn syntax_error_message_names_the_tokens() {
    match parse("1 x 2") {
        Err(Error::SyntaxError(msg)) => assert!(msg.contains("x"), "message: {:?}", msg),
        other => panic!("expected a syntax error, got {:?}", other),
    }
}
