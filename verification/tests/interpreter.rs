use lox::error::Error;
use lox::interpreter::{interpret_lox, interpret_lox_with_state, Environment, RuntimeError, Value};

fn run(source: &str) -> Result<Vec<Value>, Error> {
    interpret_lox(source)
}

fn num(x: f64) -> Value {
    Value::Number(x.to_bits())
}

// Evaluating `var x = 1 + 2; print x * 2;` against a fresh environment
// produces output 6 and leaves x bound to 3.
#[test]
fn test_declaration_and_print() {
    let mut environment = Environment::new();
    let mut output = Vec::new();
    interpret_lox_with_state("var x = 1 + 2; print x * 2;", &mut environment, &mut output)
        .unwrap();
    assert_eq!(output, vec![num(6.0)]);
    assert_eq!(format!("{}", f64::from_bits(match &output[0] {
        Value::Number(bits) => *bits,
        _ => panic!("expected a number"),
    })), "6");
    assert_eq!(environment.get_value("x"), Some(Some(num(3.0))));
}

// Evaluating `print x;` against a fresh environment fails with
// UndefinedVariable("x") and performs no output.
#[test]
fn test_undefined_variable() {
    let mut environment = Environment::new();
    let mut output = Vec::new();
    let err = interpret_lox_with_state("print x;", &mut environment, &mut output).unwrap_err();
    assert_eq!(
        err,
        Error::Runtime(RuntimeError::UndefinedVariable("x".to_string()))
    );
    assert!(output.is_empty());
}

#[test]
fn test_uninitialized_variable() {
    let err = run("var x; print x;").unwrap_err();
    assert_eq!(
        err,
        Error::Runtime(RuntimeError::UninitializedVariable("x".to_string()))
    );
}

#[test]
fn test_division() {
    assert_eq!(run("print 1 / 2;").unwrap(), vec![num(0.5)]);
}

// Division by zero yields an IEEE-754 infinity, not a runtime error.
#[test]
fn test_division_by_zero_is_infinity() {
    assert_eq!(run("print 1 / 0;").unwrap(), vec![num(f64::INFINITY)]);
    assert_eq!(run("print 0 / 0;").unwrap(), vec![Value::Number((0.0f64 / 0.0f64).to_bits())]);
}

#[test]
fn test_arithmetic_exact_values() {
    assert_eq!(run("print 1 + 2;").unwrap(), vec![num(3.0)]);
    assert_eq!(run("print 7 - 2.5;").unwrap(), vec![num(4.5)]);
    assert_eq!(run("print 6 * 7;").unwrap(), vec![num(42.0)]);
    assert_eq!(run("print 0.1 + 0.2;").unwrap(), vec![num(0.1 + 0.2)]);
}

#[test]
fn test_comparisons() {
    assert_eq!(run("print 1 < 2;").unwrap(), vec![Value::Bool(true)]);
    assert_eq!(run("print 1 > 2;").unwrap(), vec![Value::Bool(false)]);
    assert_eq!(run("print 2 <= 2;").unwrap(), vec![Value::Bool(true)]);
    assert_eq!(run("print 2 >= 3;").unwrap(), vec![Value::Bool(false)]);
}

#[test]
fn test_equality_is_structural() {
    assert_eq!(run("print 1 == 1;").unwrap(), vec![Value::Bool(true)]);
    assert_eq!(run("print \"a\" == \"a\";").unwrap(), vec![Value::Bool(true)]);
    assert_eq!(run("print \"a\" == 1;").unwrap(), vec![Value::Bool(false)]);
    assert_eq!(run("print nil == nil;").unwrap(), vec![Value::Bool(true)]);
    assert_eq!(run("print 1 != 2;").unwrap(), vec![Value::Bool(true)]);
}

#[test]
fn test_string_concatenation() {
    assert_eq!(
        run("print \"foo\" + \"bar\";").unwrap(),
        vec![Value::String("foobar".to_string())]
    );
}

#[test]
fn test_truthiness_and_negation() {
    assert_eq!(run("print !nil;").unwrap(), vec![Value::Bool(true)]);
    assert_eq!(run("print !false;").unwrap(), vec![Value::Bool(true)]);
    assert_eq!(run("print !0;").unwrap(), vec![Value::Bool(false)]);
    assert_eq!(run("print !\"\";").unwrap(), vec![Value::Bool(false)]);
    assert_eq!(run("print -3;").unwrap(), vec![num(-3.0)]);
    assert_eq!(run("print -(1 + 2);").unwrap(), vec![num(-3.0)]);
}

#[test]
fn test_unary_minus_type_error() {
    let err = run("print -\"a\";").unwrap_err();
    assert!(matches!(
        err,
        Error::Runtime(RuntimeError::UnaryExpressionExpectedNumber(_, _))
    ));
}

#[test]
fn test_binary_type_errors_name_the_side() {
    assert!(matches!(
        run("print 1 - \"a\";").unwrap_err(),
        Error::Runtime(RuntimeError::BinaryExpressionExpectedNumberAtRight(_, _))
    ));
    assert!(matches!(
        run("print \"a\" - 1;").unwrap_err(),
        Error::Runtime(RuntimeError::BinaryExpressionExpectedNumberAtLeft(_, _))
    ));
    assert!(matches!(
        run("print \"a\" * \"b\";").unwrap_err(),
        Error::Runtime(RuntimeError::BinaryExpressionExpectedNumberBothSides(_, _, _))
    ));
    assert!(matches!(
        run("print 1 + \"a\";").unwrap_err(),
        Error::Runtime(RuntimeError::BinaryExpressionExpectedNumberAtRight(_, _))
    ));
}

// Executing the same declaration twice is observably equivalent to
// executing it once.
#[test]
fn test_declaration_idempotent() {
    let mut once_env = Environment::new();
    let mut twice_env = Environment::new();
    let mut output = Vec::new();
    interpret_lox_with_state("var x = 1 + 2;", &mut once_env, &mut output).unwrap();
    interpret_lox_with_state("var x = 1 + 2; var x = 1 + 2;", &mut twice_env, &mut output)
        .unwrap();
    assert!(output.is_empty());
    assert_eq!(once_env.get_value("x"), twice_env.get_value("x"));
    assert_eq!(twice_env.get_value("x"), Some(Some(num(3.0))));
}

// The environment persists across successive runs, as in an interactive
// session, and a runtime error leaves it intact.
#[test]
fn test_environment_persists_across_runs() {
    let mut environment = Environment::new();
    let mut output = Vec::new();
    interpret_lox_with_state("var x = 2;", &mut environment, &mut output).unwrap();
    interpret_lox_with_state("print y;", &mut environment, &mut output).unwrap_err();
    interpret_lox_with_state("print x * x;", &mut environment, &mut output).unwrap();
    assert_eq!(output, vec![num(4.0)]);
}

#[test]
fn test_expression_statement_produces_no_output() {
    assert_eq!(run("1 + 2;").unwrap(), Vec::<Value>::new());
}

#[test]
fn test_overwriting_binding() {
    let mut environment = Environment::new();
    let mut output = Vec::new();
    interpret_lox_with_state("var x = 1; var x = \"two\";", &mut environment, &mut output)
        .unwrap();
    assert_eq!(
        environment.get_value("x"),
        Some(Some(Value::String("two".to_string())))
    );
}

#[test]
fn test_runtime_error_messages() {
    assert_eq!(
        RuntimeError::UndefinedVariable("x".to_string()).message(),
        "variable 'x' is not defined"
    );
    assert_eq!(
        RuntimeError::UninitializedVariable("x".to_string()).message(),
        "variable 'x' is defined but uninitialized"
    );
    assert_eq!(
        RuntimeError::BinaryExpressionExpectedNumberAtRight(
            lox::token::Token::Minus,
            Value::String("a".to_string()),
        )
        .message(),
        "Expected number after binary operator '-', found a instead."
    );
    assert_eq!(
        RuntimeError::BinaryExpressionExpectedNumberBothSides(
            lox::token::Token::Star,
            Value::Bool(true),
            Value::Nil,
        )
        .message(),
        "Operator '*' should be surrounded by numbers, found true and nil instead."
    );
}

#[test]
fn test_value_rendering() {
    assert_eq!(num(6.0).render(), "6");
    assert_eq!(num(0.5).render(), "0.5");
    assert_eq!(Value::Number(f64::INFINITY.to_bits()).render(), "inf");
    assert_eq!(Value::String("hi".to_string()).render(), "hi");
    assert_eq!(Value::Bool(false).render(), "false");
    assert_eq!(Value::Nil.render(), "nil");
}

#[test]
fn test_parse_error_surfaces_as_batch() {
    let err = run("(1 + 2;").unwrap_err();
    match err {
        Error::Parser(reporter) => {
            assert!(reporter.has_errors());
        },
        other => panic!("expected a parser error, got {other:?}"),
    }
}

#[test]
fn test_lex_error_surfaces() {
    let err = run("print \"abc;").unwrap_err();
    assert!(matches!(err, Error::Lexer(_)));
}
