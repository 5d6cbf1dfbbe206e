use lox::expression::{BinaryExpression, Expression, LiteralExpression, UnaryExpression};
use lox::statement::Statement;
use lox::token::Token;

#[test]
fn printer_test_ast_pretty_printing() {
    let expression = BinaryExpression::new(
        Expression::Unary(Box::new(UnaryExpression::new(
            Token::Minus,
            Expression::Literal(LiteralExpression::new(Token::Number(123.0f64.to_bits()))),
        ))),
        Token::Star,
        Expression::Grouping(Box::new(Expression::Literal(LiteralExpression::new(
            Token::Number(45.67f64.to_bits()),
        )))),
    );
    let expression = expression.render();

    assert_eq!(&expression, "(* (- 123) (group 45.67))");
}

#[test]
fn test_token_rendering() {
    assert_eq!(Token::Plus.render(), "+");
    assert_eq!(Token::BangEqual.render(), "!=");
    assert_eq!(Token::Identifier("abc".to_string()).render(), "abc");
    assert_eq!(Token::String("hi".to_string()).render(), "hi");
    assert_eq!(Token::Bool(true).render(), "true");
    assert_eq!(Token::Nil.render(), "nil");
    assert_eq!(Token::Number(6.0f64.to_bits()).render(), "6");
    assert_eq!(Token::Number(0.5f64.to_bits()).render(), "0.5");
}

#[test]
fn test_non_finite_number_rendering() {
    assert_eq!(Token::Number(f64::INFINITY.to_bits()).render(), "inf");
    assert_eq!(Token::Number(f64::NEG_INFINITY.to_bits()).render(), "-inf");
    assert_eq!(Token::Number(f64::NAN.to_bits()).render(), "NaN");
}

// Magnitudes beyond the significant digits keep the soft-float library's
// scientific spelling; it reads back as the same number.
#[test]
fn test_large_number_keeps_scientific_form() {
    assert_eq!(Token::Number(1e21f64.to_bits()).render(), "1.0E+21");
    assert_eq!("1.0E+21".parse::<f64>().unwrap(), 1e21);
}

#[test]
fn test_small_number_renders_positionally() {
    assert_eq!(Token::Number(0.0001f64.to_bits()).render(), "0.0001");
}

#[test]
fn test_statement_rendering() {
    let statement = Statement::Print(Expression::VariableReference("x".to_string()));
    assert_eq!(statement.render(), "(print (value_of x))");
}
