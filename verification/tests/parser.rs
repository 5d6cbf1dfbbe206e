use lox::lexer::Scanner;
use lox::parser::{Parser, ParserError};

#[test]
fn test_parsing_expression() {
    let source_code = "1 - (2 * 3) < 4 == false";
    let scanner = Scanner::new(source_code);
    let tokens = scanner.try_scan_all().unwrap();

    let mut parser = Parser::new(tokens);
    let ast = parser.parse_expression().unwrap();
    assert_eq!("(== (< (- 1 (group (* 2 3))) 4) false)", ast.render());
}

#[test]
fn test_parsing_statement_renders_prefix_form() {
    let tokens = Scanner::new("1 - (2 * 3) < 4 == false;").try_scan_all().unwrap();
    let statements = Parser::new(tokens).try_parse().unwrap();
    assert_eq!(statements.len(), 1);
    assert_eq!(
        statements[0].render(),
        "(expression (== (< (- 1 (group (* 2 3))) 4) false))"
    );
}

#[test]
fn test_unclosed_grouping_recovers() {
    let tokens = Scanner::new("(1 + 2; var x = 1;").try_scan_all().unwrap();
    let reporter = Parser::new(tokens).try_parse().unwrap_err();
    let errors = reporter.error_list();
    // One error for the unclosed grouping; the declaration after the `;`
    // parses cleanly, so no cascade follows.
    assert_eq!(errors.len(), 1);
    assert!(matches!(errors[0], ParserError::UnclosedGrouping));
}

#[test]
fn test_missing_semicolon_is_reported() {
    let tokens = Scanner::new("1 + 2").try_scan_all().unwrap();
    let reporter = Parser::new(tokens).try_parse().unwrap_err();
    let errors = reporter.error_list();
    assert_eq!(errors.len(), 1);
    assert!(matches!(errors[0], ParserError::UnterminatedStatement));
}

#[test]
fn test_token_that_cannot_begin_expression() {
    let tokens = Scanner::new("* 1;").try_scan_all().unwrap();
    let reporter = Parser::new(tokens).try_parse().unwrap_err();
    let errors = reporter.error_list();
    assert!(matches!(errors[0], ParserError::ExpectedValidExpression(_)));
    assert_eq!(errors[0].message(), "Expected valid expression, found '*'");
}

#[test]
fn test_end_of_input_in_expression() {
    let tokens = Scanner::new("1 +").try_scan_all().unwrap();
    let reporter = Parser::new(tokens).try_parse().unwrap_err();
    let errors = reporter.error_list();
    assert!(matches!(errors[0], ParserError::UnexpectedEndOfInput));
}

#[test]
fn test_var_without_identifier_is_recovered() {
    let tokens = Scanner::new("var = 3; print 1;").try_scan_all().unwrap();
    let reporter = Parser::new(tokens).try_parse().unwrap_err();
    let errors = reporter.error_list();
    assert_eq!(errors.len(), 1);
    assert!(matches!(errors[0], ParserError::ExpectedValidExpression(_)));
}

#[test]
fn test_var_declaration_forms() {
    let tokens = Scanner::new("var a; var b = 2;").try_scan_all().unwrap();
    let statements = Parser::new(tokens).try_parse().unwrap();
    assert_eq!(statements.len(), 2);
    assert_eq!(statements[0].render(), "(var a ())");
    assert_eq!(statements[1].render(), "(var b (2))");
}

#[test]
fn test_unary_and_precedence() {
    let tokens = Scanner::new("-1 + 2 * 3").try_scan_all().unwrap();
    let mut parser = Parser::new(tokens);
    let ast = parser.parse_expression().unwrap();
    assert_eq!("(+ (- 1) (* 2 3))", ast.render());
}

#[test]
fn test_left_associativity() {
    let tokens = Scanner::new("1 - 2 - 3").try_scan_all().unwrap();
    let mut parser = Parser::new(tokens);
    let ast = parser.parse_expression().unwrap();
    assert_eq!("(- (- 1 2) 3)", ast.render());
}
