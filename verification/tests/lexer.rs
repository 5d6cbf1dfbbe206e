use lox::lexer::{LexerError, Scanner};
use lox::token::{Position, Token, TokenWithPosition};

use Token::{
    And, Bang, Bool, Equal, EqualEqual, Identifier, LeftParen, Less, Minus, Number, Or, Plus,
    RightParen, Semicolon, Slash, Star, Var,
};

fn num(x: f64) -> Token {
    Number(x.to_bits())
}

#[test]
fn test_scanning_statement() {
    let source_code = r#"var foo = !"text" + (min + max) / 2 or true and false;"#;

    let mut scanner = Scanner::new(source_code);
    let mut n = || scanner.next().unwrap().unwrap();

    assert_eq!(n(), TokenWithPosition::new(Var                            , Position::new(1, 1)));
    assert_eq!(n(), TokenWithPosition::new(Identifier("foo".into())       , Position::new(1, 5)));
    assert_eq!(n(), TokenWithPosition::new(Equal                          , Position::new(1, 9)));
    assert_eq!(n(), TokenWithPosition::new(Bang                           , Position::new(1, 11)));
    assert_eq!(n(), TokenWithPosition::new(Token::String("text".into())   , Position::new(1, 12)));
    assert_eq!(n(), TokenWithPosition::new(Plus                           , Position::new(1, 19)));
    assert_eq!(n(), TokenWithPosition::new(LeftParen                      , Position::new(1, 21)));
    assert_eq!(n(), TokenWithPosition::new(Identifier("min".into())       , Position::new(1, 22)));
    assert_eq!(n(), TokenWithPosition::new(Plus                           , Position::new(1, 26)));
    assert_eq!(n(), TokenWithPosition::new(Identifier("max".into())       , Position::new(1, 28)));
    assert_eq!(n(), TokenWithPosition::new(RightParen                     , Position::new(1, 31)));
    assert_eq!(n(), TokenWithPosition::new(Slash                          , Position::new(1, 33)));
    assert_eq!(n(), TokenWithPosition::new(num(2.0)                       , Position::new(1, 35)));
    assert_eq!(n(), TokenWithPosition::new(Or                             , Position::new(1, 37)));
    assert_eq!(n(), TokenWithPosition::new(Bool(true)                     , Position::new(1, 40)));
    assert_eq!(n(), TokenWithPosition::new(And                            , Position::new(1, 45)));
    assert_eq!(n(), TokenWithPosition::new(Bool(false)                    , Position::new(1, 49)));
    assert_eq!(n(), TokenWithPosition::new(Semicolon                      , Position::new(1, 54)));
    assert!(scanner.next().is_none());
}

#[test]
fn test_scanning_expression() {
    let source_code = "1 - (2 * 3) < 4 == false";
    let mut scanner = Scanner::new(source_code);
    let mut n = || scanner.next().unwrap().unwrap();

    assert_eq!(n(), TokenWithPosition::new(num(1.0)   , Position::new(1, 1)));
    assert_eq!(n(), TokenWithPosition::new(Minus      , Position::new(1, 3)));
    assert_eq!(n(), TokenWithPosition::new(LeftParen  , Position::new(1, 5)));
    assert_eq!(n(), TokenWithPosition::new(num(2.0)   , Position::new(1, 6)));
    assert_eq!(n(), TokenWithPosition::new(Star       , Position::new(1, 8)));
    assert_eq!(n(), TokenWithPosition::new(num(3.0)   , Position::new(1, 10)));
    assert_eq!(n(), TokenWithPosition::new(RightParen , Position::new(1, 11)));
    assert_eq!(n(), TokenWithPosition::new(Less       , Position::new(1, 13)));
    assert_eq!(n(), TokenWithPosition::new(num(4.0)   , Position::new(1, 15)));
    assert_eq!(n(), TokenWithPosition::new(EqualEqual , Position::new(1, 17)));
    assert_eq!(n(), TokenWithPosition::new(Bool(false), Position::new(1, 20)));
    assert!(scanner.next().is_none());
}

#[test]
fn lexer_test_multiple_comments() {
    let source_code = "\
            // fn main() {\n\
            // println!(\"hello world\");\n\
            // }\n\
        ";
    assert!(Scanner::new(source_code).next().is_none());
}

#[test]
fn test_dont_panic_on_comment_at_end() {
    let source_code = "// asjdnasjdnasjd";
    assert!(Scanner::new(source_code).next().is_none());
}

#[test]
fn scanner_test_multiple_comments() {
    let source_code = "\
        // fn main() {\n\
        // println!(\"hello world\");\n\
        // }\n\
    ";
    assert!(Scanner::new(source_code).next().is_none());
}

#[test]
fn test_dont_panic_on_terminating_comment() {
    let source_code = "// asjdnasjdnasjd";
    assert!(Scanner::new(source_code).next().is_none());
}

#[test]
fn test_unterminated_string_error() {
    let source_code = r#"
                print 1 + "qwerty;
            "#;
    assert!(Scanner::new(source_code).try_scan_all().is_err());
}

#[test]
fn test_unterminated_string_error_kind() {
    let err = Scanner::new("\"abc").try_scan_all().unwrap_err();
    assert_eq!(err, LexerError::UnterminatedString);
    assert_eq!(err.message(), "Unterminated string.");
}

#[test]
fn test_fractional_number_and_trailing_dot() {
    let tokens = Scanner::new("45.67 12.").try_scan_all().unwrap();
    assert_eq!(tokens, vec![num(45.67), num(12.0), Token::Dot]);
}

#[test]
fn test_unexpected_character_is_skipped() {
    let tokens = Scanner::new("1 @ 2").try_scan_all().unwrap();
    assert_eq!(tokens, vec![num(1.0), num(2.0)]);
}

// A skipped character attributes no position: the token after it carries
// the position of the first character of its own lexeme.
#[test]
fn test_position_after_unexpected_character() {
    let mut scanner = Scanner::new("@+");
    assert_eq!(
        scanner.next().unwrap().unwrap(),
        TokenWithPosition::new(Plus, Position::new(1, 2))
    );
    assert!(scanner.has_failed());
    assert!(scanner.next().is_none());
}

#[test]
fn test_has_failed_reports_unexpected_characters() {
    let mut clean = Scanner::new("1 + 2");
    while let Some(step) = clean.next() {
        step.unwrap();
    }
    assert!(!clean.has_failed());

    let mut dirty = Scanner::new("1 # 2");
    while let Some(step) = dirty.next() {
        step.unwrap();
    }
    assert!(dirty.has_failed());
}

#[test]
fn test_empty_source_yields_no_tokens() {
    assert!(Scanner::new("").try_scan_all().unwrap().is_empty());
}

// Re-lexing the concatenation of each token's lexeme, one space between
// tokens, reproduces the token sequence.
#[test]
fn test_lexeme_round_trip() {
    let source_code = r#"var foo = !"text" + (min + max) / 2 or true and 45.67 <= false;"#;
    let tokens = Scanner::new(source_code).try_scan_all().unwrap();

    let mut rebuilt = Vec::new();
    for token in &tokens {
        match token {
            Token::String(s) => rebuilt.push(format!("\"{s}\"")),
            Token::Number(bits) => rebuilt.push(format!("{}", f64::from_bits(*bits))),
            Token::Identifier(s) => rebuilt.push(s.clone()),
            other => rebuilt.push(other.render()),
        }
    }
    let rebuilt_source = rebuilt.join(" ");
    let again = Scanner::new(&rebuilt_source).try_scan_all().unwrap();
    assert_eq!(tokens, again);
}

#[test]
fn test_position_advancing() {
    let mut p = Position::new(3, 7);
    p.advance_column();
    assert_eq!(p, Position::new(3, 8));
    p.advance_line();
    assert_eq!(p, Position::new(4, 1));
}

#[test]
fn test_positions_across_lines() {
    let mut scanner = Scanner::new("1\n  2");
    assert_eq!(
        scanner.next().unwrap().unwrap(),
        TokenWithPosition::new(num(1.0), Position::new(1, 1))
    );
    assert_eq!(
        scanner.next().unwrap().unwrap(),
        TokenWithPosition::new(num(2.0), Position::new(2, 3))
    );
    assert!(scanner.next().is_none());
}
