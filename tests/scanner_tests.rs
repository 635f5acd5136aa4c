use lox::scanner::{LexErrorKind, Scanner};
use lox::token::{Token, TokenType};

#[test]
fn test_scan_tokens() {
    let source = "(){}+-=!=!*/
        if else ident return
            /* multiline comment */
        ".to_string();
    let mut scanner = Scanner::new(source);
    let tokens = scanner.scan_tokens();
    assert!(tokens.is_some());
    let tokens = tokens.unwrap();

    let expected = vec![
        Token::new(TokenType::LeftParen, "(".to_string(), 1),
        Token::new(TokenType::RightParen, ")".to_string(), 1),
        Token::new(TokenType::LeftBrace, "{".to_string(), 1),
        Token::new(TokenType::RightBrace, "}".to_string(), 1),
        Token::new(TokenType::Plus, "+".to_string(), 1),
        Token::new(TokenType::Minus, "-".to_string(), 1),
        Token::new(TokenType::Equal, "=".to_string(), 1),
        Token::new(TokenType::BangEqual, "!=".to_string(), 1),
        Token::new(TokenType::Bang, "!".to_string(), 1),
        Token::new(TokenType::Star, "*".to_string(), 1),
        Token::new(TokenType::Slash, "/".to_string(), 1),
        Token::new(TokenType::If, "if".to_string(), 2),
        Token::new(TokenType::Else, "else".to_string(), 2),
        Token::new(TokenType::Identifier, "ident".to_string(), 2),
        Token::new(TokenType::Identifier, "return".to_string(), 2),
        Token::new(TokenType::EOF, "\0".to_string(), 4),
    ];
    assert_eq!(tokens, expected);
}

fn kinds(src: &str) -> Option<Vec<TokenType>> {
    let mut scanner = Scanner::new(src.to_string());
    scanner.scan_tokens().map(|v| v.iter().map(|t| t.token_type).collect())
}

#[test]
fn punctuation_scans_in_order_on_its_line() {
    let mut scanner = Scanner::new("(){}+-=!=!*/".to_string());
    let tokens = scanner.scan_tokens().unwrap();
    let expected = vec![
        TokenType::LeftParen, TokenType::RightParen, TokenType::LeftBrace, TokenType::RightBrace,
        TokenType::Plus, TokenType::Minus, TokenType::Equal, TokenType::BangEqual, TokenType::Bang,
        TokenType::Star, TokenType::Slash, TokenType::EOF,
    ];
    let got: Vec<TokenType> = tokens.iter().map(|t| t.token_type).collect();
    assert_eq!(got, expected);
    assert!(tokens.iter().all(|t| t.line == 1));
}

#[test]
fn return_is_an_identifier() {
    assert_eq!(kinds("return fun class"), Some(vec![
        TokenType::Identifier, TokenType::Identifier, TokenType::Identifier, TokenType::EOF,
    ]));
}

#[test]
fn strings_span_lines_and_take_three_quotes() {
    let mut scanner = Scanner::new("\"a\nb\" 'c' `d`".to_string());
    let tokens = scanner.scan_tokens().unwrap();
    assert_eq!(tokens[0], Token::new(TokenType::String, "a\nb".to_string(), 2));
    assert_eq!(tokens[1], Token::new(TokenType::String, "c".to_string(), 2));
    assert_eq!(tokens[2], Token::new(TokenType::String, "d".to_string(), 2));
}

#[test]
fn unterminated_string_fails_with_its_line() {
    let mut scanner = Scanner::new("print 1;\n\"abc".to_string());
    assert!(scanner.scan_tokens().is_none());
    assert_eq!(scanner.error_line(), Some(2));
}

#[test]
fn unexpected_character_fails() {
    let mut scanner = Scanner::new("var x = 1;\n\n@".to_string());
    assert!(scanner.scan_tokens().is_none());
    assert_eq!(scanner.error_line(), Some(3));
}

#[test]
fn numbers_and_comments() {
    let mut scanner = Scanner::new("12.5 7. // note\n3".to_string());
    let tokens = scanner.scan_tokens().unwrap();
    assert_eq!(tokens[0], Token::new(TokenType::Number, "12.5".to_string(), 1));
    assert_eq!(tokens[1], Token::new(TokenType::Number, "7".to_string(), 1));
    assert_eq!(tokens[2].token_type, TokenType::Dot);
    assert_eq!(tokens[3], Token::new(TokenType::Number, "3".to_string(), 2));
    assert_eq!(tokens[4], Token::new(TokenType::EOF, "\0".to_string(), 2));
}

#[test]
fn empty_source_gives_end_token() {
    assert_eq!(kinds(""), Some(vec![TokenType::EOF]));
}

#[test]
fn two_char_operators() {
    assert_eq!(kinds("<= >= == < > ="), Some(vec![
        TokenType::LessEqual, TokenType::GreaterEqual, TokenType::EqualEqual,
        TokenType::Less, TokenType::Greater, TokenType::Equal, TokenType::EOF,
    ]));
}

#[test]
fn newlines_in_block_comment_are_counted() {
    let mut scanner = Scanner::new("/*\n*/".to_string());
    let tokens = scanner.scan_tokens().unwrap();
    assert_eq!(tokens, vec![Token::new(TokenType::EOF, "\0".to_string(), 2)]);
}

#[test]
fn block_comment_ends_only_at_star_slash() {
    let mut scanner = Scanner::new("/* a/b */ 1".to_string());
    let tokens = scanner.scan_tokens().unwrap();
    assert_eq!(tokens[0], Token::new(TokenType::Number, "1".to_string(), 1));
    assert_eq!(tokens.len(), 2);
}

#[test]
fn nul_character_is_a_lexical_error() {
    let mut scanner = Scanner::new("print 1;\0 print 2;".to_string());
    assert!(scanner.scan_tokens().is_none());
    assert_eq!(scanner.error_line(), Some(1));
}

#[test]
fn unterminated_block_comment_runs_to_end() {
    assert_eq!(kinds("1 /* open"), Some(vec![TokenType::Number, TokenType::EOF]));
}

#[test]
fn lexical_error_kinds() {
    let mut scanner = Scanner::new("\"abc".to_string());
    assert!(scanner.scan_tokens().is_none());
    assert_eq!(scanner.error_kind(), Some(LexErrorKind::UnterminatedString));
    let mut scanner = Scanner::new("#".to_string());
    assert!(scanner.scan_tokens().is_none());
    assert_eq!(scanner.error_kind(), Some(LexErrorKind::UnexpectedCharacter));
}
