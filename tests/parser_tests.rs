use lox::ast::{Expr, Stmt};
use lox::parser::Parser;
use lox::scanner::Scanner;
use lox::token::{Token, TokenType};

fn get_parser(input: String) -> Parser {
    let mut scanner = Scanner::new(input);
    let tokens = scanner.scan_tokens();
    if let None = tokens {
        panic!("tokens are none.");
    }

    Parser::new(tokens.unwrap().to_vec())
}

#[test]
fn test_binary_expr() {
    let input = "10 + 12".to_string();
    let mut parser = get_parser(input);
    let expected: Vec<Stmt> = vec![
        Stmt::Expression(
            Box::new(
                Expr::Binary(
                    Box::new(Expr::Literal("10".to_string())),
                    Token::new(TokenType::Plus, "+".to_string(), 1),
                    Box::new(Expr::Literal("12".to_string()))
                    )
                )
            )
    ];

    assert_eq!(parser.parse().unwrap(), expected);
}

#[test]
fn test_literal_expr() {
    let input = "10".to_string();
    let mut parser = get_parser(input);
    let expected: Vec<Stmt> = vec![
        Stmt::Expression(Box::new(Expr::Literal("10".to_string())))
    ];

    assert_eq!(parser.parse().unwrap(), expected);
}

#[test]
fn test_grouping_expr() {
    let input = "(10)".to_string();
    let mut parser = get_parser(input);
    let expected: Vec<Stmt> = vec![
        Stmt::Expression(Box::new(Expr::Grouping(Box::new(Expr::Literal("10".to_string())))))
    ];

    assert_eq!(parser.parse().unwrap(), expected);
}

#[test]
fn test_unary_expr() {
    let input = "!true".to_string();
    let mut parser = get_parser(input);
    let expected: Vec<Stmt> = vec![
        Stmt::Expression(
            Box::new(
                Expr::Unary(
                    Token::new(TokenType::Bang, "!".to_string(), 1),
                    Box::new(Expr::Literal("true".to_string()))
                    )
                )
            )
    ];

    assert_eq!(parser.parse().unwrap(), expected);
}

#[test]
fn test_operator_precedence() {
    let input1 = "(10 + 12) / 2";
    let input2 = "10 + 12 / 2";
    let mut parser1 = get_parser(input1.to_string());
    let mut parser2 = get_parser(input2.to_string());

    assert_ne!(parser1.parse(), parser2.parse());
}

#[test]
fn test_ternary() {
    let input = "true ? 1 : 2".to_string();
    let mut parser = get_parser(input);

    let expected: Vec<Stmt> = vec![
        Stmt::Expression(
            Box::new(Expr::Ternary(
                Box::new(Expr::Literal("true".to_string())),
                Box::new(Expr::Literal("1".to_string())),
                Box::new(Expr::Literal("2".to_string())),
            ))
        )
    ];

    assert_eq!(parser.parse().unwrap(), expected);
}

#[test]
fn factor_binds_tighter_than_term() {
    let mut parser = get_parser("10 + 12 / 2".to_string());
    let expected = vec![Stmt::Expression(Box::new(Expr::Binary(
        Box::new(Expr::Literal("10".to_string())),
        Token::new(TokenType::Plus, "+".to_string(), 1),
        Box::new(Expr::Binary(
            Box::new(Expr::Literal("12".to_string())),
            Token::new(TokenType::Slash, "/".to_string(), 1),
            Box::new(Expr::Literal("2".to_string())),
        )),
    )))];
    assert_eq!(parser.parse().unwrap(), expected);
}

#[test]
fn invalid_assignment_target_fails() {
    let mut parser = get_parser("1 = 2;".to_string());
    assert_eq!(parser.parse(), None);
}

#[test]
fn missing_right_operand_of_plus_fails() {
    let mut parser = get_parser("1 + ;".to_string());
    assert_eq!(parser.parse(), None);
}

#[test]
fn for_loop_becomes_while_in_block() {
    let mut parser = get_parser("for (var i = 0; i < 2; i = i + 1) print i;".to_string());
    let stmts = parser.parse().unwrap();
    assert_eq!(stmts.len(), 1);
    match &stmts[0] {
        Stmt::Block(items) => {
            assert_eq!(items.len(), 2);
            assert!(matches!(*items[0], Stmt::Let(_, Some(_))));
            match &*items[1] {
                Stmt::While(_, body) => match &**body {
                    Stmt::Block(inner) => assert_eq!(inner.len(), 2),
                    _ => panic!("loop body is not a block"),
                },
                _ => panic!("second item is not a while loop"),
            }
        },
        _ => panic!("for loop is not a block"),
    }
}

#[test]
fn extra_semicolons_are_skipped() {
    let mut parser = get_parser("print 1;;; var a = 2;;".to_string());
    assert_eq!(parser.parse().unwrap().len(), 2);
}

#[test]
fn empty_program_parses_to_nothing() {
    let mut parser = get_parser("".to_string());
    assert_eq!(parser.parse().unwrap(), vec![]);
}

#[test]
fn missing_right_operand_fails_at_every_level() {
    for src in ["1 == ;", "1 < ;", "1 * ;", "true and ;", "true or ;"] {
        let mut parser = get_parser(src.to_string());
        assert_eq!(parser.parse(), None, "{}", src);
    }
}

#[test]
fn trailing_semicolons_after_expression_statement() {
    let mut parser = get_parser("1;;".to_string());
    assert_eq!(parser.parse().unwrap(), vec![Stmt::Expression(Box::new(Expr::Literal("1".to_string())))]);
}

#[test]
fn unclosed_grouping_fails() {
    let mut parser = get_parser("(10".to_string());
    assert_eq!(parser.parse(), None);
}

#[test]
fn unclosed_block_fails() {
    let mut parser = get_parser("{ print 1;".to_string());
    assert_eq!(parser.parse(), None);
}

#[test]
fn conditions_need_parentheses() {
    let mut parser = get_parser("while true print 1;".to_string());
    assert_eq!(parser.parse(), None);
    let mut parser = get_parser("if (true print 1;".to_string());
    assert_eq!(parser.parse(), None);
}

#[test]
fn error_line_points_at_the_failure() {
    let mut parser = get_parser("print 1;\nprint (2;".to_string());
    assert_eq!(parser.parse(), None);
    assert_eq!(parser.error_line(), 2);
    let mut parser = get_parser("print 1 +;\n\n\nprint 2;".to_string());
    assert_eq!(parser.parse(), None);
    assert_eq!(parser.error_line(), 1);
}

#[test]
fn broken_for_clauses_fail() {
    for src in [
        "for (; 1 + ; ) print 1;",
        "for (;; 1 +) print 1;",
        "for (var = 1;;) print 1;",
        "for (1 + ;;) print 1;",
    ] {
        let mut parser = get_parser(src.to_string());
        assert_eq!(parser.parse(), None, "{}", src);
    }
}

#[test]
fn for_initializer_takes_one_semicolon() {
    let mut parser = get_parser("for (var i = 0;; i = i + 1) print i;".to_string());
    let stmts = parser.parse().unwrap();
    match &stmts[0] {
        Stmt::Block(items) => match &*items[1] {
            Stmt::While(cond, _) => assert_eq!(*cond, Expr::Literal("true".to_string())),
            _ => panic!("second item is not a while loop"),
        },
        _ => panic!("for loop is not a block"),
    }
}
