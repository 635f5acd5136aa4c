use lox::interpreter::{Interpreter, NumOp, RuntimeErrorKind, is_equals, is_truthy, text_of_bool};
use lox::parser::Parser;
use lox::scanner::Scanner;
use lox::environment::Environment;
use lox::token::{Token, TokenType};

fn numbers(op: NumOp, a: String, b: String) -> Option<String> {
    let x = a.parse::<f64>().ok()?;
    if op == NumOp::Negate {
        return Some((-x).to_string());
    }
    let y = b.parse::<f64>().ok()?;
    Some(match op {
        NumOp::Add => (x + y).to_string(),
        NumOp::Subtract => (x - y).to_string(),
        NumOp::Multiply => (x * y).to_string(),
        NumOp::Divide => (x / y).to_string(),
        NumOp::Greater => (x > y).to_string(),
        NumOp::GreaterEqual => (x >= y).to_string(),
        NumOp::Less => (x < y).to_string(),
        NumOp::LessEqual => (x <= y).to_string(),
        NumOp::Negate => (-x).to_string(),
    })
}

fn run(src: &str) -> (Option<()>, Vec<String>, Interpreter) {
    let mut scanner = Scanner::new(src.to_string());
    let tokens = scanner.scan_tokens().unwrap();
    let mut parser = Parser::new(tokens.to_vec());
    let statements = parser.parse().unwrap();
    let mut interpreter = Interpreter::new();
    let result = interpreter.interpret(statements, &numbers);
    let out = interpreter.output().clone();
    (result, out, interpreter)
}

#[test]
fn test_print_statement() {
    let input = "print 10 + 12".to_string();
    let mut scanner = Scanner::new(input);
    let tokens = scanner.scan_tokens().unwrap();
    let mut parser = Parser::new(tokens.to_vec());
    let statements = parser.parse().unwrap();
    let mut interpreter = Interpreter::new();
    let result = interpreter.interpret(statements, &numbers);

    assert_eq!(result, Some(()));
}

#[test]
fn test_runtime_error() {
    let input = "print -false".to_string();
    let mut scanner = Scanner::new(input);
    let tokens = scanner.scan_tokens().unwrap();
    let mut parser = Parser::new(tokens.to_vec());
    let statements = parser.parse().unwrap();
    let mut interpreter = Interpreter::new();
    let result = interpreter.interpret(statements, &numbers);

    assert_eq!(result, None);
}

#[test]
fn test_block_statements() {
    let input = "
        var x = 45;
        {
            var y = 45;
            print x + y;
        }
        print x;
        print y;
    ".to_string();

    let mut scanner = Scanner::new(input);
    let tokens = scanner.scan_tokens().unwrap();
    let mut parser = Parser::new(tokens.to_vec());
    let statements = parser.parse().unwrap();
    let mut interpreter = Interpreter::new();
    let result = interpreter.interpret(statements, &numbers);

    assert_eq!(result, None);
}

#[test]
fn arithmetic_prints_double_results() {
    let (r, out, _) = run("print 10 + 12; print 7 - 10; print 3 * 4; print 1 / 4; print 0.1 + 0.2;");
    assert_eq!(r, Some(()));
    assert_eq!(out, vec!["22", "-3", "12", "0.25", "0.30000000000000004"]);
}

#[test]
fn ternary_prints_then_branch() {
    let (r, out, _) = run("print true ? 1 : 2;");
    assert_eq!(r, Some(()));
    assert_eq!(out, vec!["1"]);
}

#[test]
fn inner_variable_gone_after_block() {
    let (r, out, interp) = run("var x = 45; { var y = 45; print x + y; } print x; print y; print 1;");
    assert_eq!(r, None);
    assert_eq!(out, vec!["90", "45"]);
    assert_eq!(interp.errors()[0].kind, RuntimeErrorKind::UndefinedVariable);
}

#[test]
fn negating_false_prints_nothing() {
    let (r, out, interp) = run("print -false;");
    assert_eq!(r, None);
    assert!(out.is_empty());
    assert_eq!(interp.errors()[0].kind, RuntimeErrorKind::OperandMustBeNumber);
}

#[test]
fn redeclaration_shadows() {
    let (r, out, _) = run("var x = 1; var x = 2; print x; { var y = 1; var y = 3; print y; }");
    assert_eq!(r, Some(()));
    assert_eq!(out, vec!["2", "3"]);
}

#[test]
fn plus_concatenates_non_numbers() {
    let (r, out, _) = run("print \"ab\" + \"cd\"; print 1 + \"x\";");
    assert_eq!(r, Some(()));
    assert_eq!(out, vec!["abcd", "1x"]);
}

#[test]
fn comparison_needs_numbers() {
    let (r, out, interp) = run("print 1 < 2; print \"a\" < 1;");
    assert_eq!(r, None);
    assert_eq!(out, vec!["true"]);
    assert_eq!(interp.errors()[0].kind, RuntimeErrorKind::OperandsMustBeNumbers);
}

#[test]
fn equality_is_textual_and_nil_only_equals_nil() {
    let (_, out, _) = run("print nil == nil; print nil == 1; print 1 == 1.0; print \"a\" != \"a\";");
    assert_eq!(out, vec!["true", "false", "false", "false"]);
}

#[test]
fn logical_operators_return_deciding_value() {
    let (_, out, _) = run("print nil or 3; print 0 and 4; print false and 5;");
    assert_eq!(out, vec!["3", "4", "false"]);
}

#[test]
fn loops_and_assignment() {
    let (r, out, _) = run("var s = 0; for (var i = 0; i < 4; i = i + 1) s = s + i; print s; var n = 3; while (n > 0) n = n - 1; print n;");
    assert_eq!(r, Some(()));
    assert_eq!(out, vec!["6", "0"]);
}

#[test]
fn if_else_chooses_by_truthiness() {
    let (_, out, _) = run("if (0) print \"zero\"; else print \"no\"; if (nil) print 1; else print 2;");
    assert_eq!(out, vec!["zero", "2"]);
}

#[test]
fn assignment_to_undeclared_fails() {
    let (r, _, interp) = run("y = 1;");
    assert_eq!(r, None);
    assert_eq!(interp.errors()[0].kind, RuntimeErrorKind::UndefinedVariable);
}

#[test]
fn failed_initializer_defines_nil() {
    let (r, out, _) = run("var a = -\"s\"; print a;");
    assert_eq!(r, Some(()));
    assert_eq!(out, vec!["nil"]);
}

#[test]
fn truthiness_and_equality_helpers() {
    assert!(!is_truthy(&"nil".to_string()));
    assert!(!is_truthy(&"false".to_string()));
    assert!(is_truthy(&"0".to_string()));
    assert!(is_truthy(&"".to_string()));
    assert!(is_equals(&"nil".to_string(), &"nil".to_string()));
    assert!(!is_equals(&"nil".to_string(), &"x".to_string()));
    assert!(!is_equals(&"1".to_string(), &"1.0".to_string()));
    assert_eq!(text_of_bool(true), "true");
}

#[test]
fn environment_scopes() {
    let name = |s: &str| Token::new(TokenType::Identifier, s.to_string(), 1);
    let mut env = Environment::new();
    env.define("x".to_string(), "1".to_string());
    let mut inner = Environment::with_enclosing(env);
    inner.define("y".to_string(), "2".to_string());
    assert_eq!(inner.get(name("x")), Some("1".to_string()));
    assert_eq!(inner.assign(name("x"), "5".to_string()), Some(()));
    assert_eq!(inner.assign(name("z"), "5".to_string()), None);
    inner.exit_scope();
    assert_eq!(inner.get(name("x")), Some("5".to_string()));
    assert_eq!(inner.get(name("y")), None);
}

#[test]
fn runtime_error_carries_its_line() {
    let (r, _, interp) = run("var a = 1;\nprint a;\nprint a - \"x\";\nprint 2;");
    assert_eq!(r, None);
    assert_eq!(interp.errors().len(), 1);
    assert_eq!(interp.errors()[0].kind, RuntimeErrorKind::OperandsMustBeNumbers);
    assert_eq!(interp.errors()[0].line, 3);
}
