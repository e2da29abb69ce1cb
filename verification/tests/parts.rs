use lox::compiler::control_flow::{extract_value, ok, return_value, ControlFlow};
use lox::compiler::env::{Env, Frame};
use lox::compiler::error::{LoxError, LoxErrorKind};
use lox::compiler::expr::Object;
use lox::compiler::interpreter::Interpreter;
use lox::compiler::lox_function::Callable;
use lox::compiler::natives::ClockFunction;
use lox::compiler::number::Number;
use lox::compiler::operators::{binary_op, unary_op};
use lox::compiler::parser::Parser;
use lox::compiler::scanner::Scanner;
use lox::compiler::text::{chars_of, decimal_string, same_text, string_of};
use lox::compiler::token::{Token, TokenType};

fn token(token_type: TokenType, lexeme: &str, line: usize) -> Token {
    Token::new(token_type, lexeme.to_string(), line, None)
}

fn number(n: i64) -> Object {
    Object::Number(Number::from_integer(n).unwrap())
}

fn text(s: &str) -> Object {
    Object::String(s.to_string())
}

#[test]
fn decimal_numerals() {
    assert_eq!(decimal_string(0), "0");
    assert_eq!(decimal_string(9), "9");
    assert_eq!(decimal_string(10), "10");
    assert_eq!(decimal_string(1234567890), "1234567890");
    assert_eq!(decimal_string(u64::MAX), "18446744073709551615");
}

#[test]
fn text_helpers() {
    assert!(same_text("while", "while"));
    assert!(!same_text("while", "whale"));
    assert!(!same_text("while", "whil"));
    assert!(same_text("", ""));
    assert_eq!(chars_of("a\u{e9}z"), vec!['a', '\u{e9}', 'z']);
    assert_eq!(string_of(&vec!['h', 'e', 'l', 'l', 'o'], 1, 4), "ell");
    assert_eq!(string_of(&vec!['h', 'e', 'l', 'l', 'o'], 2, 2), "");
}

#[test]
fn token_types_from_their_spelling() {
    assert_eq!(TokenType::from_str("("), Ok(TokenType::LPAREN));
    assert_eq!(TokenType::from_str("!="), Ok(TokenType::BANG_EQUAL));
    assert_eq!(TokenType::from_str("<="), Ok(TokenType::LESS_EQUAL));
    assert_eq!(TokenType::from_str("?"), Ok(TokenType::QUEST));
    assert_eq!(TokenType::from_str("while"), Ok(TokenType::WHILE));
    assert_eq!(TokenType::from_str("nil"), Ok(TokenType::NIL));
    assert_eq!(TokenType::from_str("EOF"), Ok(TokenType::EOF));
    assert_eq!(TokenType::from_str("While"), Err(()));
    assert_eq!(TokenType::from_str("foo"), Err(()));
    assert_eq!(TokenType::from_str(""), Err(()));
    assert_eq!(TokenType::keyword("fun"), Some(TokenType::FUN));
    assert_eq!(TokenType::keyword("EOF"), None);
    assert_eq!(TokenType::keyword("+"), None);
    assert_eq!(TokenType::symbol("+"), Some(TokenType::PLUS));
    assert_eq!(TokenType::symbol("fun"), None);
    assert_eq!(TokenType::GREATER_EQUAL.name(), "GREATER_EQUAL");
}

#[test]
fn how_tokens_are_written() {
    let plain = token(TokenType::IDENTIFIER, "count", 3);
    assert_eq!(plain.to_string(), "IDENTIFIER count ");
    let literal = Token::new(TokenType::NUMBER, "1.50".to_string(), 1, Some("1.50".to_string()));
    assert_eq!(literal.to_string(), "NUMBER 1.50 1.50");
    let copy = literal.clone();
    assert_eq!(copy.lexeme, "1.50");
    assert_eq!(copy.literal, Some("1.50".to_string()));
    assert_eq!(copy.line, 1);
}

#[test]
fn how_errors_are_written() {
    let at = token(TokenType::PLUS, "+", 12);
    assert_eq!(
        LoxError::new_runtime(at.clone(), "Bad operands").to_string(),
        "[line 12] Runtime Error at '+': Bad operands"
    );
    assert_eq!(
        LoxError::new_parse(at.clone(), "Expect expression").to_string(),
        "[line 12] Error at '+': Expect expression"
    );
    assert_eq!(
        LoxError::new_parse(token(TokenType::EOF, "", 4), "Expect ';'").to_string(),
        "[line 4] Error at end: Expect ';'"
    );
    assert_eq!(LoxError::new_from_line(7, "Unterminated string.").to_string(), "[line 7] Error: Unterminated string.");
    assert_eq!(LoxError::new_internal("oops").to_string(), "Internal Error: oops");
    assert_eq!(LoxError::new_warning("careful").to_string(), "Warning: careful");
    let bare = LoxError { kind: LoxErrorKind::Runtime, message: "m".to_string(), token: None, line: None };
    assert_eq!(bare.to_string(), "Runtime Error: m");
    let bare = LoxError { kind: LoxErrorKind::Parse, message: "m".to_string(), token: None, line: None };
    assert_eq!(bare.to_string(), "Parse Error: m");
}

#[test]
fn what_the_constructors_of_errors_set() {
    let at = token(TokenType::PLUS, "+", 12);
    let e = LoxError::new_runtime(at.clone(), "r");
    assert_eq!((e.kind, e.message.as_str(), e.line), (LoxErrorKind::Runtime, "r", None));
    assert_eq!(e.token.unwrap().lexeme, "+");
    assert!(e_is_fatal(LoxErrorKind::Runtime));
    let e = LoxError::new_parse(at, "p");
    assert_eq!((e.kind, e.message.as_str(), e.line), (LoxErrorKind::Parse, "p", None));
    assert!(e.token.is_some());
    let e = LoxError::new_from_line(3, "l");
    assert_eq!((e.kind, e.message.as_str(), e.line), (LoxErrorKind::Parse, "l", Some(3)));
    assert!(e.token.is_none());
    let e = LoxError::new_internal("i");
    assert_eq!((e.kind, e.message.as_str(), e.line), (LoxErrorKind::Internal, "i", None));
    assert!(e.token.is_none());
    let e = LoxError::new_warning("w");
    assert_eq!((e.kind, e.message.as_str(), e.line), (LoxErrorKind::Warning, "w", None));
    assert!(!e.is_fatal());
}

fn e_is_fatal(kind: LoxErrorKind) -> bool {
    LoxError { kind, message: String::new(), token: None, line: None }.is_fatal()
}

#[test]
fn values() {
    assert!(!Object::Nil.is_truthy());
    assert!(!Object::Boolean(false).is_truthy());
    assert!(Object::Boolean(true).is_truthy());
    assert!(number(0).is_truthy());
    assert!(text("").is_truthy());
    assert!(Object::Function(0).is_truthy());
    assert!(Object::Nil == Object::Nil);
    assert!(number(1) == number(1));
    assert!(number(1) != number(2));
    assert!(text("a") == text("a"));
    assert!(text("1") != number(1));
    assert!(Object::Function(1) == Object::Function(1));
    assert!(Object::Function(1) != Object::Function(2));
    assert!(Object::Nil != Object::Boolean(false));
    assert_eq!(Object::Nil.to_string(), "nil");
    assert_eq!(Object::Boolean(true).to_string(), "true");
    assert_eq!(number(-12).to_string(), "-12");
    assert_eq!(text("x y").to_string(), "x y");
    assert_eq!(Object::Function(3).to_string(), "<fn>");
    assert!(text("copy").clone() == text("copy"));
}

#[test]
fn operators() {
    let plus = token(TokenType::PLUS, "+", 1);
    assert!(binary_op(&plus, &number(1), &number(2)).unwrap() == number(3));
    assert!(binary_op(&plus, &text("a"), &number(2)).unwrap() == text("a2"));
    assert!(binary_op(&plus, &number(2), &text("a")).unwrap() == text("2a"));
    let e = binary_op(&plus, &Object::Nil, &number(2)).unwrap_err();
    assert_eq!(e.kind, LoxErrorKind::Runtime);
    assert_eq!(e.token.unwrap().lexeme, "+");
    let slash = token(TokenType::SLASH, "/", 1);
    assert_eq!(binary_op(&slash, &number(1), &number(0)).unwrap_err().message, "Division by zero");
    let equal = token(TokenType::EQUAL_EQUAL, "==", 1);
    assert!(binary_op(&equal, &Object::Nil, &text("nil")).unwrap() == Object::Boolean(false));
    let odd = token(TokenType::COMMA, ",", 1);
    assert_eq!(binary_op(&odd, &number(1), &number(2)).unwrap_err().message, "Unknown binary operator: COMMA");
    assert_eq!(unary_op(&odd, &number(1)).unwrap_err().message, "Unknown unary operator: COMMA");
    let minus = token(TokenType::MINUS, "-", 1);
    assert!(unary_op(&minus, &number(3)).unwrap() == number(-3));
    assert!(binary_op(&minus, &number(1), &number(3)).unwrap() == number(-2));
    let least = Object::Number(Number { millionths: i64::MIN });
    assert_eq!(unary_op(&minus, &least).unwrap_err().message, "Number out of range");
    let bang = token(TokenType::BANG, "!", 1);
    assert!(unary_op(&bang, &Object::Nil).unwrap() == Object::Boolean(true));
}

#[test]
fn one_scope() {
    let mut env = Frame::new();
    assert!(env.lookup(&"a".to_string()).is_none());
    env.define("a".to_string(), number(1));
    env.define("b".to_string(), number(2));
    env.define("a".to_string(), number(3));
    assert!(env.lookup(&"a".to_string()).unwrap() == number(3));
    assert!(env.lookup(&"b".to_string()).unwrap() == number(2));
    assert!(env.update(&"b".to_string(), number(5)));
    assert!(!env.update(&"c".to_string(), number(5)));
    assert!(env.lookup(&"b".to_string()).unwrap() == number(5));
    assert!(env.lookup(&"c".to_string()).is_none());
    env.enclose(Some(4));
    assert_eq!(env.enclosing, Some(4));
}

#[test]
fn chained_scopes() {
    let mut store = Env::new();
    let global = store.new_global();
    let middle = store.new_enclosed(global);
    let inner = store.new_enclosed(middle);
    let sibling = store.new_enclosed(middle);
    assert_eq!(store.len(), 4);
    let a = token(TokenType::IDENTIFIER, "a", 1);
    let b = token(TokenType::IDENTIFIER, "b", 1);
    store.define(global, "a".to_string(), number(1));
    store.define(middle, "b".to_string(), number(2));
    store.define(inner, "a".to_string(), number(3));

    assert!(store.get(inner, &a.lexeme, &a).unwrap() == number(3));
    assert!(store.get(sibling, &a.lexeme, &a).unwrap() == number(1));
    assert!(store.get(sibling, &b.lexeme, &b).unwrap() == number(2));
    let e = store.get(global, &b.lexeme, &b).unwrap_err();
    assert_eq!(e.kind, LoxErrorKind::Runtime);
    assert_eq!(e.message, "Undefined variable 'b'.");

    assert_eq!(store.ancestor(inner, 0), Some(inner));
    assert_eq!(store.ancestor(inner, 1), Some(middle));
    assert_eq!(store.ancestor(inner, 2), Some(global));
    assert_eq!(store.ancestor(inner, 3), None);
    assert_eq!(store.ancestor(9, 0), None);
    assert_eq!(store.owner(inner, &b.lexeme), Some(middle));
    assert_eq!(store.owner(global, &b.lexeme), None);

    assert!(store.get_at(inner, 0, &a.lexeme).unwrap() == number(3));
    assert!(store.get_at(inner, 2, &a.lexeme).unwrap() == number(1));
    let e = store.get_at(inner, 1, &a.lexeme).unwrap_err();
    assert_eq!(e.kind, LoxErrorKind::Internal);
    assert_eq!(e.message, "undefined var: a");
    assert_eq!(store.get_at(inner, 7, &a.lexeme).unwrap_err().kind, LoxErrorKind::Internal);

    // assignment changes the nearest binding, and never makes one
    assert!(store.assign(sibling, &a, number(10)).unwrap() == number(10));
    assert!(store.get(global, &a.lexeme, &a).unwrap() == number(10));
    assert!(store.get(inner, &a.lexeme, &a).unwrap() == number(3));
    let c = token(TokenType::IDENTIFIER, "c", 1);
    assert_eq!(store.assign(inner, &c, number(1)).unwrap_err().message, "Undefined variable 'c'.");
    assert!(store.get(inner, &c.lexeme, &c).is_err());
    assert!(store.assign_at(inner, 1, &b, number(20)).unwrap() == number(20));
    assert!(store.get(sibling, &b.lexeme, &b).unwrap() == number(20));
    assert_eq!(store.assign_at(inner, 0, &b, number(1)).unwrap_err().kind, LoxErrorKind::Internal);
    assert!(store.get_at(inner, 0, &b.lexeme).is_err());
}

#[test]
fn callables() {
    let clock = Callable::Native(ClockFunction);
    assert_eq!(clock.arity(), 0);
    assert_eq!(clock.to_string(), "<native fn clock>");
    let now = Number { millionths: 2_000_000 };
    assert!(ClockFunction.call(now) == Object::Number(now));
}

#[test]
fn a_wrong_distance_is_an_internal_error() {
    let mut scanner = Scanner::new("{ var a = 1; print a; }".to_string());
    scanner.scan_tokens();
    let mut parser = Parser::new(&scanner.tokens);
    let program = parser.parse().unwrap();
    let mut interpreter = Interpreter::new();
    // the `a` that is printed is the seventh token
    assert_eq!(scanner.tokens[7].lexeme, "a");
    interpreter.resolve(7, 1);
    let e = interpreter.interpret(program).unwrap_err();
    assert_eq!(e.kind, LoxErrorKind::Internal);
    assert_eq!(e.message, "undefined var: a");
    assert_eq!(interpreter.env, interpreter.globals);
}

#[test]
fn the_limits_of_a_run_can_be_set() {
    let mut scanner = Scanner::new("var i = 0; while (true) { i = i + 1; print i; }".to_string());
    scanner.scan_tokens();
    let mut parser = Parser::new(&scanner.tokens);
    let program = parser.parse().unwrap();
    let mut interpreter = Interpreter::new();
    interpreter.set_limits(100, 3);
    let e = interpreter.interpret(program).unwrap_err();
    assert_eq!(e.kind, LoxErrorKind::Runtime);
    assert_eq!(e.message, "Loop limit exceeded.");
    assert_eq!(interpreter.output, vec!["1", "2", "3"]);

    let mut scanner = Scanner::new("print ((((1))));".to_string());
    scanner.scan_tokens();
    let mut parser = Parser::new(&scanner.tokens);
    let program = parser.parse().unwrap();
    let mut shallow = Interpreter::new();
    shallow.set_limits(5, 3);
    assert_eq!(shallow.interpret(program).unwrap_err().message, "Stack overflow.");
    let mut scanner = Scanner::new("print ((((1))));".to_string());
    scanner.scan_tokens();
    let mut parser = Parser::new(&scanner.tokens);
    let program = parser.parse().unwrap();
    let mut deeper = Interpreter::new();
    deeper.set_limits(6, 3);
    assert!(deeper.interpret(program).is_ok());
    assert_eq!(deeper.output, vec!["1"]);
}

#[test]
fn how_a_step_ends() {
    match ok(7usize) {
        Ok((value, ControlFlow::Normal)) => assert_eq!(value, 7),
        _ => panic!("the step did not run to its end"),
    }
    match return_value(number(3)) {
        Ok((Object::Nil, ControlFlow::Return(value))) => assert!(value == number(3)),
        _ => panic!("the step did not return"),
    }
    assert_eq!(extract_value(ok(7usize)).unwrap(), 7);
    assert!(extract_value(return_value(number(3))).unwrap() == Object::Nil);
    let failed: Result<(usize, ControlFlow), LoxError> = Err(LoxError::new_internal("x"));
    assert_eq!(extract_value(failed).unwrap_err().message, "x");
}

#[test]
fn what_a_block_declares_ends_with_the_block() {
    let source = "var a = 1; { var b = 2; var a = 3; fun f(p) { var q = p; } f(b); a = 4; } missing;";
    let mut scanner = Scanner::new(source.to_string());
    scanner.scan_tokens();
    let mut parser = Parser::new(&scanner.tokens);
    let program = parser.parse().unwrap();
    let mut interpreter = Interpreter::new();
    let before = interpreter.store.len();
    // the run ends with an error, behind the block
    assert!(interpreter.interpret(program).is_err());
    assert_eq!(interpreter.env, interpreter.globals);
    let globals = &interpreter.store.frames[interpreter.globals];
    let mut names = globals.names.clone();
    names.sort();
    assert_eq!(names, vec!["a", "clock"]);
    // the outer `a` kept its value: the block assigned to its own `a`
    assert!(globals.lookup(&"a".to_string()).unwrap() == number(1));
    // the block and the call had scopes of their own
    assert_eq!(interpreter.store.len(), before + 2);
}
