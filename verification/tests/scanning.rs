use lox::compiler::scanner::Scanner;
use lox::compiler::token::{Token, TokenType};

fn scan(source: &str) -> Scanner {
    let mut scanner = Scanner::new(source.to_string());
    scanner.scan_tokens();
    scanner
}

fn kinds(tokens: &Vec<Token>) -> Vec<TokenType> {
    tokens.iter().map(|t| t.token_type).collect()
}

#[test]
fn literals_of_tokens() {
    let scanner = scan("12.50 \"a\\nb\" name");
    assert_eq!(scanner.tokens[0].literal, Some("12.50".to_string()));
    assert_eq!(scanner.tokens[1].literal, Some("a\nb".to_string()));
    assert_eq!(scanner.tokens[1].lexeme, "\"a\\nb\"");
    assert_eq!(scanner.tokens[2].literal, None);
    assert_eq!(scanner.tokens[3].lexeme, "");
}

#[test]
fn escapes() {
    let scanner = scan(r#""\\ \" \n \r \t""#);
    assert!(scanner.errors.is_empty());
    assert_eq!(scanner.tokens[0].literal, Some("\\ \" \n \r \t".to_string()));
    let scanner = scan(r#""a\qb" 1"#);
    assert_eq!(scanner.errors.len(), 1);
    assert_eq!(scanner.errors[0].message, "Invalid escape sequence.");
    assert_eq!(scanner.errors[0].line, Some(1));
    assert_eq!(scanner.tokens[0].literal, Some("ab".to_string()));
    assert_eq!(kinds(&scanner.tokens), vec![TokenType::STRING, TokenType::NUMBER, TokenType::EOF]);
}

#[test]
fn a_backslash_at_the_end() {
    let scanner = scan("\"abc\\");
    assert_eq!(scanner.errors.len(), 1);
    assert_eq!(scanner.errors[0].message, "Unterminated string.");
    assert_eq!(kinds(&scanner.tokens), vec![TokenType::EOF]);
}

#[test]
fn a_string_stands_on_the_line_on_which_it_ends() {
    let scanner = scan("\"one\ntwo\nthree\" x");
    assert_eq!(scanner.tokens[0].line, 3);
    assert_eq!(scanner.tokens[1].line, 3);
    let scanner = scan("\"one\ntwo");
    assert_eq!(scanner.errors[0].line, Some(2));
}

#[test]
fn lines_in_comments_count() {
    let scanner = scan("/* a\n b\n */ x // y\nz");
    assert_eq!(kinds(&scanner.tokens), vec![TokenType::IDENTIFIER, TokenType::IDENTIFIER, TokenType::EOF]);
    assert_eq!(scanner.tokens[0].line, 3);
    assert_eq!(scanner.tokens[1].line, 4);
    assert_eq!(scanner.tokens[2].line, 4);
    let scanner = scan("/* a\n /* b\n");
    assert_eq!(scanner.errors[0].message, "Unterminated multiline comment");
    assert_eq!(scanner.errors[0].line, Some(3));
}

#[test]
fn question_mark_and_colon() {
    let scanner = scan("a ? b : c");
    assert_eq!(
        kinds(&scanner.tokens),
        vec![
            TokenType::IDENTIFIER,
            TokenType::QUEST,
            TokenType::IDENTIFIER,
            TokenType::COLON,
            TokenType::IDENTIFIER,
            TokenType::EOF
        ]
    );
}

#[test]
fn words_hold_no_underscore() {
    let scanner = scan("a_b");
    assert_eq!(kinds(&scanner.tokens), vec![TokenType::IDENTIFIER, TokenType::IDENTIFIER, TokenType::EOF]);
    assert_eq!(scanner.errors.len(), 1);
    assert_eq!(scanner.errors[0].message, "Unexpected character '_'");
}

#[test]
fn characters_beyond_ascii() {
    let scanner = scan("\"caf\u{e9}\" \u{e9} x");
    assert_eq!(scanner.tokens[0].lexeme, "\"caf\u{e9}\"");
    assert_eq!(scanner.errors.len(), 1);
    assert_eq!(scanner.errors[0].message, "Unexpected character '\u{e9}'");
    assert_eq!(kinds(&scanner.tokens), vec![TokenType::STRING, TokenType::IDENTIFIER, TokenType::EOF]);
}

#[test]
fn scanning_twice_goes_on_where_the_scan_stopped() {
    let mut scanner = scan("a b");
    assert_eq!(scanner.tokens.len(), 3);
    scanner.scan_tokens();
    assert_eq!(kinds(&scanner.tokens), vec![TokenType::IDENTIFIER, TokenType::IDENTIFIER, TokenType::EOF, TokenType::EOF]);
}

struct Notes {
    notes: Vec<(usize, String)>,
}

impl lox::compiler::error::ErrorReporter for Notes {
    fn error(&mut self, line: usize, message: &str) {
        self.notes.push((line, message.to_string()));
    }

    fn runtime_error(&mut self, _error: &lox::compiler::error::LoxError) {}
}

#[test]
fn errors_are_handed_on_in_order_with_their_lines() {
    let mut scanner = scan("@\n#\n\"open");
    scanner.errors.push(lox::compiler::error::LoxError::new_internal("no line"));
    let mut reporter = Notes { notes: vec![(9, "before".to_string())] };
    scanner.report_errors(&mut reporter);
    assert_eq!(
        reporter.notes,
        vec![
            (9, "before".to_string()),
            (1, "Unexpected character '@'".to_string()),
            (2, "Unexpected character '#'".to_string()),
            (3, "Unterminated string.".to_string()),
            (0, "no line".to_string()),
        ]
    );
}
