#![allow(dead_code, unused_variables)]

use lox::compiler::error::{ErrorReporter, LoxError};
use lox::compiler::scanner::Scanner;
use lox::compiler::token::{Token, TokenType};

pub struct TestErrorReporter {
    pub errors: Vec<(usize, String)>,
    pub runtime_errors: Vec<String>,
}

impl TestErrorReporter {
    pub fn new() -> Self {
        Self { errors: Vec::new(), runtime_errors: Vec::new() }
    }

    pub fn assert_no_errors(&self) {
        assert!(self.errors.is_empty(), "Expected no errors, but got: {:?}", self.errors);
    }

    pub fn assert_errors(&self, expected_errors: &[(usize, &str)]) {
        assert_eq!(
            self.errors.len(),
            expected_errors.len(),
            "Expected {} errors, but got {}",
            expected_errors.len(),
            self.errors.len()
        );
        for (i, (line, message)) in expected_errors.iter().enumerate() {
            assert_eq!(self.errors[i].0, *line, "Error line mismatch");
            assert_eq!(self.errors[i].1, *message, "Error message mismatch");
        }
    }

    pub fn assert_no_runtime_errors(&self) {
        assert!(
            self.runtime_errors.is_empty(),
            "Expected no runtime errors, but got: {:?}",
            self.runtime_errors
        );
    }

    pub fn has_errors(&self) -> bool {
        !self.errors.is_empty() || !self.runtime_errors.is_empty()
    }
}

impl ErrorReporter for TestErrorReporter {
    fn error(&mut self, line: usize, message: &str) {
        self.errors.push((line, message.to_string()));
    }

    fn runtime_error(&mut self, error: &LoxError) {
        self.runtime_errors.push(error.to_string());
    }
}

// Scans the input and hands the scanner's errors to a reporter.
fn scan(input: &str) -> (Vec<Token>, TestErrorReporter) {
    let mut reporter = TestErrorReporter::new();
    let mut scanner = Scanner::new(input.to_string());
    scanner.scan_tokens();
    scanner.report_errors(&mut reporter);
    (scanner.tokens, reporter)
}

fn assert_token(token: &Token, expected_type: TokenType, expected_lexeme: &str, expected_line: usize) {
    assert_eq!(token.token_type, expected_type);
    assert_eq!(token.lexeme, expected_lexeme);
    assert_eq!(token.line, expected_line);
}

fn assert_token_sequence(tokens: &[Token], expected_types: &[TokenType]) {
    assert_eq!(tokens.len() - 1, expected_types.len(), "Token count mismatch (excluding EOF)");
    for (i, expected_type) in expected_types.iter().enumerate() {
        assert_eq!(tokens[i].token_type, *expected_type);
    }
    assert_eq!(tokens.last().unwrap().token_type, TokenType::EOF);
}

#[test]
fn basic_test_empty_input() {
    let (tokens, reporter) = scan("");
    assert_eq!(tokens.len(), 1); // Only EOF token
    assert_token(&tokens[0], TokenType::EOF, "", 1);
    reporter.assert_no_errors();
}

#[test]
fn basic_test_whitespace_only() {
    let (tokens, reporter) = scan("   \t\n\r");
    assert_eq!(tokens.len(), 1); // Only EOF token
    reporter.assert_no_errors();
}

#[test]
fn test_single_character_tokens() {
    let (tokens, reporter) = scan("(){}");
    assert_token_sequence(&tokens, &[
        TokenType::LPAREN,
        TokenType::RPAREN,
        TokenType::LBRACE,
        TokenType::RBRACE,
    ]);
    reporter.assert_no_errors();
}

#[test]
fn test_operators() {
    let (tokens, reporter) = scan("+ - * /");
    assert_token_sequence(&tokens, &[
        TokenType::PLUS,
        TokenType::MINUS,
        TokenType::STAR,
        TokenType::SLASH,
    ]);
    reporter.assert_no_errors();
}

#[test]
fn test_double_character_operators() {
    let (tokens, reporter) = scan("!= == <= >=");
    assert_token_sequence(&tokens, &[
        TokenType::BANG_EQUAL,
        TokenType::EQUAL_EQUAL,
        TokenType::LESS_EQUAL,
        TokenType::GREATER_EQUAL,
    ]);
    reporter.assert_no_errors();
}

#[test]
fn test_mixed_operators() {
    let (tokens, reporter) = scan("! = == < <= > >=");
    assert_token_sequence(&tokens, &[
        TokenType::BANG,
        TokenType::EQUAL,
        TokenType::EQUAL_EQUAL,
        TokenType::LESS,
        TokenType::LESS_EQUAL,
        TokenType::GREATER,
        TokenType::GREATER_EQUAL,
    ]);
    reporter.assert_no_errors();
}

#[test]
fn test_line_tracking() {
    let (tokens, reporter) = scan("(\n)\n{\n}");
    assert_eq!(tokens.len(), 5); // 4 tokens + EOF
    assert_token(&tokens[0], TokenType::LPAREN, "(", 1);
    assert_token(&tokens[1], TokenType::RPAREN, ")", 2);
    assert_token(&tokens[2], TokenType::LBRACE, "{", 3);
    assert_token(&tokens[3], TokenType::RBRACE, "}", 4);
    reporter.assert_no_errors();
}

#[test]
fn test_whitespace_handling() {
    let (tokens, reporter) = scan("(  )\t{\t}\n,\n.\n;");
    assert_token_sequence(&tokens, &[
        TokenType::LPAREN,
        TokenType::RPAREN,
        TokenType::LBRACE,
        TokenType::RBRACE,
        TokenType::COMMA,
        TokenType::DOT,
        TokenType::SEMICOLON,
    ]);
    reporter.assert_no_errors();
}
