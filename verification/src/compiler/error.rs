//! Errors and diagnostics.

use crate::compiler::text::{append_decimal, decimal};
use crate::compiler::token::{Token, TokenType};
use vstd::prelude::*;
use vstd::string::*;

verus! {

/// The classes of diagnostic.
#[derive(Debug, Clone, Copy, PartialEq, Eq, Structural)]
pub enum LoxErrorKind {
    /// A syntax error, or an error that static resolution finds.
    Parse,
    /// An error raised while a program runs.
    Runtime,
    /// A broken invariant of the interpreter itself.
    Internal,
    /// A remark that does not stop a program from running.
    Warning,
}

/// An error as plain mathematical data.
pub struct ErrorView {
    pub kind: LoxErrorKind,
    pub message: Seq<char>,
    pub token: Option<Token>,
    pub line: Option<usize>,
}

/// An error or a warning: its class, its message and, where they are known,
/// the token at which it was found or else the line.
#[derive(Debug)]
pub struct LoxError {
    pub kind: LoxErrorKind,
    pub message: String,
    pub token: Option<Token>,
    pub line: Option<usize>,
}

impl View for LoxError {
    type V = ErrorView;

    open spec fn view(&self) -> ErrorView {
        ErrorView { kind: self.kind, message: self.message@, token: self.token, line: self.line }
    }
}

impl Clone for LoxError {
    fn clone(&self) -> (res: Self)
        ensures
            res == *self,
    {
        let token = match &self.token {
            Some(t) => Some(t.clone()),
            None => None,
        };
        LoxError { kind: self.kind, message: self.message.clone(), token, line: self.line }
    }
}

/// A list of errors as plain mathematical data.
pub open spec fn errors_of(errors: Seq<LoxError>) -> Seq<ErrorView> {
    Seq::new(errors.len(), |i: int| errors[i]@)
}

/// A runtime error raised at `token`.
pub open spec fn runtime_error(token: Token, message: Seq<char>) -> ErrorView {
    ErrorView { kind: LoxErrorKind::Runtime, message, token: Some(token), line: None }
}

/// A syntax or resolution error found at `token`.
pub open spec fn parse_error(token: Token, message: Seq<char>) -> ErrorView {
    ErrorView { kind: LoxErrorKind::Parse, message, token: Some(token), line: None }
}

/// A syntax error of which only the line is known.
pub open spec fn line_error(line: usize, message: Seq<char>) -> ErrorView {
    ErrorView { kind: LoxErrorKind::Parse, message, token: None, line: Some(line) }
}

/// A broken invariant of the interpreter.
pub open spec fn internal_error(message: Seq<char>) -> ErrorView {
    ErrorView { kind: LoxErrorKind::Internal, message, token: None, line: None }
}

/// A warning.
pub open spec fn warning(message: Seq<char>) -> ErrorView {
    ErrorView { kind: LoxErrorKind::Warning, message, token: None, line: None }
}

/// The text that reports an error to a user.
pub open spec fn error_text(e: ErrorView) -> Seq<char> {
    match e.kind {
        LoxErrorKind::Runtime => match e.token {
            Some(token) => "[line "@ + decimal(token.line as nat) + "] Runtime Error at '"@
                + token.lexeme@ + "': "@ + e.message,
            None => "Runtime Error: "@ + e.message,
        },
        LoxErrorKind::Parse => match e.token {
            Some(token) => if token.token_type == TokenType::EOF {
                "[line "@ + decimal(token.line as nat) + "] Error at end: "@ + e.message
            } else {
                "[line "@ + decimal(token.line as nat) + "] Error at '"@ + token.lexeme@ + "': "@
                    + e.message
            },
            None => match e.line {
                Some(line) => "[line "@ + decimal(line as nat) + "] Error: "@ + e.message,
                None => "Parse Error: "@ + e.message,
            },
        },
        LoxErrorKind::Internal => "Internal Error: "@ + e.message,
        LoxErrorKind::Warning => match e.token {
            Some(token) => "[line "@ + decimal(token.line as nat) + "] Warning at '"@
                + token.lexeme@ + "': "@ + e.message,
            None => "Warning: "@ + e.message,
        },
    }
}

impl LoxError {
    /// An error raised at `token` while a program runs.
    pub fn new_runtime(token: Token, message: &str) -> (e: Self)
        ensures
            e@ == runtime_error(token, message@),
    {
        LoxError {
            kind: LoxErrorKind::Runtime,
            message: String::from_str(message),
            token: Some(token),
            line: None,
        }
    }

    /// A syntax or resolution error found at `token`.
    pub fn new_parse(token: Token, message: &str) -> (e: Self)
        ensures
            e@ == parse_error(token, message@),
    {
        LoxError {
            kind: LoxErrorKind::Parse,
            message: String::from_str(message),
            token: Some(token),
            line: None,
        }
    }

    /// A syntax error of which only the line is known.
    pub fn new_from_line(line: usize, message: &str) -> (e: Self)
        ensures
            e@ == line_error(line, message@),
    {
        LoxError {
            kind: LoxErrorKind::Parse,
            message: String::from_str(message),
            token: None,
            line: Some(line),
        }
    }

    /// A broken invariant of the interpreter.
    pub fn new_internal(message: &str) -> (e: Self)
        ensures
            e@ == internal_error(message@),
    {
        LoxError {
            kind: LoxErrorKind::Internal,
            message: String::from_str(message),
            token: None,
            line: None,
        }
    }

    /// A remark that does not stop a program from running.
    pub fn new_warning(message: &str) -> (e: Self)
        ensures
            e@ == warning(message@),
    {
        LoxError {
            kind: LoxErrorKind::Warning,
            message: String::from_str(message),
            token: None,
            line: None,
        }
    }

    /// Whether this diagnostic stops a program from running.
    pub fn is_fatal(&self) -> (r: bool)
        ensures
            r == (self.kind != LoxErrorKind::Warning),
    {
        self.kind != LoxErrorKind::Warning
    }

    /// The text that reports this error to a user.
    pub fn to_string(&self) -> (s: String)
        ensures
            s@ == error_text(self@),
    {
        let mut s = String::new();
        match self.kind {
            LoxErrorKind::Runtime => match &self.token {
                Some(token) => {
                    s.append("[line ");
                    append_decimal(&mut s, token.line as u64);
                    s.append("] Runtime Error at '");
                    s.append(token.lexeme.as_str());
                    s.append("': ");
                },
                None => {
                    s.append("Runtime Error: ");
                },
            },
            LoxErrorKind::Parse => match &self.token {
                Some(token) => {
                    s.append("[line ");
                    append_decimal(&mut s, token.line as u64);
                    if token.token_type == TokenType::EOF {
                        s.append("] Error at end: ");
                    } else {
                        s.append("] Error at '");
                        s.append(token.lexeme.as_str());
                        s.append("': ");
                    }
                },
                None => match self.line {
                    Some(line) => {
                        s.append("[line ");
                        append_decimal(&mut s, line as u64);
                        s.append("] Error: ");
                    },
                    None => {
                        s.append("Parse Error: ");
                    },
                },
            },
            LoxErrorKind::Internal => {
                s.append("Internal Error: ");
            },
            LoxErrorKind::Warning => match &self.token {
                Some(token) => {
                    s.append("[line ");
                    append_decimal(&mut s, token.line as u64);
                    s.append("] Warning at '");
                    s.append(token.lexeme.as_str());
                    s.append("': ");
                },
                None => {
                    s.append("Warning: ");
                },
            },
        }
        s.append(self.message.as_str());
        assert(s@ =~= error_text(self@));
        s
    }
}

/// Where a driver wants errors to be reported.
pub trait ErrorReporter {
    /// Whether `after` is what this reporter is once the error `message` on
    /// line `line` was reported to it. Each reporter says for itself what a
    /// report does to it; a reporter that says nothing may do anything.
    open spec fn noted(&self, line: usize, message: Seq<char>, after: &Self) -> bool {
        true
    }

    /// Reports the error `message` on line `line`.
    fn error(&mut self, line: usize, message: &str)
        ensures
            old(self).noted(line, message@, final(self)),
    ;

    /// Reports an error of a running program.
    fn runtime_error(&mut self, error: &LoxError);
}

} // verus!
