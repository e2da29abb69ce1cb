//! The scanner: from source text to tokens.

use crate::compiler::error::{
    errors_of, line_error, ErrorReporter, ErrorView, LoxError, LoxErrorKind,
};
use crate::compiler::number::is_digit;
use crate::compiler::text::{chars_of, push_char, string_of};
use crate::compiler::token::{keyword_type, tokens_of, Token, TokenType, TokenView};
use vstd::prelude::*;
use vstd::string::*;

verus! {

/// How far a scan has come: the position in the source, the line there, and
/// the tokens and errors found so far.
pub struct Progress {
    pub current: nat,
    pub line: usize,
    pub tokens: Seq<TokenView>,
    pub errors: Seq<ErrorView>,
}

/// The line after `line`. (A source has fewer lines than a `usize` can
/// count; at the last `usize` the count stays.)
pub open spec fn next_line(line: usize) -> usize {
    if line < usize::MAX {
        (line + 1) as usize
    } else {
        line
    }
}

/// Whether `c` is a letter of the English alphabet.
pub open spec fn is_alpha(c: char) -> bool {
    ('a' <= c <= 'z') || ('A' <= c <= 'Z')
}

/// Whether the character at `pos` is `c`.
pub open spec fn follows(src: Seq<char>, pos: nat, c: char) -> bool {
    pos < src.len() && src[pos as int] == c
}

/// The token that the character `c` is by itself, if it is one whatever
/// follows it.
pub open spec fn single_type(c: char) -> Option<TokenType> {
    if c == '(' {
        Some(TokenType::LPAREN)
    } else if c == ')' {
        Some(TokenType::RPAREN)
    } else if c == '{' {
        Some(TokenType::LBRACE)
    } else if c == '}' {
        Some(TokenType::RBRACE)
    } else if c == ',' {
        Some(TokenType::COMMA)
    } else if c == '.' {
        Some(TokenType::DOT)
    } else if c == '-' {
        Some(TokenType::MINUS)
    } else if c == '+' {
        Some(TokenType::PLUS)
    } else if c == ';' {
        Some(TokenType::SEMICOLON)
    } else if c == '*' {
        Some(TokenType::STAR)
    } else if c == '?' {
        Some(TokenType::QUEST)
    } else if c == ':' {
        Some(TokenType::COLON)
    } else {
        None
    }
}

/// For a character that `=` may follow: the token that it is alone, and the
/// token that it is together with `=`.
pub open spec fn operator_types(c: char) -> Option<(TokenType, TokenType)> {
    if c == '!' {
        Some((TokenType::BANG, TokenType::BANG_EQUAL))
    } else if c == '=' {
        Some((TokenType::EQUAL, TokenType::EQUAL_EQUAL))
    } else if c == '<' {
        Some((TokenType::LESS, TokenType::LESS_EQUAL))
    } else if c == '>' {
        Some((TokenType::GREATER, TokenType::GREATER_EQUAL))
    } else {
        None
    }
}

/// The character that the escape `\c` stands for in a string.
pub open spec fn escaped(c: char) -> Option<char> {
    if c == '\\' {
        Some('\\')
    } else if c == '"' {
        Some('"')
    } else if c == 'n' {
        Some('\n')
    } else if c == 'r' {
        Some('\r')
    } else if c == 't' {
        Some('\t')
    } else {
        None
    }
}

/// The first position from `pos` on that holds a line feed, or the end.
pub open spec fn line_end(src: Seq<char>, pos: nat) -> nat
    decreases src.len() - pos,
{
    if pos >= src.len() || src[pos as int] == '\n' {
        pos
    } else {
        line_end(src, pos + 1)
    }
}

/// The first position from `pos` on that holds no digit, or the end.
pub open spec fn digits_end(src: Seq<char>, pos: nat) -> nat
    decreases src.len() - pos,
{
    if pos >= src.len() || !is_digit(src[pos as int]) {
        pos
    } else {
        digits_end(src, pos + 1)
    }
}

/// The first position from `pos` on that holds neither a letter nor a
/// digit, or the end.
pub open spec fn word_end(src: Seq<char>, pos: nat) -> nat
    decreases src.len() - pos,
{
    if pos >= src.len() || !(is_alpha(src[pos as int]) || is_digit(src[pos as int])) {
        pos
    } else {
        word_end(src, pos + 1)
    }
}

/// Where a numeral that starts before `pos` ends: after its digits and,
/// where a point and a digit follow them, after the digits behind the point.
pub open spec fn number_end(src: Seq<char>, pos: nat) -> nat {
    let whole = digits_end(src, pos);
    if follows(src, whole, '.') && whole + 1 < src.len() && is_digit(src[whole + 1 as int]) {
        digits_end(src, whole + 1)
    } else {
        whole
    }
}

/// The rest of a comment `/* ... */`, in which comments may nest: where it
/// ends, the line there, and how many comments are still open (none,
/// unless the source ended first).
pub open spec fn comment_end(src: Seq<char>, pos: nat, line: usize, open: nat) -> (
    nat,
    usize,
    nat,
)
    decreases src.len() - pos,
{
    if open == 0 || pos >= src.len() {
        (pos, line, open)
    } else if src[pos as int] == '*' && follows(src, pos + 1, '/') {
        comment_end(src, pos + 2, line, (open - 1) as nat)
    } else if src[pos as int] == '/' && follows(src, pos + 1, '*') {
        comment_end(src, pos + 2, line, open + 1)
    } else {
        comment_end(
            src,
            pos + 1,
            if src[pos as int] == '\n' {
                next_line(line)
            } else {
                line
            },
            open,
        )
    }
}

/// The inside of a string literal from `pos` on.
pub struct StringScan {
    /// Where the closing quote stands, or the end of the source.
    pub end: nat,
    pub line: usize,
    /// The characters of the string, escapes replaced.
    pub text: Seq<char>,
    pub errors: Seq<ErrorView>,
}

/// Scans the inside of a string literal. `\\`, `\"`, `\n`, `\r` and `\t` are
/// escapes; a backslash before any other character is an error, and both
/// are left out of the string.
pub open spec fn string_end(src: Seq<char>, pos: nat, so_far: StringScan) -> StringScan
    decreases src.len() - pos,
{
    if pos >= src.len() || src[pos as int] == '"' {
        StringScan { end: pos, ..so_far }
    } else if src[pos as int] == '\\' {
        if pos + 1 >= src.len() {
            StringScan { end: pos + 1, ..so_far }
        } else {
            match escaped(src[pos + 1 as int]) {
                Some(c) => string_end(
                    src,
                    pos + 2,
                    StringScan { text: so_far.text.push(c), ..so_far },
                ),
                None => string_end(
                    src,
                    pos + 2,
                    StringScan {
                        errors: so_far.errors.push(
                            line_error(so_far.line, "Invalid escape sequence."@),
                        ),
                        ..so_far
                    },
                ),
            }
        }
    } else {
        string_end(
            src,
            pos + 1,
            StringScan {
                line: if src[pos as int] == '\n' {
                    next_line(so_far.line)
                } else {
                    so_far.line
                },
                text: so_far.text.push(src[pos as int]),
                ..so_far
            },
        )
    }
}

/// The progress after the token `src[start..end]` of type `kind` was added.
pub open spec fn with_token(
    p: Progress,
    src: Seq<char>,
    start: nat,
    end: nat,
    line: usize,
    kind: TokenType,
    literal: Option<Seq<char>>,
) -> Progress {
    Progress {
        current: end,
        line,
        tokens: p.tokens.push(
            TokenView {
                token_type: kind,
                lexeme: src.subrange(start as int, end as int),
                line,
                literal,
            },
        ),
        errors: p.errors,
    }
}

/// The error for a character that starts no token.
pub open spec fn unexpected(line: usize, c: char) -> ErrorView {
    line_error(line, "Unexpected character '"@ + seq![c] + "'"@)
}

/// The progress after the token, comment or white space that starts at
/// `p.current` was scanned.
///
/// White space and comments give no token. A line feed starts a new line.
/// `//` starts a comment that runs to the end of the line, `/*` one that
/// runs to the matching `*/`. A string runs from `"` to the next `"` that
/// no backslash escapes, and may span lines; its token stands on the line
/// on which it ends. A numeral is digits, optionally followed by a point
/// and digits. A word is a letter followed by letters and digits; it is a
/// keyword if it spells one, else an identifier. A string or comment that
/// the source ends in, and a character that starts no token, are errors
/// and give no token.
pub open spec fn scan_token(src: Seq<char>, p: Progress) -> Progress {
    let start = p.current;
    let c = src[start as int];
    let next = start + 1;
    if single_type(c) is Some {
        with_token(p, src, start, next, p.line, single_type(c).unwrap(), None)
    } else if operator_types(c) is Some {
        if follows(src, next, '=') {
            with_token(p, src, start, next + 1, p.line, operator_types(c).unwrap().1, None)
        } else {
            with_token(p, src, start, next, p.line, operator_types(c).unwrap().0, None)
        }
    } else if c == '/' {
        if follows(src, next, '/') {
            Progress { current: line_end(src, next + 1), ..p }
        } else if follows(src, next, '*') {
            let (end, line, open) = comment_end(src, next + 1, p.line, 1);
            Progress {
                current: end,
                line,
                errors: if open > 0 {
                    p.errors.push(line_error(line, "Unterminated multiline comment"@))
                } else {
                    p.errors
                },
                ..p
            }
        } else {
            with_token(p, src, start, next, p.line, TokenType::SLASH, None)
        }
    } else if c == ' ' || c == '\r' || c == '\t' {
        Progress { current: next, ..p }
    } else if c == '\n' {
        Progress { current: next, line: next_line(p.line), ..p }
    } else if c == '"' {
        let s = string_end(
            src,
            next,
            StringScan { end: next, line: p.line, text: Seq::empty(), errors: p.errors },
        );
        if s.end >= src.len() {
            Progress {
                current: s.end,
                line: s.line,
                errors: s.errors.push(line_error(s.line, "Unterminated string."@)),
                ..p
            }
        } else {
            with_token(
                Progress { errors: s.errors, ..p },
                src,
                start,
                s.end + 1,
                s.line,
                TokenType::STRING,
                Some(s.text),
            )
        }
    } else if is_digit(c) {
        let end = number_end(src, next);
        with_token(
            p,
            src,
            start,
            end,
            p.line,
            TokenType::NUMBER,
            Some(src.subrange(start as int, end as int)),
        )
    } else if is_alpha(c) {
        let end = word_end(src, next);
        with_token(
            p,
            src,
            start,
            end,
            p.line,
            match keyword_type(src.subrange(start as int, end as int)) {
                Some(kind) => kind,
                None => TokenType::IDENTIFIER,
            },
            None,
        )
    } else {
        Progress { current: next, errors: p.errors.push(unexpected(p.line, c)), ..p }
    }
}

/// The progress after everything from `p.current` to the end of the source
/// was scanned.
pub open spec fn scan_rest(src: Seq<char>, p: Progress) -> Progress
    decreases src.len() - p.current,
{
    if p.current >= src.len() {
        p
    } else {
        let q = scan_token(src, p);
        if q.current <= p.current || q.current > src.len() {
            q
        } else {
            scan_rest(src, q)
        }
    }
}

/// The token that ends every scan.
pub open spec fn end_token(line: usize) -> TokenView {
    TokenView { token_type: TokenType::EOF, lexeme: Seq::empty(), line, literal: None }
}

/// The progress after a whole scan: everything to the end of the source
/// was scanned, and the end token was added.
pub open spec fn scan_all(src: Seq<char>, p: Progress) -> Progress {
    let q = scan_rest(src, p);
    Progress { tokens: q.tokens.push(end_token(q.line)), ..q }
}

/// The scanner: the source, and how far the scan has come.
pub struct Scanner {
    /// The characters of the source.
    pub source: Vec<char>,
    pub tokens: Vec<Token>,
    /// What was wrong with the source, in the order in which it was found.
    pub errors: Vec<LoxError>,
    /// Where the token that is being scanned starts.
    pub start: usize,
    /// The position of the next character.
    pub current: usize,
    /// The line of the next character.
    pub line: usize,
}

fn single_of(c: char) -> (r: Option<TokenType>)
    ensures
        r == single_type(c),
{
    if c == '(' {
        Some(TokenType::LPAREN)
    } else if c == ')' {
        Some(TokenType::RPAREN)
    } else if c == '{' {
        Some(TokenType::LBRACE)
    } else if c == '}' {
        Some(TokenType::RBRACE)
    } else if c == ',' {
        Some(TokenType::COMMA)
    } else if c == '.' {
        Some(TokenType::DOT)
    } else if c == '-' {
        Some(TokenType::MINUS)
    } else if c == '+' {
        Some(TokenType::PLUS)
    } else if c == ';' {
        Some(TokenType::SEMICOLON)
    } else if c == '*' {
        Some(TokenType::STAR)
    } else if c == '?' {
        Some(TokenType::QUEST)
    } else if c == ':' {
        Some(TokenType::COLON)
    } else {
        None
    }
}

fn operators_of(c: char) -> (r: Option<(TokenType, TokenType)>)
    ensures
        r == operator_types(c),
{
    if c == '!' {
        Some((TokenType::BANG, TokenType::BANG_EQUAL))
    } else if c == '=' {
        Some((TokenType::EQUAL, TokenType::EQUAL_EQUAL))
    } else if c == '<' {
        Some((TokenType::LESS, TokenType::LESS_EQUAL))
    } else if c == '>' {
        Some((TokenType::GREATER, TokenType::GREATER_EQUAL))
    } else {
        None
    }
}

fn escape_of(c: char) -> (r: Option<char>)
    ensures
        r == escaped(c),
{
    if c == '\\' {
        Some('\\')
    } else if c == '"' {
        Some('"')
    } else if c == 'n' {
        Some('\n')
    } else if c == 'r' {
        Some('\r')
    } else if c == 't' {
        Some('\t')
    } else {
        None
    }
}

fn digit(c: char) -> (r: bool)
    ensures
        r == is_digit(c),
{
    c >= '0' && c <= '9'
}

fn letter(c: char) -> (r: bool)
    ensures
        r == is_alpha(c),
{
    (c >= 'a' && c <= 'z') || (c >= 'A' && c <= 'Z')
}

impl Scanner {
    /// The scanner is within its source.
    pub open spec fn wf(&self) -> bool {
        self.start <= self.current <= self.source@.len()
    }

    /// The source text.
    pub open spec fn text(&self) -> Seq<char> {
        self.source@
    }

    /// How far the scan has come.
    pub open spec fn progress(&self) -> Progress {
        Progress {
            current: self.current as nat,
            line: self.line,
            tokens: tokens_of(self.tokens@),
            errors: errors_of(self.errors@),
        }
    }

    /// A scanner at the start of `source`, on line one.
    pub fn new(source: String) -> (scanner: Self)
        ensures
            scanner.text() == source@,
            scanner.progress() == (Progress {
                current: 0,
                line: 1,
                tokens: Seq::empty(),
                errors: Seq::empty(),
            }),
            scanner.tokens@.len() == 0,
            scanner.errors@.len() == 0,
    {
        let scanner = Scanner {
            source: chars_of(source.as_str()),
            tokens: Vec::new(),
            errors: Vec::new(),
            start: 0,
            current: 0,
            line: 1,
        };
        assert(tokens_of(scanner.tokens@) =~= Seq::empty());
        assert(errors_of(scanner.errors@) =~= Seq::empty());
        scanner
    }

    /// Scans the source to its end and adds the end token.
    pub fn scan_tokens(&mut self)
        requires
            old(self).current <= old(self).text().len(),
        ensures
            final(self).text() == old(self).text(),
            final(self).progress() == scan_all(old(self).text(), old(self).progress()),
            final(self).tokens@.len() > 0,
            final(self).tokens@.last().token_type == TokenType::EOF,
    {
        while !self.at_end()
            invariant
                self.source == old(self).source,
                self.current <= self.source@.len(),
                scan_rest(self.source@, old(self).progress()) == scan_rest(
                    self.source@,
                    self.progress(),
                ),
            decreases self.source@.len() - self.current,
        {
            self.start = self.current;
            self.scan_token();
        }
        let ghost before = tokens_of(self.tokens@);
        self.tokens.push(Token::new(TokenType::EOF, String::new(), self.line, None));
        assert(tokens_of(self.tokens@) =~= before.push(end_token(self.line)));
    }

    fn at_end(&self) -> (r: bool)
        ensures
            r == (self.current >= self.source@.len()),
    {
        self.current >= self.source.len()
    }

    fn add_token(&mut self, token_type: TokenType)
        requires
            old(self).wf(),
        ensures
            final(self).source == old(self).source,
            final(self).start == old(self).start,
            final(self).progress() == with_token(
                old(self).progress(),
                old(self).source@,
                old(self).start as nat,
                old(self).current as nat,
                old(self).line,
                token_type,
                None,
            ),
    {
        self.add_token_literal(token_type, None);
    }

    fn add_token_literal(&mut self, token_type: TokenType, literal: Option<String>)
        requires
            old(self).wf(),
        ensures
            final(self).source == old(self).source,
            final(self).start == old(self).start,
            final(self).progress() == with_token(
                old(self).progress(),
                old(self).source@,
                old(self).start as nat,
                old(self).current as nat,
                old(self).line,
                token_type,
                match literal {
                    Some(text) => Some(text@),
                    None => None,
                },
            ),
    {
        let text = string_of(&self.source, self.start, self.current);
        let ghost before = tokens_of(self.tokens@);
        let token = Token::new(token_type, text, self.line, literal);
        self.tokens.push(token);
        assert(tokens_of(self.tokens@) =~= before.push(token@));
    }

    /// Records an error on the current line.
    fn report(&mut self, message: String)
        ensures
            final(self).source == old(self).source,
            final(self).start == old(self).start,
            final(self).current == old(self).current,
            final(self).line == old(self).line,
            final(self).tokens == old(self).tokens,
            errors_of(final(self).errors@) == errors_of(old(self).errors@).push(
                line_error(old(self).line, message@),
            ),
    {
        let ghost before = errors_of(self.errors@);
        let e = LoxError { kind: LoxErrorKind::Parse, message, token: None, line: Some(self.line) };
        self.errors.push(e);
        assert(errors_of(self.errors@) =~= before.push(e@));
    }

    fn advance(&mut self) -> (c: char)
        requires
            old(self).current < old(self).source@.len(),
        ensures
            c == old(self).source@[old(self).current as int],
            final(self).current == old(self).current + 1,
            final(self).source == old(self).source,
            final(self).start == old(self).start,
            final(self).line == old(self).line,
            final(self).tokens == old(self).tokens,
            final(self).errors == old(self).errors,
    {
        let c = self.source[self.current];
        assert(self.current < self.source.len());
        self.current += 1;
        c
    }

    /// Steps over the next character if it is `expected`.
    fn check(&mut self, expected: char) -> (r: bool)
        requires
            old(self).current <= old(self).source@.len(),
        ensures
            r == follows(old(self).source@, old(self).current as nat, expected),
            final(self).current == if r {
                old(self).current + 1
            } else {
                old(self).current as int
            },
            final(self).source == old(self).source,
            final(self).start == old(self).start,
            final(self).line == old(self).line,
            final(self).tokens == old(self).tokens,
            final(self).errors == old(self).errors,
    {
        if self.at_end() {
            return false;
        }
        if self.source[self.current] != expected {
            return false;
        }
        assert(self.current < self.source.len());
        self.current += 1;
        true
    }

    /// The next character, or NUL at the end.
    fn peek(&self) -> (c: char)
        ensures
            c == if self.current < self.source@.len() {
                self.source@[self.current as int]
            } else {
                '\0'
            },
    {
        if self.at_end() {
            return '\0';
        }
        self.source[self.current]
    }

    /// The character after the next, or NUL where there is none.
    fn peek_next(&self) -> (c: char)
        ensures
            c == if self.current + 1 < self.source@.len() {
                self.source@[self.current + 1]
            } else {
                '\0'
            },
    {
        let n = self.source.len();
        if self.current >= n || n - self.current <= 1 {
            return '\0';
        }
        self.source[self.current + 1]
    }

    /// Whether two characters or more are left.
    fn has_two(&self) -> (r: bool)
        ensures
            r == (self.current + 1 < self.source@.len()),
    {
        let n = self.source.len();
        self.current < n && n - self.current > 1
    }

    /// Starts a new line.
    fn new_line(&mut self)
        ensures
            final(self).line == next_line(old(self).line),
            final(self).source == old(self).source,
            final(self).start == old(self).start,
            final(self).current == old(self).current,
            final(self).tokens == old(self).tokens,
            final(self).errors == old(self).errors,
    {
        if self.line < usize::MAX {
            self.line += 1;
        }
    }

    /// Scans a string literal whose opening quote was just passed.
    fn string(&mut self)
        requires
            old(self).start < old(self).current <= old(self).source@.len(),
            old(self).current == old(self).start + 1,
        ensures
            final(self).source == old(self).source,
            old(self).current <= final(self).current <= final(self).source@.len(),
            final(self).progress() == ({
                let p = old(self).progress();
                let s = string_end(
                    old(self).source@,
                    p.current,
                    StringScan { end: p.current, line: p.line, text: Seq::empty(), errors: p.errors },
                );
                if s.end >= old(self).source@.len() {
                    Progress {
                        current: s.end,
                        line: s.line,
                        errors: s.errors.push(line_error(s.line, "Unterminated string."@)),
                        ..p
                    }
                } else {
                    with_token(
                        Progress { errors: s.errors, ..p },
                        old(self).source@,
                        old(self).start as nat,
                        s.end + 1,
                        s.line,
                        TokenType::STRING,
                        Some(s.text),
                    )
                }
            }),
    {
        self.start = self.current - 1;
        let mut s = String::new();
        let ghost src = self.source@;
        let ghost p = self.progress();
        let ghost first = StringScan {
            end: p.current,
            line: p.line,
            text: Seq::empty(),
            errors: p.errors,
        };
        loop
            invariant
                self.source == old(self).source,
                src == self.source@,
                self.start == old(self).start,
                self.tokens == old(self).tokens,
                old(self).current <= self.current <= src.len(),
                string_end(src, p.current, first) == string_end(
                    src,
                    self.current as nat,
                    StringScan {
                        end: p.current,
                        line: self.line,
                        text: s@,
                        errors: errors_of(self.errors@),
                    },
                ),
            ensures
                self.current >= src.len() || src[self.current as int] == '"',
            decreases src.len() - self.current,
        {
            if self.at_end() || self.peek() == '"' {
                break ;
            }
            let c = self.advance();
            if c == '\\' {
                if self.at_end() {
                    break ;
                }
                match escape_of(self.advance()) {
                    Some(e) => push_char(&mut s, e),
                    None => self.report(String::from_str("Invalid escape sequence.")),
                }
            } else {
                if c == '\n' {
                    self.new_line();
                }
                push_char(&mut s, c);
            }
        }
        if self.at_end() {
            self.report(String::from_str("Unterminated string."));
            return ;
        }
        self.advance();
        self.add_token_literal(TokenType::STRING, Some(s));
    }

    /// Scans a numeral whose first digit was just passed.
    fn number(&mut self)
        requires
            old(self).wf(),
        ensures
            final(self).source == old(self).source,
            old(self).current <= final(self).current <= final(self).source@.len(),
            final(self).progress() == ({
                let end = number_end(old(self).source@, old(self).current as nat);
                with_token(
                    old(self).progress(),
                    old(self).source@,
                    old(self).start as nat,
                    end,
                    old(self).line,
                    TokenType::NUMBER,
                    Some(old(self).source@.subrange(old(self).start as int, end as int)),
                )
            }),
    {
        self.digits();
        if self.has_two() && self.peek() == '.' && digit(self.peek_next()) {
            self.advance();
            self.digits();
        }
        let text = string_of(&self.source, self.start, self.current);
        self.add_token_literal(TokenType::NUMBER, Some(text));
    }

    /// Steps over digits.
    fn digits(&mut self)
        requires
            old(self).wf(),
        ensures
            final(self).source == old(self).source,
            final(self).start == old(self).start,
            final(self).line == old(self).line,
            final(self).tokens == old(self).tokens,
            final(self).errors == old(self).errors,
            final(self).wf(),
            old(self).current <= final(self).current,
            final(self).current == digits_end(old(self).source@, old(self).current as nat),
    {
        while !self.at_end() && digit(self.peek())
            invariant
                self.source == old(self).source,
                self.start == old(self).start,
                self.line == old(self).line,
                self.tokens == old(self).tokens,
                self.errors == old(self).errors,
                self.wf(),
                old(self).current <= self.current,
                digits_end(self.source@, old(self).current as nat) == digits_end(
                    self.source@,
                    self.current as nat,
                ),
            decreases self.source@.len() - self.current,
        {
            self.advance();
        }
    }

    /// Scans a word whose first letter was just passed.
    fn identifier(&mut self)
        requires
            old(self).wf(),
        ensures
            final(self).source == old(self).source,
            old(self).current <= final(self).current <= final(self).source@.len(),
            final(self).progress() == ({
                let src = old(self).source@;
                let end = word_end(src, old(self).current as nat);
                with_token(
                    old(self).progress(),
                    src,
                    old(self).start as nat,
                    end,
                    old(self).line,
                    match keyword_type(src.subrange(old(self).start as int, end as int)) {
                        Some(kind) => kind,
                        None => TokenType::IDENTIFIER,
                    },
                    None,
                )
            }),
    {
        while !self.at_end() && (letter(self.peek()) || digit(self.peek()))
            invariant
                self.source == old(self).source,
                self.start == old(self).start,
                self.line == old(self).line,
                self.tokens == old(self).tokens,
                self.errors == old(self).errors,
                self.wf(),
                old(self).current <= self.current,
                word_end(self.source@, old(self).current as nat) == word_end(
                    self.source@,
                    self.current as nat,
                ),
            decreases self.source@.len() - self.current,
        {
            self.advance();
        }
        let text = string_of(&self.source, self.start, self.current);
        let kind = match TokenType::keyword(text.as_str()) {
            Some(kind) => kind,
            None => TokenType::IDENTIFIER,
        };
        self.add_token(kind);
    }

    /// Steps over the rest of a comment `/* ... */`.
    fn block_comment(&mut self)
        requires
            old(self).wf(),
        ensures
            final(self).source == old(self).source,
            old(self).current <= final(self).current <= final(self).source@.len(),
            final(self).progress() == ({
                let p = old(self).progress();
                let (end, line, open) = comment_end(old(self).source@, p.current, p.line, 1);
                Progress {
                    current: end,
                    line,
                    errors: if open > 0 {
                        p.errors.push(line_error(line, "Unterminated multiline comment"@))
                    } else {
                        p.errors
                    },
                    ..p
                }
            }),
    {
        let ghost src = self.source@;
        let ghost p = self.progress();
        let mut nesting: usize = 1;
        while nesting > 0 && !self.at_end()
            invariant
                self.source == old(self).source,
                src == self.source@,
                self.tokens == old(self).tokens,
                self.errors == old(self).errors,
                old(self).current <= self.current <= src.len(),
                self.start <= self.current,
                nesting <= self.current + 1,
                comment_end(src, p.current, p.line, 1) == comment_end(
                    src,
                    self.current as nat,
                    self.line,
                    nesting as nat,
                ),
            decreases src.len() - self.current,
        {
            assert(self.current < self.source.len());
            if self.has_two() && self.peek() == '*' && self.peek_next() == '/' {
                nesting -= 1;
                self.advance();
                self.advance();
            } else if self.has_two() && self.peek() == '/' && self.peek_next() == '*' {
                nesting += 1;
                self.advance();
                self.advance();
            } else {
                if self.peek() == '\n' {
                    self.new_line();
                }
                self.advance();
            }
        }
        if nesting > 0 {
            self.report(String::from_str("Unterminated multiline comment"));
        }
    }

    /// Scans the token, comment or white space that starts at the current
    /// position.
    fn scan_token(&mut self)
        requires
            old(self).start == old(self).current,
            old(self).current < old(self).source@.len(),
        ensures
            final(self).source == old(self).source,
            old(self).current < final(self).current <= final(self).source@.len(),
            final(self).progress() == scan_token(old(self).source@, old(self).progress()),
    {
        let c = self.advance();
        if let Some(kind) = single_of(c) {
            self.add_token(kind);
        } else if let Some(kinds) = operators_of(c) {
            if self.check('=') {
                self.add_token(kinds.1);
            } else {
                self.add_token(kinds.0);
            }
        } else if c == '/' {
            if self.check('/') {
                while !self.at_end() && self.peek() != '\n'
                    invariant
                        self.source == old(self).source,
                        self.line == old(self).line,
                        self.tokens == old(self).tokens,
                        self.errors == old(self).errors,
                        old(self).current + 2 <= self.current <= self.source@.len(),
                        line_end(self.source@, (old(self).current + 2) as nat) == line_end(
                            self.source@,
                            self.current as nat,
                        ),
                    decreases self.source@.len() - self.current,
                {
                    self.advance();
                }
                } else if self.check('*') {
                self.block_comment();
                } else {
                self.add_token(TokenType::SLASH);
                }
        } else if c == ' ' || c == '\r' || c == '\t' {
        } else if c == '\n' {
            self.new_line();
        } else if c == '"' {
            self.string();
        } else if digit(c) {
            self.number();
        } else if letter(c) {
            self.identifier();
        } else {
            let mut message = String::from_str("Unexpected character '");
            push_char(&mut message, c);
            message.append("'");
            assert(message@ =~= "Unexpected character '"@ + seq![c] + "'"@);
            self.report(message);
        }
    }

    /// Hands every error to `reporter`, in the order in which they were
    /// found: each with its line (line 0 where it has none) and its message.
    pub fn report_errors<R: ErrorReporter>(&self, reporter: &mut R)
        ensures
            relayed(*old(reporter), notes_of(self.errors@), *final(reporter)),
    {
        let ghost notes = notes_of(self.errors@);
        let ghost mut states: Seq<R> = seq![*reporter];
        let mut i: usize = 0;
        while i < self.errors.len()
            invariant
                i <= self.errors.len(),
                notes == notes_of(self.errors@),
                states.len() == i + 1,
                states[0] == *old(reporter),
                states[i as int] == *reporter,
                forall|k: int|
                    0 <= k < i ==> (#[trigger] states[k]).noted(
                        notes[k].0,
                        notes[k].1,
                        &states[k + 1],
                    ),
            decreases self.errors.len() - i,
        {
            let line = match self.errors[i].line {
                Some(line) => line,
                None => 0,
            };
            let ghost before = states;
            reporter.error(line, self.errors[i].message.as_str());
            proof {
                states = before.push(*reporter);
                assert forall|k: int| 0 <= k < i + 1 implies (#[trigger] states[k]).noted(
                    notes[k].0,
                    notes[k].1,
                    &states[k + 1],
                ) by {
                    if k < i {
                        assert(states[k] == before[k]);
                        assert(states[k + 1] == before[k + 1]);
                    }
                }
            }
            i += 1;
        }
        assert(handed_on(states, notes) && states[0] == *old(reporter) && states.last()
            == *reporter);
    }
}

/// What is handed to a reporter for each of `errors`: the line of the error
/// (line 0 where it has none) and its message.
pub open spec fn notes_of(errors: Seq<LoxError>) -> Seq<(usize, Seq<char>)> {
    Seq::new(
        errors.len(),
        |i: int|
            (
                match errors[i].line {
                    Some(line) => line,
                    None => 0,
                },
                errors[i].message@,
            ),
    )
}

/// Whether `states` are what a reporter is before the first of `notes` is
/// reported to it, between each two of them, and after the last.
pub open spec fn handed_on<R: ErrorReporter>(states: Seq<R>, notes: Seq<(usize, Seq<char>)>) -> bool {
    &&& states.len() == notes.len() + 1
    &&& forall|k: int|
        0 <= k < notes.len() ==> (#[trigger] states[k]).noted(
            notes[k].0,
            notes[k].1,
            &states[k + 1],
        )
}

/// Whether reporting `notes`, one after the other and nothing else, makes
/// the reporter `before` the reporter `after`.
pub open spec fn relayed<R: ErrorReporter>(
    before: R,
    notes: Seq<(usize, Seq<char>)>,
    after: R,
) -> bool {
    exists|states: Seq<R>|
        handed_on(states, notes) && states[0] == before && #[trigger] states.last() == after
}

proof fn lemma_line_end(src: Seq<char>, pos: nat)
    requires
        pos <= src.len(),
    ensures
        pos <= line_end(src, pos) <= src.len(),
    decreases src.len() - pos,
{
    if pos < src.len() && src[pos as int] != '\n' {
        lemma_line_end(src, pos + 1);
    }
}

proof fn lemma_digits_end(src: Seq<char>, pos: nat)
    requires
        pos <= src.len(),
    ensures
        pos <= digits_end(src, pos) <= src.len(),
    decreases src.len() - pos,
{
    if pos < src.len() && is_digit(src[pos as int]) {
        lemma_digits_end(src, pos + 1);
    }
}

proof fn lemma_word_end(src: Seq<char>, pos: nat)
    requires
        pos <= src.len(),
    ensures
        pos <= word_end(src, pos) <= src.len(),
    decreases src.len() - pos,
{
    if pos < src.len() && (is_alpha(src[pos as int]) || is_digit(src[pos as int])) {
        lemma_word_end(src, pos + 1);
    }
}

proof fn lemma_comment_end(src: Seq<char>, pos: nat, line: usize, open: nat)
    requires
        pos <= src.len(),
    ensures
        pos <= comment_end(src, pos, line, open).0 <= src.len(),
    decreases src.len() - pos,
{
    if open != 0 && pos < src.len() {
        if src[pos as int] == '*' && follows(src, pos + 1, '/') {
            lemma_comment_end(src, pos + 2, line, (open - 1) as nat);
        } else if src[pos as int] == '/' && follows(src, pos + 1, '*') {
            lemma_comment_end(src, pos + 2, line, open + 1);
        } else {
            lemma_comment_end(
                src,
                pos + 1,
                if src[pos as int] == '\n' {
                    next_line(line)
                } else {
                    line
                },
                open,
            );
        }
    }
}

proof fn lemma_string_end(src: Seq<char>, pos: nat, so_far: StringScan)
    requires
        pos <= src.len(),
    ensures
        pos <= string_end(src, pos, so_far).end <= src.len(),
    decreases src.len() - pos,
{
    if pos < src.len() && src[pos as int] != '"' {
        if src[pos as int] == '\\' {
            if pos + 1 < src.len() {
                match escaped(src[pos + 1 as int]) {
                    Some(c) => lemma_string_end(
                        src,
                        pos + 2,
                        StringScan { text: so_far.text.push(c), ..so_far },
                    ),
                    None => lemma_string_end(
                        src,
                        pos + 2,
                        StringScan {
                            errors: so_far.errors.push(
                                line_error(so_far.line, "Invalid escape sequence."@),
                            ),
                            ..so_far
                        },
                    ),
                }
            }
        } else {
            lemma_string_end(
                src,
                pos + 1,
                StringScan {
                    line: if src[pos as int] == '\n' {
                        next_line(so_far.line)
                    } else {
                        so_far.line
                    },
                    text: so_far.text.push(src[pos as int]),
                    ..so_far
                },
            );
        }
    }
}

/// Every step of a scan moves on in the source, and not beyond its end: a
/// scan comes to the end of every source.
pub proof fn lemma_scan_token_moves_on(src: Seq<char>, p: Progress)
    requires
        p.current < src.len(),
    ensures
        p.current < scan_token(src, p).current <= src.len(),
{
    let next = p.current + 1;
    if next < src.len() {
        lemma_line_end(src, (next + 1) as nat);
        lemma_comment_end(src, (next + 1) as nat, p.line, 1);
    }
    lemma_string_end(
        src,
        next,
        StringScan { end: next, line: p.line, text: Seq::empty(), errors: p.errors },
    );
    lemma_digits_end(src, next);
    let whole = digits_end(src, next);
    if whole + 1 <= src.len() {
        lemma_digits_end(src, whole + 1);
    }
    lemma_word_end(src, next);
}

} // verus!
