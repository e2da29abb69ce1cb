//! The parser: from tokens to statements, by recursive descent.
//!
//! From the loosest binding to the tightest:
//!
//! ```text
//! program     -> declaration* EOF
//! declaration -> varStmt | statement
//! varStmt     -> "var" IDENTIFIER ( "=" expression )? ";"
//! statement   -> printStmt | block | whileStmt | funStmt | forStmt | ifStmt
//!              | returnStmt | exprStmt
//! funStmt     -> "fun" IDENTIFIER "(" parameters? ")" "{" declaration* "}"
//! parameters  -> IDENTIFIER ( "," IDENTIFIER )*
//! forStmt     -> "for" "(" ( varStmt | exprStmt | ";" ) expression? ";"
//!                expression? ")" statement
//! whileStmt   -> "while" "(" expression ")" statement
//! ifStmt      -> "if" "(" expression ")" statement ( "else" statement )?
//! returnStmt  -> "return" expression? ";"
//! block       -> "{" declaration* "}"
//! printStmt   -> "print" expression ";"
//! exprStmt    -> expression ";"
//! expression  -> logic_or ( "=" expression )?
//! logic_or    -> logic_and ( "or" logic_and )*
//! logic_and   -> equality ( "and" equality )*
//! equality    -> ternary ( ( "!=" | "==" ) ternary )*
//! ternary     -> comparison ( "?" expression ":" ternary )*
//! comparison  -> term ( ( ">" | ">=" | "<" | "<=" ) term )*
//! term        -> factor ( ( "-" | "+" ) factor )*
//! factor      -> unary ( ( "/" | "*" ) unary )*
//! unary       -> ( "!" | "-" ) unary | call
//! call        -> primary ( "(" arguments? ")" )*
//! arguments   -> expression ( "," expression )*
//! primary     -> NUMBER | STRING | "true" | "false" | "nil"
//!              | "(" expression ")" | IDENTIFIER
//! ```

use crate::compiler::error::{parse_error, ErrorView, LoxError, LoxErrorKind};
use crate::compiler::expr::{
    Assign, Binary, Call, Expr, Grouping, Literal, Logical, Object, Ternary, Unary, Value, Variable,
};
use crate::compiler::grammar::{
    block_end, ends_at, is_at, lemma_args_prefix, lemma_identifier_is_variable,
    lemma_list_prefix, lemma_names_prefix, level, list_end, literal_value, loop_end,
    more_arguments, more_calls, more_comparison, more_equality, more_factor, more_logic_and,
    more_logic_or, more_parameters, more_term, more_ternary, names_span, reach_arguments,
    reach_block, reach_call, reach_comparison, reach_declaration, reach_equality,
    reach_expression, reach_expression_statement, reach_factor, reach_for, reach_function,
    reach_if, reach_logic_and, reach_logic_or, reach_parameters, reach_primary, reach_print,
    reach_program, reach_return, reach_statement, reach_term, reach_ternary, reach_unary,
    reach_var, reach_while, sees, span, spelled, spelled_args, spelled_names, stmt_end,
    token_at, width, Reach,
};
use crate::compiler::number::Number;
use crate::compiler::stmt::{
    Block, Expression, Function, IfStmt, Print, ReturnStmt, Stmt, Var, WhileStmt,
};
use crate::compiler::token::{Token, TokenType};
use std::rc::Rc;
use vstd::prelude::*;
use vstd::string::*;

verus! {

broadcast use vstd::std_specs::vec::axiom_vec_index_decreases;

/// Whether `kind` is among `kinds`.
pub open spec fn among(kinds: Seq<TokenType>, kind: TokenType) -> bool {
    exists|i: int| 0 <= i < kinds.len() && kinds[i] == kind
}

/// The literal expression that a `NUMBER` or `STRING` token stands for.
pub fn literal_of(token: &Token) -> (r: Result<Expr, LoxError>)
    ensures
        match r {
            Ok(e) => e matches Expr::Literal(l) && literal_value(*token) == Ok::<Value, ErrorView>(
                l.value@,
            ),
            Err(e) => literal_value(*token) == Err::<Value, ErrorView>(e@),
        },
{
    match token.token_type {
        TokenType::NUMBER => match &token.literal {
            Some(text) => match Number::parse(text.as_str()) {
                Some(n) => Ok(Expr::Literal(Literal { value: Object::Number(n) })),
                None => Err(LoxError::new_parse(token.clone(), "Invalid number format")),
            },
            None => Err(LoxError::new_parse(token.clone(), "Missing literal value for number")),
        },
        TokenType::STRING => match &token.literal {
            Some(text) => Ok(Expr::Literal(Literal { value: Object::String(text.clone()) })),
            None => Err(LoxError::new_parse(token.clone(), "Missing literal value for string")),
        },
        _ => Err(LoxError::new_parse(token.clone(), "Unexpected token type in primary")),
    }
}

/// The literal expression of a value.
fn constant(value: Object) -> (e: Expr)
    ensures
        e matches Expr::Literal(l) && l.value == value,
{
    Expr::Literal(Literal { value })
}

/// Whether `w` is the loop of a `for` statement: a `while` loop on the
/// condition (on `true` if there is none) whose body is a block of the
/// body, followed by the increment if there is one.
pub open spec fn loop_of(
    w: WhileStmt,
    condition: Option<Expr>,
    increment: Option<Expr>,
    body: Stmt,
) -> bool {
    &&& match condition {
        Some(c) => *w.condition == c,
        None => match *w.condition {
            Expr::Literal(l) => l.value == Object::Boolean(true),
            _ => false,
        },
    }
    &&& match *w.body {
        Stmt::Block(b) => match increment {
            Some(step) => b.statements@.len() == 2 && b.statements@[0] == body && match b.statements@[1] {
                Stmt::Expression(x) => *x.expression == step,
                _ => false,
            },
            None => b.statements@.len() == 1 && b.statements@[0] == body,
        },
        _ => false,
    }
}

/// Whether `s` is a `for` statement written with `while`: the loop, in a
/// block behind the initializer if there is one.
pub open spec fn for_loop(
    s: Stmt,
    initializer: Option<Stmt>,
    condition: Option<Expr>,
    increment: Option<Expr>,
    body: Stmt,
) -> bool {
    match initializer {
        Some(first) => match s {
            Stmt::Block(b) => b.statements@.len() == 2 && b.statements@[0] == first && match b.statements@[1] {
                Stmt::WhileStmt(w) => loop_of(*w, condition, increment, body),
                _ => false,
            },
            _ => false,
        },
        None => match s {
            Stmt::WhileStmt(w) => loop_of(*w, condition, increment, body),
            _ => false,
        },
    }
}

/// Writes a `for` statement with `while`.
pub fn desugar_for(
    initializer: Option<Stmt>,
    condition: Option<Expr>,
    increment: Option<Expr>,
    body: Stmt,
) -> (s: Stmt)
    ensures
        for_loop(s, initializer, condition, increment, body),
{
    let mut inner: Vec<Stmt> = Vec::new();
    inner.push(body);
    match increment {
        Some(step) => {
            inner.push(Stmt::Expression(Box::new(Expression { expression: Box::new(step) })));
        },
        None => {},
    }
    let condition = match condition {
        Some(c) => c,
        None => constant(Object::Boolean(true)),
    };
    let looping = Stmt::WhileStmt(
        Box::new(
            WhileStmt {
                condition: Box::new(condition),
                body: Box::new(Stmt::Block(Box::new(Block { statements: inner }))),
            },
        ),
    );
    match initializer {
        Some(first) => {
            let mut outer: Vec<Stmt> = Vec::new();
            outer.push(first);
            outer.push(looping);
            Stmt::Block(Box::new(Block { statements: outer }))
        },
        None => looping,
    }
}

/// The parser: the tokens, and how far it has come in them.
pub struct Parser {
    pub tokens: Vec<Token>,
    /// The position of the next token.
    pub current: usize,
}

impl Parser {
    /// There are tokens, and the parser is among them or just behind them.
    pub open spec fn wf(&self) -> bool {
        0 < self.tokens@.len() && self.current <= self.tokens@.len()
    }

    /// Whether the parser is behind the last token or at the end token.
    pub open spec fn at_end(&self) -> bool {
        ends_at(self.tokens@, self.current as int)
    }

    /// The token that the parser looks at: the next token, or the last token
    /// where the tokens are used up.
    pub open spec fn next(&self) -> Token {
        token_at(self.tokens@, self.current as int)
    }

    /// Whether the next token is of type `kind`; at the end no token is.
    pub open spec fn sees(&self, kind: TokenType) -> bool {
        sees(self.tokens@, self.current as int, kind)
    }

    /// What parsing leaves of the parser `before`: the same tokens, a
    /// position that is not further back and, after a success, further on.
    pub open spec fn advanced(&self, before: &Parser, success: bool) -> bool {
        &&& self.tokens == before.tokens
        &&& self.wf()
        &&& before.current <= self.current
        &&& success ==> before.current < self.current
    }

    /// What parsing the expression `e` leaves of the parser `before`: the
    /// tokens that were stepped over spell `e`, whose outermost operator
    /// binds at least as tightly as `least`.
    pub open spec fn parsed(&self, before: &Parser, e: Expr, least: nat) -> bool {
        &&& spelled(e, self.tokens@, before.current as int)
        &&& self.current == before.current + width(e)
        &&& level(e) >= least
    }

    /// Whether this parser, with the result `r`, has come as far as `reach`
    /// says, and has failed with the error that `reach` names if it names one.
    pub open spec fn came_to<T>(&self, r: Result<T, LoxError>, reach: Reach) -> bool {
        &&& self.current == reach.end
        &&& match r {
            Ok(_) => reach.failure is None,
            Err(e) => reach.failure == Some(e@),
        }
    }

    /// Whether the token before the next one is of type `kind`.
    pub open spec fn behind(&self, kind: TokenType) -> bool {
        self.current > 0 && is_at(self.tokens@, self.current - 1, kind)
    }

    /// Whether the tokens from `from` up to the next one spell the statement
    /// `s`.
    pub open spec fn stated(&self, s: Stmt, from: int) -> bool {
        stmt_end(s, self.tokens@, from) == Some(self.current as int)
    }

    /// A parser at the first of `tokens`.
    pub fn new(tokens: &Vec<Token>) -> (parser: Self)
        ensures
            parser.tokens@ == tokens@,
            parser.current == 0,
    {
        let mut copy: Vec<Token> = Vec::new();
        let mut i: usize = 0;
        while i < tokens.len()
            invariant
                i <= tokens.len(),
                copy@ == tokens@.take(i as int),
            decreases tokens.len() - i,
        {
            copy.push(tokens[i].clone());
            assert(tokens@.take(i as int).push(tokens@[i as int]) =~= tokens@.take(i + 1));
            i += 1;
        }
        assert(tokens@.take(tokens@.len() as int) =~= tokens@);
        Parser { tokens: copy, current: 0 }
    }

    /// Whether the tokens are used up.
    pub fn is_at_end(&self) -> (r: bool)
        ensures
            r == self.at_end(),
    {
        self.current >= self.tokens.len() || self.tokens[self.current].token_type == TokenType::EOF
    }

    /// The token that the parser looks at: the next token, or the last token
    /// where the tokens are used up.
    pub fn peek(&self) -> (t: &Token)
        requires
            self.tokens@.len() > 0,
        ensures
            *t == if self.at_end() {
                self.tokens@[self.tokens@.len() - 1]
            } else {
                self.tokens@[self.current as int]
            },
            *t == self.next(),
    {
        if self.is_at_end() {
            &self.tokens[self.tokens.len() - 1]
        } else {
            &self.tokens[self.current]
        }
    }

    /// The token before the next one.
    pub fn previous(&self) -> (t: &Token)
        requires
            0 < self.current <= self.tokens@.len(),
        ensures
            *t == self.tokens@[self.current - 1],
    {
        &self.tokens[self.current - 1]
    }

    /// Whether the next token is of type `token_type`.
    pub fn check(&self, token_type: &TokenType) -> (r: bool)
        ensures
            r == self.sees(*token_type),
    {
        if self.is_at_end() {
            return false;
        }
        self.peek().token_type == *token_type
    }

    /// Steps over the next token, unless the parser is at the end, and
    /// returns the token before the new position.
    pub fn advance(&mut self) -> (t: Token)
        requires
            old(self).wf(),
            old(self).current > 0 || !old(self).at_end(),
        ensures
            final(self).tokens == old(self).tokens,
            final(self).current == if old(self).at_end() {
                old(self).current as int
            } else {
                old(self).current + 1
            },
            t == final(self).tokens@[final(self).current - 1],
    {
        if !self.is_at_end() {
            assert(self.current < self.tokens.len());
            self.current += 1;
        }
        self.tokens[self.current - 1].clone()
    }

    /// Steps over the next token if its type is among `token_types`, and
    /// says whether it did.
    pub fn match_token(&mut self, token_types: &[TokenType]) -> (r: bool)
        ensures
            final(self).tokens == old(self).tokens,
            r == (!old(self).at_end() && among(token_types@, old(self).next().token_type)),
            final(self).current == if r {
                old(self).current + 1
            } else {
                old(self).current as int
            },
    {
        let mut i: usize = 0;
        while i < token_types.len()
            invariant
                i <= token_types.len(),
                self.tokens == old(self).tokens,
                self.current == old(self).current,
                forall|j: int| 0 <= j < i ==> !self.sees(#[trigger] token_types@[j]),
            decreases token_types.len() - i,
        {
            if self.check(&token_types[i]) {
                assert(self.current < self.tokens.len());
                self.current += 1;
                return true;
            }
            i += 1;
        }
        false
    }

    /// Steps over the next token if it is of type `kind`, and says whether
    /// it did.
    fn accept(&mut self, kind: TokenType) -> (r: bool)
        requires
            old(self).wf(),
        ensures
            final(self).tokens == old(self).tokens,
            final(self).wf(),
            r == sees(old(self).tokens@, old(self).current as int, kind),
            final(self).current == if r {
                old(self).current + 1
            } else {
                old(self).current as int
            },
    {
        if self.check(&kind) {
            assert(self.current < self.tokens.len());
            self.current += 1;
            true
        } else {
            false
        }
    }

    /// Steps over the next token if it is of type `first` or `second`, and
    /// says whether it did.
    fn accept_either(&mut self, first: TokenType, second: TokenType) -> (r: bool)
        requires
            old(self).wf(),
        ensures
            final(self).tokens == old(self).tokens,
            final(self).wf(),
            r == (sees(old(self).tokens@, old(self).current as int, first) || sees(
                old(self).tokens@,
                old(self).current as int,
                second,
            )),
            final(self).current == if r {
                old(self).current + 1
            } else {
                old(self).current as int
            },
    {
        if self.check(&first) || self.check(&second) {
            assert(self.current < self.tokens.len());
            self.current += 1;
            true
        } else {
            false
        }
    }

    /// Steps over the next token if it is one of the four operators of
    /// comparison, and says whether it did.
    fn accept_comparison(&mut self) -> (r: bool)
        requires
            old(self).wf(),
        ensures
            final(self).tokens == old(self).tokens,
            final(self).wf(),
            r == (sees(old(self).tokens@, old(self).current as int, TokenType::GREATER) || sees(
                old(self).tokens@,
                old(self).current as int,
                TokenType::GREATER_EQUAL,
            ) || sees(old(self).tokens@, old(self).current as int, TokenType::LESS) || sees(
                old(self).tokens@,
                old(self).current as int,
                TokenType::LESS_EQUAL,
            )),
            final(self).current == if r {
                old(self).current + 1
            } else {
                old(self).current as int
            },
    {
        if self.accept_either(TokenType::GREATER, TokenType::GREATER_EQUAL) {
            true
        } else {
            self.accept_either(TokenType::LESS, TokenType::LESS_EQUAL)
        }
    }

    /// Steps over the next token if it is of type `token_type`, and returns
    /// it; else fails with `message` at the next token.
    pub fn consume(&mut self, token_type: &TokenType, message: &str) -> (r: Result<Token, LoxError>)
        requires
            old(self).wf(),
        ensures
            final(self).tokens == old(self).tokens,
            match r {
                Ok(t) => old(self).sees(*token_type) && t == old(self).next() && final(self).current
                    == old(self).current + 1,
                Err(e) => !old(self).sees(*token_type) && e@ == parse_error(
                    old(self).next(),
                    message@,
                ) && final(self).current == old(self).current,
            },
    {
        if self.check(token_type) {
            Ok(self.advance())
        } else {
            Err(LoxError::new_parse(self.peek().clone(), message))
        }
    }

    /// The error `message` at the next token.
    fn fail(&self, message: &str) -> (e: LoxError)
        requires
            self.wf(),
        ensures
            e@ == parse_error(self.next(), message@),
    {
        LoxError::new_parse(self.peek().clone(), message)
    }
}

impl Parser {
    /// expression -> logic_or ( "=" expression )?
    ///
    /// The target of an assignment must be a variable.
    pub fn expression(&mut self) -> (r: Result<Expr, LoxError>)
        requires
            old(self).wf(),
        ensures
            final(self).advanced(old(self), r is Ok),
            r matches Ok(e) ==> final(self).parsed(old(self), e, 0),
            final(self).came_to(r, reach_expression(old(self).tokens@, old(self).current as int)),
            r matches Err(e) ==> e.kind == LoxErrorKind::Parse,
        decreases old(self).tokens@.len() - old(self).current, 10nat,
    {
        let target = self.logic_or()?;
        if self.accept(TokenType::EQUAL) {
            let equals = self.previous().clone();
            let value = self.expression()?;
            proof {
                if is_at(self.tokens@, old(self).current as int, TokenType::IDENTIFIER) && width(
                    target,
                ) == 1 {
                    lemma_identifier_is_variable(target, self.tokens@, old(self).current as int);
                }
            }
            return match target {
                Expr::Variable(v) => {
                    let v = *v;
                    Ok(
                        Expr::Assign(
                            Box::new(Assign { name: v.name, site: v.site, value: Box::new(value) }),
                        ),
                    )
                },
                _ => Err(LoxError::new_parse(equals, "Invalid assignment target")),
            };
        }
        Ok(target)
    }

    /// logic_or -> logic_and ( "or" logic_and )*
    pub fn logic_or(&mut self) -> (r: Result<Expr, LoxError>)
        requires
            old(self).wf(),
        ensures
            final(self).advanced(old(self), r is Ok),
            r matches Ok(e) ==> final(self).parsed(old(self), e, 1),
            final(self).came_to(r, reach_logic_or(old(self).tokens@, old(self).current as int)),
            r matches Err(e) ==> e.kind == LoxErrorKind::Parse,
        decreases old(self).tokens@.len() - old(self).current, 9nat,
    {
        let mut expr = self.logic_and()?;
        while self.accept(TokenType::OR)
            invariant
                self.advanced(old(self), true),
                self.parsed(old(self), expr, 1),
                reach_logic_or(self.tokens@, old(self).current as int) == more_logic_or(
                    self.tokens@,
                    self.current as int,
                ),
            decreases self.tokens@.len() - self.current,
        {
            let operator = self.previous().clone();
            let right = self.logic_and()?;
            expr = Expr::Logical(
                Box::new(Logical { left: Box::new(expr), operator, right: Box::new(right) }),
            );
        }
        Ok(expr)
    }

    /// logic_and -> equality ( "and" equality )*
    pub fn logic_and(&mut self) -> (r: Result<Expr, LoxError>)
        requires
            old(self).wf(),
        ensures
            final(self).advanced(old(self), r is Ok),
            r matches Ok(e) ==> final(self).parsed(old(self), e, 2),
            final(self).came_to(r, reach_logic_and(old(self).tokens@, old(self).current as int)),
            r matches Err(e) ==> e.kind == LoxErrorKind::Parse,
        decreases old(self).tokens@.len() - old(self).current, 8nat,
    {
        let mut expr = self.equality()?;
        while self.accept(TokenType::AND)
            invariant
                self.advanced(old(self), true),
                self.parsed(old(self), expr, 2),
                reach_logic_and(self.tokens@, old(self).current as int) == more_logic_and(
                    self.tokens@,
                    self.current as int,
                ),
            decreases self.tokens@.len() - self.current,
        {
            let operator = self.previous().clone();
            let right = self.equality()?;
            expr = Expr::Logical(
                Box::new(Logical { left: Box::new(expr), operator, right: Box::new(right) }),
            );
        }
        Ok(expr)
    }

    /// equality -> ternary ( ( "!=" | "==" ) ternary )*
    pub fn equality(&mut self) -> (r: Result<Expr, LoxError>)
        requires
            old(self).wf(),
        ensures
            final(self).advanced(old(self), r is Ok),
            r matches Ok(e) ==> final(self).parsed(old(self), e, 3),
            final(self).came_to(r, reach_equality(old(self).tokens@, old(self).current as int)),
            r matches Err(e) ==> e.kind == LoxErrorKind::Parse,
        decreases old(self).tokens@.len() - old(self).current, 7nat,
    {
        let mut expr = self.ternary()?;
        while self.accept_either(TokenType::BANG_EQUAL, TokenType::EQUAL_EQUAL)
            invariant
                self.advanced(old(self), true),
                self.parsed(old(self), expr, 3),
                reach_equality(self.tokens@, old(self).current as int) == more_equality(
                    self.tokens@,
                    self.current as int,
                ),
            decreases self.tokens@.len() - self.current,
        {
            let operator = self.previous().clone();
            let right = self.ternary()?;
            expr = Expr::Binary(
                Box::new(Binary { left: Box::new(expr), operator, right: Box::new(right) }),
            );
        }
        Ok(expr)
    }

    /// ternary -> comparison ( "?" expression ":" ternary )*
    pub fn ternary(&mut self) -> (r: Result<Expr, LoxError>)
        requires
            old(self).wf(),
        ensures
            final(self).advanced(old(self), r is Ok),
            r matches Ok(e) ==> final(self).parsed(old(self), e, 4),
            final(self).came_to(r, reach_ternary(old(self).tokens@, old(self).current as int)),
            r matches Err(e) ==> e.kind == LoxErrorKind::Parse,
        decreases old(self).tokens@.len() - old(self).current, 6nat,
    {
        let mut expr = self.comparison()?;
        while self.accept(TokenType::QUEST)
            invariant
                self.advanced(old(self), true),
                self.parsed(old(self), expr, 4),
                reach_ternary(self.tokens@, old(self).current as int) == more_ternary(
                    self.tokens@,
                    self.current as int,
                ),
            decreases self.tokens@.len() - self.current,
        {
            let left = self.expression()?;
            self.consume(&TokenType::COLON, "Expect ':' after '?'")?;
            let right = self.ternary()?;
            expr = Expr::Ternary(
                Box::new(
                    Ternary {
                        condition: Box::new(expr),
                        true_branch: Box::new(left),
                        false_branch: Box::new(right),
                    },
                ),
            );
        }
        Ok(expr)
    }

    /// comparison -> term ( ( ">" | ">=" | "<" | "<=" ) term )*
    #[verifier::spinoff_prover]
    #[verifier::rlimit(40)]
    pub fn comparison(&mut self) -> (r: Result<Expr, LoxError>)
        requires
            old(self).wf(),
        ensures
            final(self).advanced(old(self), r is Ok),
            r matches Ok(e) ==> final(self).parsed(old(self), e, 5),
            final(self).came_to(r, reach_comparison(old(self).tokens@, old(self).current as int)),
            r matches Err(e) ==> e.kind == LoxErrorKind::Parse,
        decreases old(self).tokens@.len() - old(self).current, 5nat,
    {
        let mut expr = self.term()?;
        while self.accept_comparison()
            invariant
                self.advanced(old(self), true),
                self.parsed(old(self), expr, 5),
                reach_comparison(self.tokens@, old(self).current as int) == more_comparison(
                    self.tokens@,
                    self.current as int,
                ),
            decreases self.tokens@.len() - self.current,
        {
            let operator = self.previous().clone();
            let right = self.term()?;
            expr = Expr::Binary(
                Box::new(Binary { left: Box::new(expr), operator, right: Box::new(right) }),
            );
        }
        Ok(expr)
    }

    /// term -> factor ( ( "-" | "+" ) factor )*
    pub fn term(&mut self) -> (r: Result<Expr, LoxError>)
        requires
            old(self).wf(),
        ensures
            final(self).advanced(old(self), r is Ok),
            r matches Ok(e) ==> final(self).parsed(old(self), e, 6),
            final(self).came_to(r, reach_term(old(self).tokens@, old(self).current as int)),
            r matches Err(e) ==> e.kind == LoxErrorKind::Parse,
        decreases old(self).tokens@.len() - old(self).current, 4nat,
    {
        let mut expr = self.factor()?;
        while self.accept_either(TokenType::MINUS, TokenType::PLUS)
            invariant
                self.advanced(old(self), true),
                self.parsed(old(self), expr, 6),
                reach_term(self.tokens@, old(self).current as int) == more_term(
                    self.tokens@,
                    self.current as int,
                ),
            decreases self.tokens@.len() - self.current,
        {
            let operator = self.previous().clone();
            let right = self.factor()?;
            expr = Expr::Binary(
                Box::new(Binary { left: Box::new(expr), operator, right: Box::new(right) }),
            );
        }
        Ok(expr)
    }

    /// factor -> unary ( ( "/" | "*" ) unary )*
    pub fn factor(&mut self) -> (r: Result<Expr, LoxError>)
        requires
            old(self).wf(),
        ensures
            final(self).advanced(old(self), r is Ok),
            r matches Ok(e) ==> final(self).parsed(old(self), e, 7),
            final(self).came_to(r, reach_factor(old(self).tokens@, old(self).current as int)),
            r matches Err(e) ==> e.kind == LoxErrorKind::Parse,
        decreases old(self).tokens@.len() - old(self).current, 3nat,
    {
        let mut expr = self.unary()?;
        while self.accept_either(TokenType::SLASH, TokenType::STAR)
            invariant
                self.advanced(old(self), true),
                self.parsed(old(self), expr, 7),
                reach_factor(self.tokens@, old(self).current as int) == more_factor(
                    self.tokens@,
                    self.current as int,
                ),
            decreases self.tokens@.len() - self.current,
        {
            let operator = self.previous().clone();
            let right = self.unary()?;
            expr = Expr::Binary(
                Box::new(Binary { left: Box::new(expr), operator, right: Box::new(right) }),
            );
        }
        Ok(expr)
    }

    /// unary -> ( "!" | "-" ) unary | call
    pub fn unary(&mut self) -> (r: Result<Expr, LoxError>)
        requires
            old(self).wf(),
        ensures
            final(self).advanced(old(self), r is Ok),
            r matches Ok(e) ==> final(self).parsed(old(self), e, 8),
            final(self).came_to(r, reach_unary(old(self).tokens@, old(self).current as int)),
            r matches Err(e) ==> e.kind == LoxErrorKind::Parse,
        decreases old(self).tokens@.len() - old(self).current, 2nat,
    {
        if self.accept_either(TokenType::BANG, TokenType::MINUS) {
            let operator = self.previous().clone();
            let right = self.unary()?;
            return Ok(Expr::Unary(Box::new(Unary { operator, right: Box::new(right) })));
        }
        self.call()
    }

    /// call -> primary ( "(" arguments? ")" )*
    #[verifier::spinoff_prover]
    #[verifier::rlimit(40)]
    pub fn call(&mut self) -> (r: Result<Expr, LoxError>)
        requires
            old(self).wf(),
        ensures
            final(self).advanced(old(self), r is Ok),
            r matches Ok(e) ==> final(self).parsed(old(self), e, 9),
            final(self).came_to(r, reach_call(old(self).tokens@, old(self).current as int)),
            r matches Err(e) ==> e.kind == LoxErrorKind::Parse,
        decreases old(self).tokens@.len() - old(self).current, 1nat,
    {
        let mut callee = self.primary()?;
        while self.accept(TokenType::LPAREN)
            invariant
                self.advanced(old(self), true),
                self.parsed(old(self), callee, 9),
                reach_call(self.tokens@, old(self).current as int) == more_calls(
                    self.tokens@,
                    self.current as int,
                ),
            decreases self.tokens@.len() - self.current,
        {
            callee = self.finish_call(callee)?;
        }
        Ok(callee)
    }

    /// The arguments of a call and its closing parenthesis, behind the
    /// opening parenthesis that follows the callee.
    pub fn finish_call(&mut self, callee: Expr) -> (r: Result<Expr, LoxError>)
        requires
            old(self).wf(),
        ensures
            final(self).advanced(old(self), r is Ok),
            r matches Ok(Expr::Call(c)) && *c.callee == callee || r is Err,
            r matches Ok(e) ==> ({
                let start = old(self).current - 1 - width(callee);
                spelled(callee, old(self).tokens@, start) && level(callee) >= 9 && is_at(
                    old(self).tokens@,
                    old(self).current - 1,
                    TokenType::LPAREN,
                ) ==> spelled(e, final(self).tokens@, start) && final(self).current == start
                    + width(e)
            }),
            final(self).came_to(r, reach_arguments(old(self).tokens@, old(self).current as int)),
            r matches Err(e) ==> e.kind == LoxErrorKind::Parse,
        decreases old(self).tokens@.len() - old(self).current, 11nat,
    {
        let ghost first = self.current as int;
        let mut args: Vec<Expr> = Vec::new();
        if !self.check(&TokenType::RPAREN) {
            let arg = self.expression()?;
            args.push(arg);
            while self.accept(TokenType::COMMA)
                invariant
                    self.advanced(old(self), false),
                    first == old(self).current,
                    args@.len() > 0,
                    spelled_args(args@, self.tokens@, first, args@.len() as nat),
                    self.current == first + span(args@, args@.len() as nat),
                    reach_arguments(self.tokens@, first) == more_arguments(
                        self.tokens@,
                        self.current as int,
                    ),
                decreases self.tokens@.len() - self.current,
            {
                let ghost before = args@;
                let arg = self.expression()?;
                args.push(arg);
                proof {
                    lemma_args_prefix(before, args@, self.tokens@, first, before.len() as nat);
                }
            }
        }
        assert(spelled_args(args@, self.tokens@, first, args@.len() as nat));
        assert(self.current == first + span(args@, args@.len() as nat));
        let paren = self.consume(&TokenType::RPAREN, "Expect ')' after arguments.")?;
        let e = Expr::Call(Box::new(Call { callee: Box::new(callee), paren, args }));
        proof {
            let start = first - 1 - width(callee);
            if spelled(callee, self.tokens@, start) && level(callee) >= 9 && is_at(
                self.tokens@,
                first - 1,
                TokenType::LPAREN,
            ) {
                assert(width(e) == width(callee) + 1 + span(args@, args@.len() as nat) + 1);
                assert(spelled(e, self.tokens@, start));
            }
        }
        Ok(e)
    }

    /// primary -> NUMBER | STRING | "true" | "false" | "nil"
    ///          | "(" expression ")" | IDENTIFIER
    pub fn primary(&mut self) -> (r: Result<Expr, LoxError>)
        requires
            old(self).wf(),
        ensures
            final(self).advanced(old(self), r is Ok),
            r matches Ok(e) ==> final(self).parsed(old(self), e, 10),
            final(self).came_to(r, reach_primary(old(self).tokens@, old(self).current as int)),
            r matches Err(e) ==> e.kind == LoxErrorKind::Parse,
        decreases old(self).tokens@.len() - old(self).current, 0nat,
    {
        if self.accept_either(TokenType::NUMBER, TokenType::STRING) {
            return match literal_of(self.previous()) {
                Ok(e) => Ok(e),
                Err(e) => Err(e),
            };
        }
        if self.accept(TokenType::TRUE) {
            return Ok(constant(Object::Boolean(true)));
        }
        if self.accept(TokenType::FALSE) {
            return Ok(constant(Object::Boolean(false)));
        }
        if self.accept(TokenType::NIL) {
            return Ok(constant(Object::Nil));
        }
        if self.accept(TokenType::LPAREN) {
            let expr = self.expression()?;
            self.consume(&TokenType::RPAREN, "Expected closing parenthesis")?;
            return Ok(Expr::Grouping(Box::new(Grouping { expression: Box::new(expr) })));
        }
        if self.accept(TokenType::IDENTIFIER) {
            let name = self.previous().clone();
            return Ok(Expr::Variable(Box::new(Variable { name, site: self.current - 1 })));
        }
        Err(self.fail("Expect expression"))
    }

    /// The name, the parameters and the body of a function, behind `fun`.
    pub fn function(&mut self) -> (r: Result<Stmt, LoxError>)
        requires
            old(self).wf(),
        ensures
            final(self).advanced(old(self), r is Ok),
            r matches Ok(s) ==> s is Function && (old(self).behind(TokenType::FUN) ==> final(self).stated(s, old(self).current - 1)),
            final(self).came_to(r, reach_function(old(self).tokens@, old(self).current as int)),
            r matches Err(e) ==> e.kind == LoxErrorKind::Parse,
        decreases old(self).tokens@.len() - old(self).current, 29nat,
    {
        let name = self.consume(&TokenType::IDENTIFIER, "Expect function name.")?;
        let params = self.fun_parameters()?;
        self.consume(&TokenType::LBRACE, "Expect '{' before function body.")?;
        let body = self.block()?;
        Ok(
            Stmt::Function(
                Rc::new(
                    Function {
                        name: Box::new(name),
                        parameters: Box::new(params),
                        body: Box::new(body),
                    },
                ),
            ),
        )
    }

    /// funStmt -> "fun" IDENTIFIER "(" parameters? ")" "{" declaration* "}"
    ///
    /// The rest of a function declaration, behind `fun`.
    pub fn fun_statement(&mut self) -> (r: Result<Stmt, LoxError>)
        requires
            old(self).wf(),
        ensures
            final(self).advanced(old(self), r is Ok),
            r matches Ok(s) ==> s is Function && (old(self).behind(TokenType::FUN) ==> final(self).stated(s, old(self).current - 1)),
            final(self).came_to(r, reach_function(old(self).tokens@, old(self).current as int)),
            r matches Err(e) ==> e.kind == LoxErrorKind::Parse,
        decreases old(self).tokens@.len() - old(self).current, 30nat,
    {
        self.function()
    }

    /// The parameters of a function, in parentheses: at most 255 names with
    /// commas between them.
    pub fn fun_parameters(&mut self) -> (r: Result<Vec<Token>, LoxError>)
        requires
            old(self).wf(),
        ensures
            final(self).advanced(old(self), r is Ok),
            r matches Ok(params) ==> {
                &&& params@.len() <= 255
                &&& is_at(final(self).tokens@, old(self).current as int, TokenType::LPAREN)
                &&& spelled_names(
                    params@,
                    final(self).tokens@,
                    old(self).current + 1,
                    params@.len(),
                )
                &&& final(self).current == old(self).current + 2 + names_span(params@.len())
                &&& final(self).behind(TokenType::RPAREN)
            },
            final(self).came_to(r, reach_parameters(old(self).tokens@, old(self).current as int)),
            r matches Err(e) ==> e.kind == LoxErrorKind::Parse,
    {
        let mut params: Vec<Token> = Vec::new();
        self.consume(&TokenType::LPAREN, "Expect '(' after function name.")?;
        let ghost first = self.current as int;
        if !self.check(&TokenType::RPAREN) {
            let name = self.consume(&TokenType::IDENTIFIER, "Expect parameter name.")?;
            params.push(name);
            assert(spelled_names(params@, self.tokens@, first, 0));
            while self.accept(TokenType::COMMA)
                invariant
                    self.advanced(old(self), true),
                    first == old(self).current + 1,
                    0 < params@.len() <= 255,
                    spelled_names(params@, self.tokens@, first, params@.len() as nat),
                    self.current == first + names_span(params@.len()),
                    reach_parameters(self.tokens@, first - 1) == more_parameters(
                        self.tokens@,
                        self.current as int,
                        params@.len() as nat,
                    ),
                decreases self.tokens@.len() - self.current,
            {
                if params.len() >= 255 {
                    return Err(self.fail("Cannot have more than 255 parameters."));
                }
                let ghost before = params@;
                let name = self.consume(&TokenType::IDENTIFIER, "Expect parameter name.")?;
                params.push(name);
                proof {
                    lemma_names_prefix(before, params@, self.tokens@, first, before.len() as nat);
                }
            }
        }
        self.consume(&TokenType::RPAREN, "Expect ')' after parameters.")?;
        Ok(params)
    }

    /// forStmt -> "for" "(" ( varStmt | exprStmt | ";" ) expression? ";"
    ///            expression? ")" statement
    ///
    /// The statement is written with `while`.
    #[verifier::spinoff_prover]
    #[verifier::rlimit(40)]
    pub fn for_statement(&mut self) -> (r: Result<Stmt, LoxError>)
        requires
            old(self).wf(),
        ensures
            final(self).advanced(old(self), r is Ok),
            r matches Ok(s) ==> (old(self).behind(TokenType::FOR) ==> final(self).stated(
                s,
                old(self).current - 1,
            )),
            final(self).came_to(r, reach_for(old(self).tokens@, old(self).current as int)),
            r matches Err(e) ==> e.kind == LoxErrorKind::Parse,
        decreases old(self).tokens@.len() - old(self).current, 27nat,
    {
        if !self.accept(TokenType::LPAREN) {
            return Err(self.fail("Expect '(' after 'for'."));
        }
        let ghost first = self.current as int;
        let initializer = if self.accept(TokenType::SEMICOLON) {
            None
        } else if self.accept(TokenType::VAR) {
            Some(self.var_declar())
        } else {
            Some(self.expression_statement())
        };
        let ghost second = self.current as int;
        let condition = if self.check(&TokenType::SEMICOLON) {
            None
        } else {
            Some(self.expression()?)
        };
        self.consume(&TokenType::SEMICOLON, "Expect ';' after for condition.")?;
        let increment = if self.check(&TokenType::RPAREN) {
            None
        } else {
            Some(self.expression()?)
        };
        self.consume(&TokenType::RPAREN, "Expect ')' after for clauses.")?;
        let body = self.statement()?;
        let initializer = match initializer {
            Some(Ok(first)) => Some(first),
            Some(Err(e)) => {
                return Err(e);
            },
            None => None,
        };
        let ghost has_initializer = initializer is Some;
        let s = desugar_for(initializer, condition, increment, body);
        proof {
            if old(self).behind(TokenType::FOR) {
                let tokens = self.tokens@;
                let looping = if has_initializer {
                    s->Block_0.statements@[1]
                } else {
                    s
                };
                let w = *looping->WhileStmt_0;
                assert(loop_end(w, tokens, second) == Some(self.current as int));
                assert(stmt_end(s, tokens, first - 2) == Some(self.current as int));
            }
        }
        Ok(s)
    }

    /// whileStmt -> "while" "(" expression ")" statement
    pub fn while_statement(&mut self) -> (r: Result<Stmt, LoxError>)
        requires
            old(self).wf(),
        ensures
            final(self).advanced(old(self), r is Ok),
            r matches Ok(s) ==> s is WhileStmt && (old(self).behind(TokenType::WHILE) ==> final(self).stated(s, old(self).current - 1)),
            final(self).came_to(r, reach_while(old(self).tokens@, old(self).current as int)),
            r matches Err(e) ==> e.kind == LoxErrorKind::Parse,
        decreases old(self).tokens@.len() - old(self).current, 27nat,
    {
        if !self.accept(TokenType::LPAREN) {
            return Err(self.fail("Expect '(' after 'while'."));
        }
        let condition = self.expression()?;
        self.consume(&TokenType::RPAREN, "Expect ')' after condition.")?;
        let body = self.statement()?;
        Ok(
            Stmt::WhileStmt(
                Box::new(WhileStmt { condition: Box::new(condition), body: Box::new(body) }),
            ),
        )
    }

    /// ifStmt -> "if" "(" expression ")" statement ( "else" statement )?
    ///
    /// An `else` belongs to the nearest `if` before it.
    pub fn if_statement(&mut self) -> (r: Result<Stmt, LoxError>)
        requires
            old(self).wf(),
        ensures
            final(self).advanced(old(self), r is Ok),
            r matches Ok(s) ==> s is IfStmt && (old(self).behind(TokenType::IF) ==> final(self).stated(s, old(self).current - 1)),
            final(self).came_to(r, reach_if(old(self).tokens@, old(self).current as int)),
            r matches Err(e) ==> e.kind == LoxErrorKind::Parse,
        decreases old(self).tokens@.len() - old(self).current, 27nat,
    {
        if !self.accept(TokenType::LPAREN) {
            return Err(self.fail("Expect '(' after 'if'."));
        }
        let condition = self.expression()?;
        self.consume(&TokenType::RPAREN, "Expect ')' after if condition.")?;
        let then_branch = self.statement()?;
        let else_branch = if self.accept(TokenType::ELSE) {
            Some(Box::new(self.statement()?))
        } else {
            None
        };
        Ok(
            Stmt::IfStmt(
                Box::new(
                    IfStmt {
                        condition: Box::new(condition),
                        then_branch: Box::new(then_branch),
                        else_branch,
                    },
                ),
            ),
        )
    }

    /// returnStmt -> "return" expression? ";"
    ///
    /// A `return` without an expression returns `nil`.
    pub fn return_statement(&mut self) -> (r: Result<Stmt, LoxError>)
        requires
            old(self).wf(),
            old(self).current > 0,
        ensures
            final(self).advanced(old(self), r is Ok),
            r matches Ok(s) ==> s is ReturnStmt && (old(self).behind(TokenType::RETURN) ==> final(self).stated(s, old(self).current - 1)),
            final(self).came_to(r, reach_return(old(self).tokens@, old(self).current as int)),
            r matches Err(e) ==> e.kind == LoxErrorKind::Parse,
        decreases old(self).tokens@.len() - old(self).current, 27nat,
    {
        let keyword = self.previous().clone();
        let value = if self.check(&TokenType::SEMICOLON) {
            constant(Object::Nil)
        } else {
            self.expression()?
        };
        self.consume(&TokenType::SEMICOLON, "Expect ';' after return value.")?;
        Ok(Stmt::ReturnStmt(Box::new(ReturnStmt { tok: Box::new(keyword), value: Box::new(value) })))
    }

    /// The statements and the closing brace of a block, behind its opening
    /// brace.
    pub fn block(&mut self) -> (r: Result<Stmt, LoxError>)
        requires
            old(self).wf(),
        ensures
            final(self).advanced(old(self), r is Ok),
            r matches Ok(Stmt::Block(b)) && block_end(
                b.statements@,
                final(self).tokens@,
                old(self).current as int,
            ) == Some(final(self).current as int) || r is Err,
            final(self).came_to(r, reach_block(old(self).tokens@, old(self).current as int)),
            r matches Err(e) ==> e.kind == LoxErrorKind::Parse,
        decreases old(self).tokens@.len() - old(self).current, 28nat,
    {
        let ghost first = self.current as int;
        let mut stmts: Vec<Stmt> = Vec::new();
        while !self.check(&TokenType::RBRACE) && !self.is_at_end()
            invariant
                self.advanced(old(self), false),
                first == old(self).current,
                list_end(stmts@, self.tokens@, first, stmts@.len() as nat) == Some(
                    self.current as int,
                ),
                reach_block(self.tokens@, first) == reach_block(self.tokens@, self.current as int),
            decreases self.tokens@.len() - self.current,
        {
            let ghost before = stmts@;
            let stmt = self.declaration()?;
            stmts.push(stmt);
            proof {
                lemma_list_prefix(before, stmts@, self.tokens@, first, before.len() as nat);
            }
        }
        self.consume(&TokenType::RBRACE, "Expect '}' after block.")?;
        Ok(Stmt::Block(Box::new(Block { statements: stmts })))
    }

    /// declaration -> varStmt | statement
    pub fn declaration(&mut self) -> (r: Result<Stmt, LoxError>)
        requires
            old(self).wf(),
        ensures
            final(self).advanced(old(self), r is Ok),
            r matches Ok(s) ==> final(self).stated(s, old(self).current as int),
            final(self).came_to(r, reach_declaration(old(self).tokens@, old(self).current as int)),
            r matches Err(e) ==> e.kind == LoxErrorKind::Parse,
        decreases old(self).tokens@.len() - old(self).current, 26nat,
    {
        if self.accept(TokenType::VAR) {
            return self.var_declar();
        }
        self.statement()
    }

    /// The rest of a variable declaration, behind `var`. A variable without
    /// an initializer starts as `nil`.
    pub fn var_declar(&mut self) -> (r: Result<Stmt, LoxError>)
        requires
            old(self).wf(),
        ensures
            final(self).advanced(old(self), r is Ok),
            r matches Ok(s) ==> s is Var && (old(self).behind(TokenType::VAR) ==> final(self).stated(s, old(self).current - 1)),
            final(self).came_to(r, reach_var(old(self).tokens@, old(self).current as int)),
            r matches Err(e) ==> e.kind == LoxErrorKind::Parse,
        decreases old(self).tokens@.len() - old(self).current, 27nat,
    {
        let name = self.consume(&TokenType::IDENTIFIER, "Expect variable name.")?;
        let initializer = if self.accept(TokenType::EQUAL) {
            self.expression()?
        } else {
            constant(Object::Nil)
        };
        self.consume(&TokenType::SEMICOLON, "Expect ';' after variable declaration.")?;
        Ok(Stmt::Var(Box::new(Var { name: Box::new(name), initializer: Box::new(initializer) })))
    }

    /// statement -> printStmt | block | whileStmt | funStmt | forStmt
    ///            | ifStmt | returnStmt | exprStmt
    pub fn statement(&mut self) -> (r: Result<Stmt, LoxError>)
        requires
            old(self).wf(),
        ensures
            final(self).advanced(old(self), r is Ok),
            r matches Ok(s) ==> final(self).stated(s, old(self).current as int),
            final(self).came_to(r, reach_statement(old(self).tokens@, old(self).current as int)),
            r matches Err(e) ==> e.kind == LoxErrorKind::Parse,
        decreases old(self).tokens@.len() - old(self).current, 25nat,
    {
        if self.accept(TokenType::PRINT) {
            self.print_expression()
        } else if self.accept(TokenType::LBRACE) {
            self.block()
        } else if self.accept(TokenType::WHILE) {
            self.while_statement()
        } else if self.accept(TokenType::FUN) {
            self.fun_statement()
        } else if self.accept(TokenType::FOR) {
            self.for_statement()
        } else if self.accept(TokenType::IF) {
            self.if_statement()
        } else if self.accept(TokenType::RETURN) {
            self.return_statement()
        } else {
            self.expression_statement()
        }
    }

    /// The rest of a print statement, behind `print`.
    pub fn print_expression(&mut self) -> (r: Result<Stmt, LoxError>)
        requires
            old(self).wf(),
        ensures
            final(self).advanced(old(self), r is Ok),
            r matches Ok(s) ==> s is Print && (old(self).behind(TokenType::PRINT) ==> final(self).stated(s, old(self).current - 1)),
            final(self).came_to(r, reach_print(old(self).tokens@, old(self).current as int)),
            r matches Err(e) ==> e.kind == LoxErrorKind::Parse,
        decreases old(self).tokens@.len() - old(self).current, 20nat,
    {
        let expr = self.expression()?;
        self.consume(&TokenType::SEMICOLON, "Expect ';' after value.")?;
        Ok(Stmt::Print(Box::new(Print { expression: Box::new(expr) })))
    }

    /// exprStmt -> expression ";"
    pub fn expression_statement(&mut self) -> (r: Result<Stmt, LoxError>)
        requires
            old(self).wf(),
        ensures
            final(self).advanced(old(self), r is Ok),
            r matches Ok(s) ==> s is Expression && final(self).stated(
                s,
                old(self).current as int,
            ),
            final(self).came_to(r, reach_expression_statement(old(self).tokens@, old(self).current as int)),
            r matches Err(e) ==> e.kind == LoxErrorKind::Parse,
        decreases old(self).tokens@.len() - old(self).current, 20nat,
    {
        let expr = self.expression()?;
        self.consume(&TokenType::SEMICOLON, "Expect ';' after expression.")?;
        Ok(Stmt::Expression(Box::new(Expression { expression: Box::new(expr) })))
    }

    /// program -> declaration* EOF
    ///
    /// The statements of the program are spelled, one after the other, by
    /// all the tokens from the next one up to the end.
    pub fn parse(&mut self) -> (r: Result<Vec<Stmt>, LoxError>)
        ensures
            final(self).tokens == old(self).tokens,
            old(self).current <= final(self).current,
            old(self).wf() ==> final(self).wf(),
            old(self).at_end() ==> final(self).current == old(self).current && r is Ok,
            r matches Ok(program) ==> (program@.len() == 0 <==> old(self).at_end()),
            r matches Ok(program) ==> list_end(
                program@,
                final(self).tokens@,
                old(self).current as int,
                program@.len(),
            ) == Some(final(self).current as int),
            r is Ok ==> final(self).at_end(),
            final(self).came_to(r, reach_program(old(self).tokens@, old(self).current as int)),
            r matches Err(e) ==> e.kind == LoxErrorKind::Parse,
    {
        let ghost first = self.current as int;
        let mut statements: Vec<Stmt> = Vec::new();
        while !self.is_at_end()
            invariant
                self.tokens == old(self).tokens,
                old(self).current <= self.current,
                old(self).wf() ==> self.wf(),
                first == old(self).current,
                statements@.len() == 0 <==> self.current == first,
                statements@.len() == 0 ==> !old(self).at_end() || self.at_end(),
                list_end(statements@, self.tokens@, first, statements@.len() as nat) == Some(
                    self.current as int,
                ),
                reach_program(self.tokens@, first) == reach_program(
                    self.tokens@,
                    self.current as int,
                ),
            decreases self.tokens@.len() - self.current,
        {
            let ghost before = statements@;
            let statement = self.declaration()?;
            statements.push(statement);
            proof {
                lemma_list_prefix(before, statements@, self.tokens@, first, before.len() as nat);
            }
        }
        Ok(statements)
    }
}

} // verus!
