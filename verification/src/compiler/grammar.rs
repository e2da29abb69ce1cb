//! What it means for tokens to spell an expression or a statement.
//!
//! The parser's contracts say that the tree which it returns is spelled by
//! exactly the tokens which it stepped over, and that operators nest in the
//! tree as their binding strength demands.

use crate::compiler::error::{parse_error, ErrorView};
use crate::compiler::expr::{Expr, Value};
use crate::compiler::number::numeral_value;
use crate::compiler::stmt::{Function, Stmt, WhileStmt};
use crate::compiler::token::{Token, TokenType};
use vstd::prelude::*;

verus! {

/// Whether there is a token of type `kind` at `at`.
pub open spec fn is_at(tokens: Seq<Token>, at: int, kind: TokenType) -> bool {
    0 <= at < tokens.len() && tokens[at].token_type == kind
}

/// The value that a literal token stands for: the number that a `NUMBER`
/// token's literal writes, or the text of a `STRING` token's literal.
pub open spec fn literal_value(token: Token) -> Result<Value, ErrorView> {
    if token.token_type == TokenType::NUMBER {
        match token.literal {
            Some(text) => match numeral_value(text@) {
                Some(n) => Ok(Value::Number(n)),
                None => Err(parse_error(token, "Invalid number format"@)),
            },
            None => Err(parse_error(token, "Missing literal value for number"@)),
        }
    } else if token.token_type == TokenType::STRING {
        match token.literal {
            Some(text) => Ok(Value::Text(text@)),
            None => Err(parse_error(token, "Missing literal value for string"@)),
        }
    } else {
        Err(parse_error(token, "Unexpected token type in primary"@))
    }
}

/// Whether `token` spells the constant `value`.
pub open spec fn spells_constant(token: Token, value: Value) -> bool {
    match token.token_type {
        TokenType::NUMBER => literal_value(token) == Ok::<Value, ErrorView>(value),
        TokenType::STRING => literal_value(token) == Ok::<Value, ErrorView>(value),
        TokenType::TRUE => value == Value::Boolean(true),
        TokenType::FALSE => value == Value::Boolean(false),
        TokenType::NIL => value == Value::Nil,
        _ => false,
    }
}

/// How tightly a binary operator binds, if `kind` is one.
pub open spec fn binary_level(kind: TokenType) -> Option<nat> {
    match kind {
        TokenType::BANG_EQUAL => Some(3),
        TokenType::EQUAL_EQUAL => Some(3),
        TokenType::GREATER => Some(5),
        TokenType::GREATER_EQUAL => Some(5),
        TokenType::LESS => Some(5),
        TokenType::LESS_EQUAL => Some(5),
        TokenType::MINUS => Some(6),
        TokenType::PLUS => Some(6),
        TokenType::SLASH => Some(7),
        TokenType::STAR => Some(7),
        _ => None,
    }
}

/// How tightly a logical operator binds, if `kind` is one.
pub open spec fn logical_level(kind: TokenType) -> Option<nat> {
    match kind {
        TokenType::OR => Some(1),
        TokenType::AND => Some(2),
        _ => None,
    }
}

/// How tightly the outermost operator of an expression binds: from 0 for an
/// assignment to 10 for a constant, a variable and an expression in
/// parentheses.
pub open spec fn level(e: Expr) -> nat {
    match e {
        Expr::Assign(_) => 0,
        Expr::Logical(l) => match logical_level(l.operator.token_type) {
            Some(k) => k,
            None => 0,
        },
        Expr::Binary(b) => match binary_level(b.operator.token_type) {
            Some(k) => k,
            None => 0,
        },
        Expr::Ternary(_) => 4,
        Expr::Unary(_) => 8,
        Expr::Call(_) => 9,
        Expr::Literal(_) => 10,
        Expr::Variable(_) => 10,
        Expr::Grouping(_) => 10,
    }
}

/// How many tokens spell an expression.
pub open spec fn width(e: Expr) -> nat
    decreases e,
{
    match e {
        Expr::Literal(_) => 1,
        Expr::Variable(_) => 1,
        Expr::Grouping(g) => 2 + width(*g.expression),
        Expr::Unary(u) => 1 + width(*u.right),
        Expr::Binary(b) => width(*b.left) + 1 + width(*b.right),
        Expr::Logical(l) => width(*l.left) + 1 + width(*l.right),
        Expr::Ternary(t) => width(*t.condition) + 1 + width(*t.true_branch) + 1 + width(
            *t.false_branch,
        ),
        Expr::Assign(a) => 2 + width(*a.value),
        Expr::Call(c) => width(*c.callee) + 1 + span(c.args@, c.args@.len()) + 1,
    }
}

/// How many tokens spell the first `n` of the arguments `args`, with the
/// commas between them.
pub open spec fn span(args: Seq<Expr>, n: nat) -> nat
    decreases args, n,
{
    if n == 0 || n > args.len() {
        0
    } else if n == 1 {
        width(args[0])
    } else {
        span(args, (n - 1) as nat) + 1 + width(args[n - 1])
    }
}

/// Whether the tokens from `at` on spell the expression `e`.
///
/// The tokens of an expression are those of its parts, in order, with its
/// own tokens (operators, parentheses, commas) between them. An operand
/// binds at least as tightly as its operator on the left of the operator
/// and more tightly on the right, so that operators of one strength group
/// from the left. A use of a variable has the position of its name as its
/// site.
pub open spec fn spelled(e: Expr, tokens: Seq<Token>, at: int) -> bool
    decreases e,
{
    match e {
        Expr::Literal(l) => 0 <= at < tokens.len() && spells_constant(tokens[at], l.value@),
        Expr::Variable(v) => is_at(tokens, at, TokenType::IDENTIFIER) && tokens[at] == v.name
            && v.site == at,
        Expr::Grouping(g) => {
            &&& is_at(tokens, at, TokenType::LPAREN)
            &&& spelled(*g.expression, tokens, at + 1)
            &&& is_at(tokens, at + 1 + width(*g.expression), TokenType::RPAREN)
        },
        Expr::Unary(u) => {
            &&& 0 <= at < tokens.len() && tokens[at] == u.operator
            &&& u.operator.token_type == TokenType::BANG || u.operator.token_type
                == TokenType::MINUS
            &&& spelled(*u.right, tokens, at + 1)
            &&& level(*u.right) >= 8
        },
        Expr::Binary(b) => {
            let middle = at + width(*b.left);
            &&& spelled(*b.left, tokens, at)
            &&& 0 <= middle < tokens.len() && tokens[middle] == b.operator
            &&& binary_level(b.operator.token_type) is Some
            &&& level(*b.left) >= level(e)
            &&& level(*b.right) > level(e)
            &&& spelled(*b.right, tokens, middle + 1)
        },
        Expr::Logical(l) => {
            let middle = at + width(*l.left);
            &&& spelled(*l.left, tokens, at)
            &&& 0 <= middle < tokens.len() && tokens[middle] == l.operator
            &&& logical_level(l.operator.token_type) is Some
            &&& level(*l.left) >= level(e)
            &&& level(*l.right) > level(e)
            &&& spelled(*l.right, tokens, middle + 1)
        },
        Expr::Ternary(t) => {
            let question = at + width(*t.condition);
            let colon = question + 1 + width(*t.true_branch);
            &&& spelled(*t.condition, tokens, at)
            &&& level(*t.condition) >= 4
            &&& is_at(tokens, question, TokenType::QUEST)
            &&& spelled(*t.true_branch, tokens, question + 1)
            &&& is_at(tokens, colon, TokenType::COLON)
            &&& spelled(*t.false_branch, tokens, colon + 1)
            &&& level(*t.false_branch) >= 4
        },
        Expr::Assign(a) => {
            &&& is_at(tokens, at, TokenType::IDENTIFIER) && tokens[at] == a.name && a.site == at
            &&& is_at(tokens, at + 1, TokenType::EQUAL)
            &&& spelled(*a.value, tokens, at + 2)
        },
        Expr::Call(c) => {
            let open = at + width(*c.callee);
            let close = open + 1 + span(c.args@, c.args@.len());
            &&& spelled(*c.callee, tokens, at)
            &&& level(*c.callee) >= 9
            &&& is_at(tokens, open, TokenType::LPAREN)
            &&& spelled_args(c.args@, tokens, open + 1, c.args@.len())
            &&& is_at(tokens, close, TokenType::RPAREN) && tokens[close] == c.paren
        },
    }
}

/// Whether the tokens from `at` on spell the first `n` of the arguments
/// `args`, with a comma between each two.
pub open spec fn spelled_args(args: Seq<Expr>, tokens: Seq<Token>, at: int, n: nat) -> bool
    decreases args, n,
{
    if n == 0 || n > args.len() {
        true
    } else if n == 1 {
        spelled(args[0], tokens, at)
    } else {
        let comma = at + span(args, (n - 1) as nat);
        &&& spelled_args(args, tokens, at, (n - 1) as nat)
        &&& is_at(tokens, comma, TokenType::COMMA)
        &&& spelled(args[n - 1], tokens, comma + 1)
    }
}

/// The first arguments are spelled the same, whatever arguments follow
/// them.
pub proof fn lemma_args_prefix(args: Seq<Expr>, more: Seq<Expr>, tokens: Seq<Token>, at: int, n: nat)
    requires
        n <= args.len(),
        args.len() <= more.len(),
        forall|i: int| 0 <= i < args.len() ==> args[i] == more[i],
    ensures
        span(args, n) == span(more, n),
        spelled_args(args, tokens, at, n) == spelled_args(more, tokens, at, n),
    decreases n,
{
    if n > 1 {
        lemma_args_prefix(args, more, tokens, at, (n - 1) as nat);
    }
}

/// Whether the tokens from `at` on spell the first `n` of the names
/// `names`, with a comma between each two.
pub open spec fn spelled_names(names: Seq<Token>, tokens: Seq<Token>, at: int, n: nat) -> bool
    decreases n,
{
    if n == 0 || n > names.len() {
        true
    } else {
        let here = at + 2 * (n - 1);
        &&& spelled_names(names, tokens, at, (n - 1) as nat)
        &&& n > 1 ==> is_at(tokens, here - 1, TokenType::COMMA)
        &&& is_at(tokens, here, TokenType::IDENTIFIER)
        &&& tokens[here] == names[n - 1]
    }
}

/// The first names are spelled the same, whatever names follow them.
pub proof fn lemma_names_prefix(
    names: Seq<Token>,
    more: Seq<Token>,
    tokens: Seq<Token>,
    at: int,
    n: nat,
)
    requires
        n <= names.len(),
        names.len() <= more.len(),
        forall|i: int| 0 <= i < names.len() ==> names[i] == more[i],
    ensures
        spelled_names(names, tokens, at, n) == spelled_names(more, tokens, at, n),
    decreases n,
{
    if n > 0 {
        lemma_names_prefix(names, more, tokens, at, (n - 1) as nat);
    }
}

/// How many tokens spell `n` names with the commas between them.
pub open spec fn names_span(n: nat) -> nat {
    if n == 0 {
        0
    } else {
        (2 * n - 1) as nat
    }
}

/// Whether `e` is the constant `value` that no token spells.
pub open spec fn implied(e: Expr, value: Value) -> bool {
    match e {
        Expr::Literal(l) => l.value@ == value,
        _ => false,
    }
}

/// Where the statement `s` ends if the tokens from `at` on spell it, and
/// `None` if they do not.
///
/// A `for` statement has no node of its own: it is spelled by the tokens
/// of a `for` statement and stands in the tree as the `while` loop that
/// does the same (see [`loop_end`]), in a block behind its initializer if
/// it has one.
pub open spec fn stmt_end(s: Stmt, tokens: Seq<Token>, at: int) -> Option<int>
    decreases s,
{
    match s {
        Stmt::Expression(x) => {
            let end = at + width(*x.expression);
            if spelled(*x.expression, tokens, at) && is_at(tokens, end, TokenType::SEMICOLON) {
                Some(end + 1)
            } else {
                None
            }
        },
        Stmt::Print(p) => {
            let end = at + 1 + width(*p.expression);
            if is_at(tokens, at, TokenType::PRINT) && spelled(*p.expression, tokens, at + 1)
                && is_at(tokens, end, TokenType::SEMICOLON) {
                Some(end + 1)
            } else {
                None
            }
        },
        Stmt::Var(v) => {
            if !(is_at(tokens, at, TokenType::VAR) && is_at(tokens, at + 1, TokenType::IDENTIFIER)
                && tokens[at + 1] == *v.name) {
                None
            } else if is_at(tokens, at + 2, TokenType::EQUAL) {
                let end = at + 3 + width(*v.initializer);
                if spelled(*v.initializer, tokens, at + 3) && is_at(
                    tokens,
                    end,
                    TokenType::SEMICOLON,
                ) {
                    Some(end + 1)
                } else {
                    None
                }
            } else if is_at(tokens, at + 2, TokenType::SEMICOLON) && implied(
                *v.initializer,
                Value::Nil,
            ) {
                Some(at + 3)
            } else {
                None
            }
        },
        Stmt::ReturnStmt(r) => {
            if !(is_at(tokens, at, TokenType::RETURN) && tokens[at] == *r.tok) {
                None
            } else if is_at(tokens, at + 1, TokenType::SEMICOLON) {
                if implied(*r.value, Value::Nil) {
                    Some(at + 2)
                } else {
                    None
                }
            } else {
                let end = at + 1 + width(*r.value);
                if spelled(*r.value, tokens, at + 1) && is_at(tokens, end, TokenType::SEMICOLON) {
                    Some(end + 1)
                } else {
                    None
                }
            }
        },
        Stmt::IfStmt(i) => {
            let close = at + 2 + width(*i.condition);
            if !(is_at(tokens, at, TokenType::IF) && is_at(tokens, at + 1, TokenType::LPAREN)
                && spelled(*i.condition, tokens, at + 2) && is_at(
                tokens,
                close,
                TokenType::RPAREN,
            )) {
                None
            } else {
                match stmt_end(*i.then_branch, tokens, close + 1) {
                    Some(after) => match i.else_branch {
                        Some(other) => if is_at(tokens, after, TokenType::ELSE) {
                            stmt_end(*other, tokens, after + 1)
                        } else {
                            None
                        },
                        None => if is_at(tokens, after, TokenType::ELSE) {
                            None
                        } else {
                            Some(after)
                        },
                    },
                    None => None,
                }
            }
        },
        Stmt::WhileStmt(w) => {
            if is_at(tokens, at, TokenType::FOR) {
                if is_at(tokens, at + 1, TokenType::LPAREN) && is_at(
                    tokens,
                    at + 2,
                    TokenType::SEMICOLON,
                ) {
                    loop_end(*w, tokens, at + 3)
                } else {
                    None
                }
            } else {
                let close = at + 2 + width(*w.condition);
                if is_at(tokens, at, TokenType::WHILE) && is_at(tokens, at + 1, TokenType::LPAREN)
                    && spelled(*w.condition, tokens, at + 2) && is_at(
                    tokens,
                    close,
                    TokenType::RPAREN,
                ) {
                    stmt_end(*w.body, tokens, close + 1)
                } else {
                    None
                }
            }
        },
        Stmt::Block(b) => {
            if is_at(tokens, at, TokenType::FOR) {
                if is_at(tokens, at + 1, TokenType::LPAREN) && b.statements@.len() == 2 && !is_at(
                    tokens,
                    at + 2,
                    TokenType::SEMICOLON,
                ) && is_at(tokens, at + 2, TokenType::VAR) == (b.statements@[0] is Var) && (
                b.statements@[0] is Var || b.statements@[0] is Expression) {
                    match stmt_end(b.statements@[0], tokens, at + 2) {
                        Some(after) => match b.statements@[1] {
                            Stmt::WhileStmt(w) => loop_end(*w, tokens, after),
                            _ => None,
                        },
                        None => None,
                    }
                } else {
                    None
                }
            } else if is_at(tokens, at, TokenType::LBRACE) {
                block_end(b.statements@, tokens, at + 1)
            } else {
                None
            }
        },
        Stmt::Function(f) => {
            let close = at + 3 + names_span(f.parameters@.len());
            if is_at(tokens, at, TokenType::FUN) && is_at(tokens, at + 1, TokenType::IDENTIFIER)
                && tokens[at + 1] == *f.name && is_at(tokens, at + 2, TokenType::LPAREN)
                && spelled_names(f.parameters@, tokens, at + 3, f.parameters@.len())
                && f.parameters@.len() <= 255
                && is_at(tokens, close, TokenType::RPAREN) && is_at(
                tokens,
                close + 1,
                TokenType::LBRACE,
            ) {
                match *f.body {
                    Stmt::Block(b) => block_end(b.statements@, tokens, close + 2),
                    _ => None,
                }
            } else {
                None
            }
        },
    }
}

/// Where the first `n` of the statements `ss` end if the tokens from `at`
/// on spell them one after the other.
pub open spec fn list_end(ss: Seq<Stmt>, tokens: Seq<Token>, at: int, n: nat) -> Option<int>
    decreases ss, n,
{
    if n == 0 || n > ss.len() {
        Some(at)
    } else {
        match list_end(ss, tokens, at, (n - 1) as nat) {
            Some(after) => stmt_end(ss[n - 1], tokens, after),
            None => None,
        }
    }
}

/// Where a block of the statements `ss` ends if the tokens from `at` on
/// spell the statements and a closing brace.
pub open spec fn block_end(ss: Seq<Stmt>, tokens: Seq<Token>, at: int) -> Option<int>
    decreases ss, ss.len() + 1,
{
    match list_end(ss, tokens, at, ss.len()) {
        Some(after) => if is_at(tokens, after, TokenType::RBRACE) {
            Some(after + 1)
        } else {
            None
        },
        None => None,
    }
}

/// Where a `for` statement ends whose tokens from `at` on spell what
/// follows its initializer: the condition, if there is one, and a
/// semicolon; the increment, if there is one, and a closing parenthesis;
/// and the body. The loop `w` stands for the statement: its condition is
/// the condition of the statement (`true` if it has none), and its body is
/// a block of the body of the statement, followed by the increment, as an
/// expression statement, if there is one.
pub open spec fn loop_end(w: WhileStmt, tokens: Seq<Token>, at: int) -> Option<int>
    decreases w,
{
    match *w.body {
        Stmt::Block(inner) => {
            let n = inner.statements@.len();
            let after_condition = if is_at(tokens, at, TokenType::SEMICOLON) {
                if implied(*w.condition, Value::Boolean(true)) {
                    Some(at + 1)
                } else {
                    None
                }
            } else {
                let end = at + width(*w.condition);
                if spelled(*w.condition, tokens, at) && is_at(tokens, end, TokenType::SEMICOLON) {
                    Some(end + 1)
                } else {
                    None
                }
            };
            match after_condition {
                Some(next) => {
                    if is_at(tokens, next, TokenType::RPAREN) {
                        if n == 1 {
                            stmt_end(inner.statements@[0], tokens, next + 1)
                        } else {
                            None
                        }
                    } else if n == 2 {
                        match inner.statements@[1] {
                            Stmt::Expression(x) => {
                                let end = next + width(*x.expression);
                                if spelled(*x.expression, tokens, next) && is_at(
                                    tokens,
                                    end,
                                    TokenType::RPAREN,
                                ) {
                                    stmt_end(inner.statements@[0], tokens, end + 1)
                                } else {
                                    None
                                }
                            },
                            _ => None,
                        }
                    } else {
                        None
                    }
                },
                None => None,
            }
        },
        _ => None,
    }
}

/// The first statements end where they end, whatever statements follow
/// them.
pub proof fn lemma_list_prefix(ss: Seq<Stmt>, more: Seq<Stmt>, tokens: Seq<Token>, at: int, n: nat)
    requires
        n <= ss.len(),
        ss.len() <= more.len(),
        forall|i: int| 0 <= i < ss.len() ==> ss[i] == more[i],
    ensures
        list_end(ss, tokens, at, n) == list_end(more, tokens, at, n),
    decreases n,
{
    if n > 0 {
        lemma_list_prefix(ss, more, tokens, at, (n - 1) as nat);
    }
}

/// How far a parse comes, and the error that stopped it if one did.
pub struct Reach {
    /// The position of the first token that the parse did not step over.
    pub end: int,
    pub failure: Option<ErrorView>,
}

/// A parse that came to `end` without an error.
pub open spec fn done(end: int) -> Reach {
    Reach { end, failure: None }
}

/// The token that a parser at `at` looks at: the token at `at`, or the last
/// token where the tokens are used up at `at` (where `at` is behind them or
/// holds an end token, whether or not that is the last token).
pub open spec fn token_at(tokens: Seq<Token>, at: int) -> Token {
    if ends_at(tokens, at) {
        tokens[tokens.len() - 1]
    } else {
        tokens[at]
    }
}

/// A parse that stopped at `at` with the error `message` at the token there.
pub open spec fn stuck(tokens: Seq<Token>, at: int, message: Seq<char>) -> Reach {
    Reach { end: at, failure: Some(parse_error(token_at(tokens, at), message)) }
}

/// Whether the token at `at` is of type `kind` and is not the end token.
pub open spec fn sees(tokens: Seq<Token>, at: int, kind: TokenType) -> bool {
    kind != TokenType::EOF && is_at(tokens, at, kind)
}

/// Stepping over a token of type `kind`: the parse stops with `message`
/// where the token at `at` is of another type.
pub open spec fn expect(tokens: Seq<Token>, at: int, kind: TokenType, message: Seq<char>) -> Reach {
    if sees(tokens, at, kind) {
        done(at + 1)
    } else {
        stuck(tokens, at, message)
    }
}

/// Whether the parse `p`, which began at `at`, went well and moved on.
pub open spec fn moved(p: Reach, tokens: Seq<Token>, at: int) -> bool {
    p.failure is None && at < p.end <= tokens.len()
}

/// How far the parse of an expression from `at` on comes.
///
/// This and the functions after it follow the grammar rule by rule. Each
/// says where the parse of its rule ends, or where and with which error it
/// stops: a parse stops at the first token that fits no rule.
pub open spec fn reach_expression(tokens: Seq<Token>, at: int) -> Reach
    decreases tokens.len() - at, 20nat,
{
    let target = reach_logic_or(tokens, at);
    if !moved(target, tokens, at) || !sees(tokens, target.end, TokenType::EQUAL) {
        target
    } else {
        let value = reach_expression(tokens, target.end + 1);
        if value.failure is Some || (target.end == at + 1 && is_at(
            tokens,
            at,
            TokenType::IDENTIFIER,
        )) {
            value
        } else {
            Reach {
                end: value.end,
                failure: Some(parse_error(tokens[target.end], "Invalid assignment target"@)),
            }
        }
    }
}

/// logic_or -> logic_and ( "or" logic_and )*
pub open spec fn reach_logic_or(tokens: Seq<Token>, at: int) -> Reach
    decreases tokens.len() - at, 18nat,
{
    let first = reach_logic_and(tokens, at);
    if !moved(first, tokens, at) {
        first
    } else {
        more_logic_or(tokens, first.end)
    }
}

/// The rest of a logic_or, behind an operand.
pub open spec fn more_logic_or(tokens: Seq<Token>, at: int) -> Reach
    decreases tokens.len() - at, 17nat,
{
    if !sees(tokens, at, TokenType::OR) {
        done(at)
    } else {
        let right = reach_logic_and(tokens, at + 1);
        if !moved(right, tokens, at) {
            right
        } else {
            more_logic_or(tokens, right.end)
        }
    }
}

/// logic_and -> equality ( "and" equality )*
pub open spec fn reach_logic_and(tokens: Seq<Token>, at: int) -> Reach
    decreases tokens.len() - at, 16nat,
{
    let first = reach_equality(tokens, at);
    if !moved(first, tokens, at) {
        first
    } else {
        more_logic_and(tokens, first.end)
    }
}

/// The rest of a logic_and, behind an operand.
pub open spec fn more_logic_and(tokens: Seq<Token>, at: int) -> Reach
    decreases tokens.len() - at, 15nat,
{
    if !sees(tokens, at, TokenType::AND) {
        done(at)
    } else {
        let right = reach_equality(tokens, at + 1);
        if !moved(right, tokens, at) {
            right
        } else {
            more_logic_and(tokens, right.end)
        }
    }
}

/// equality -> ternary ( ( "!=" | "==" ) ternary )*
pub open spec fn reach_equality(tokens: Seq<Token>, at: int) -> Reach
    decreases tokens.len() - at, 14nat,
{
    let first = reach_ternary(tokens, at);
    if !moved(first, tokens, at) {
        first
    } else {
        more_equality(tokens, first.end)
    }
}

/// The rest of an equality, behind an operand.
pub open spec fn more_equality(tokens: Seq<Token>, at: int) -> Reach
    decreases tokens.len() - at, 13nat,
{
    if !(sees(tokens, at, TokenType::BANG_EQUAL) || sees(tokens, at, TokenType::EQUAL_EQUAL)) {
        done(at)
    } else {
        let right = reach_ternary(tokens, at + 1);
        if !moved(right, tokens, at) {
            right
        } else {
            more_equality(tokens, right.end)
        }
    }
}

/// ternary -> comparison ( "?" expression ":" ternary )*
pub open spec fn reach_ternary(tokens: Seq<Token>, at: int) -> Reach
    decreases tokens.len() - at, 12nat,
{
    let first = reach_comparison(tokens, at);
    if !moved(first, tokens, at) {
        first
    } else {
        more_ternary(tokens, first.end)
    }
}

/// The rest of a ternary, behind its condition.
pub open spec fn more_ternary(tokens: Seq<Token>, at: int) -> Reach
    decreases tokens.len() - at, 11nat,
{
    if !sees(tokens, at, TokenType::QUEST) {
        done(at)
    } else {
        let left = reach_expression(tokens, at + 1);
        if !moved(left, tokens, at) {
            left
        } else {
            let colon = expect(tokens, left.end, TokenType::COLON, "Expect ':' after '?'"@);
            if !moved(colon, tokens, at) {
                colon
            } else {
                let right = reach_ternary(tokens, colon.end);
                if !moved(right, tokens, at) {
                    right
                } else {
                    more_ternary(tokens, right.end)
                }
            }
        }
    }
}

/// comparison -> term ( ( ">" | ">=" | "<" | "<=" ) term )*
pub open spec fn reach_comparison(tokens: Seq<Token>, at: int) -> Reach
    decreases tokens.len() - at, 10nat,
{
    let first = reach_term(tokens, at);
    if !moved(first, tokens, at) {
        first
    } else {
        more_comparison(tokens, first.end)
    }
}

/// The rest of a comparison, behind an operand.
pub open spec fn more_comparison(tokens: Seq<Token>, at: int) -> Reach
    decreases tokens.len() - at, 9nat,
{
    if !(sees(tokens, at, TokenType::GREATER) || sees(tokens, at, TokenType::GREATER_EQUAL)
        || sees(tokens, at, TokenType::LESS) || sees(tokens, at, TokenType::LESS_EQUAL)) {
        done(at)
    } else {
        let right = reach_term(tokens, at + 1);
        if !moved(right, tokens, at) {
            right
        } else {
            more_comparison(tokens, right.end)
        }
    }
}

/// term -> factor ( ( "-" | "+" ) factor )*
pub open spec fn reach_term(tokens: Seq<Token>, at: int) -> Reach
    decreases tokens.len() - at, 8nat,
{
    let first = reach_factor(tokens, at);
    if !moved(first, tokens, at) {
        first
    } else {
        more_term(tokens, first.end)
    }
}

/// The rest of a term, behind an operand.
pub open spec fn more_term(tokens: Seq<Token>, at: int) -> Reach
    decreases tokens.len() - at, 7nat,
{
    if !(sees(tokens, at, TokenType::MINUS) || sees(tokens, at, TokenType::PLUS)) {
        done(at)
    } else {
        let right = reach_factor(tokens, at + 1);
        if !moved(right, tokens, at) {
            right
        } else {
            more_term(tokens, right.end)
        }
    }
}

/// factor -> unary ( ( "/" | "*" ) unary )*
pub open spec fn reach_factor(tokens: Seq<Token>, at: int) -> Reach
    decreases tokens.len() - at, 6nat,
{
    let first = reach_unary(tokens, at);
    if !moved(first, tokens, at) {
        first
    } else {
        more_factor(tokens, first.end)
    }
}

/// The rest of a factor, behind an operand.
pub open spec fn more_factor(tokens: Seq<Token>, at: int) -> Reach
    decreases tokens.len() - at, 5nat,
{
    if !(sees(tokens, at, TokenType::SLASH) || sees(tokens, at, TokenType::STAR)) {
        done(at)
    } else {
        let right = reach_unary(tokens, at + 1);
        if !moved(right, tokens, at) {
            right
        } else {
            more_factor(tokens, right.end)
        }
    }
}

/// unary -> ( "!" | "-" ) unary | call
pub open spec fn reach_unary(tokens: Seq<Token>, at: int) -> Reach
    decreases tokens.len() - at, 4nat,
{
    if sees(tokens, at, TokenType::BANG) || sees(tokens, at, TokenType::MINUS) {
        reach_unary(tokens, at + 1)
    } else {
        reach_call(tokens, at)
    }
}

/// call -> primary ( "(" arguments? ")" )*
pub open spec fn reach_call(tokens: Seq<Token>, at: int) -> Reach
    decreases tokens.len() - at, 3nat,
{
    let callee = reach_primary(tokens, at);
    if !moved(callee, tokens, at) {
        callee
    } else {
        more_calls(tokens, callee.end)
    }
}

/// The rest of a call, behind the callee.
pub open spec fn more_calls(tokens: Seq<Token>, at: int) -> Reach
    decreases tokens.len() - at, 2nat,
{
    if !sees(tokens, at, TokenType::LPAREN) {
        done(at)
    } else {
        let call = reach_arguments(tokens, at + 1);
        if !moved(call, tokens, at) {
            call
        } else {
            more_calls(tokens, call.end)
        }
    }
}

/// How far the parse of the arguments of a call comes, from behind the
/// opening parenthesis to behind the closing one.
pub open spec fn reach_arguments(tokens: Seq<Token>, at: int) -> Reach
    decreases tokens.len() - at, 22nat,
{
    if sees(tokens, at, TokenType::RPAREN) {
        done(at + 1)
    } else {
        let first = reach_expression(tokens, at);
        if !moved(first, tokens, at) {
            first
        } else {
            more_arguments(tokens, first.end)
        }
    }
}

/// The rest of the arguments of a call, behind an argument.
pub open spec fn more_arguments(tokens: Seq<Token>, at: int) -> Reach
    decreases tokens.len() - at, 21nat,
{
    if !sees(tokens, at, TokenType::COMMA) {
        expect(tokens, at, TokenType::RPAREN, "Expect ')' after arguments."@)
    } else {
        let next = reach_expression(tokens, at + 1);
        if !moved(next, tokens, at) {
            next
        } else {
            more_arguments(tokens, next.end)
        }
    }
}

/// primary -> NUMBER | STRING | "true" | "false" | "nil"
///          | "(" expression ")" | IDENTIFIER
pub open spec fn reach_primary(tokens: Seq<Token>, at: int) -> Reach
    decreases tokens.len() - at, 1nat,
{
    if sees(tokens, at, TokenType::NUMBER) || sees(tokens, at, TokenType::STRING) {
        match literal_value(tokens[at]) {
            Ok(_) => done(at + 1),
            Err(e) => Reach { end: at + 1, failure: Some(e) },
        }
    } else if sees(tokens, at, TokenType::TRUE) || sees(tokens, at, TokenType::FALSE) || sees(
        tokens,
        at,
        TokenType::NIL,
    ) || sees(tokens, at, TokenType::IDENTIFIER) {
        done(at + 1)
    } else if sees(tokens, at, TokenType::LPAREN) {
        let inner = reach_expression(tokens, at + 1);
        if !moved(inner, tokens, at) {
            inner
        } else {
            expect(tokens, inner.end, TokenType::RPAREN, "Expected closing parenthesis"@)
        }
    } else {
        stuck(tokens, at, "Expect expression"@)
    }
}

/// Every expression is spelled by at least one token.
pub proof fn lemma_width_positive(e: Expr)
    ensures
        width(e) >= 1,
    decreases e,
{
    match e {
        Expr::Literal(_) => {},
        Expr::Variable(_) => {},
        Expr::Grouping(g) => {},
        Expr::Unary(u) => {},
        Expr::Binary(b) => {},
        Expr::Logical(l) => {},
        Expr::Ternary(t) => {},
        Expr::Assign(a) => {},
        Expr::Call(c) => {
            lemma_width_positive(*c.callee);
        },
    }
}

/// An expression that one identifier spells is a read of a variable.
pub proof fn lemma_identifier_is_variable(e: Expr, tokens: Seq<Token>, at: int)
    requires
        spelled(e, tokens, at),
        width(e) == 1,
        is_at(tokens, at, TokenType::IDENTIFIER),
    ensures
        e is Variable,
{
    match e {
        Expr::Unary(u) => lemma_width_positive(*u.right),
        Expr::Binary(b) => {
            lemma_width_positive(*b.left);
            lemma_width_positive(*b.right);
        },
        Expr::Logical(l) => {
            lemma_width_positive(*l.left);
            lemma_width_positive(*l.right);
        },
        Expr::Ternary(t) => {
            lemma_width_positive(*t.condition);
        },
        Expr::Call(c) => lemma_width_positive(*c.callee),
        _ => {},
    }
}

/// Whether the tokens are used up at `at`: `at` is behind them or at the
/// end token.
pub open spec fn ends_at(tokens: Seq<Token>, at: int) -> bool {
    at >= tokens.len() || tokens[at].token_type == TokenType::EOF
}

/// How far the parse of a program from `at` on comes: declarations are
/// parsed until the tokens are used up or one fails.
pub open spec fn reach_program(tokens: Seq<Token>, at: int) -> Reach
    decreases tokens.len() - at, 40nat,
{
    if ends_at(tokens, at) {
        done(at)
    } else {
        let first = reach_declaration(tokens, at);
        if !moved(first, tokens, at) {
            first
        } else {
            reach_program(tokens, first.end)
        }
    }
}

/// declaration -> varStmt | statement
pub open spec fn reach_declaration(tokens: Seq<Token>, at: int) -> Reach
    decreases tokens.len() - at, 31nat,
{
    if sees(tokens, at, TokenType::VAR) {
        reach_var(tokens, at + 1)
    } else {
        reach_statement(tokens, at)
    }
}

/// statement -> printStmt | block | whileStmt | funStmt | forStmt
///            | ifStmt | returnStmt | exprStmt
pub open spec fn reach_statement(tokens: Seq<Token>, at: int) -> Reach
    decreases tokens.len() - at, 30nat,
{
    if sees(tokens, at, TokenType::PRINT) {
        reach_print(tokens, at + 1)
    } else if sees(tokens, at, TokenType::LBRACE) {
        reach_block(tokens, at + 1)
    } else if sees(tokens, at, TokenType::WHILE) {
        reach_while(tokens, at + 1)
    } else if sees(tokens, at, TokenType::FUN) {
        reach_function(tokens, at + 1)
    } else if sees(tokens, at, TokenType::FOR) {
        reach_for(tokens, at + 1)
    } else if sees(tokens, at, TokenType::IF) {
        reach_if(tokens, at + 1)
    } else if sees(tokens, at, TokenType::RETURN) {
        reach_return(tokens, at + 1)
    } else {
        reach_expression_statement(tokens, at)
    }
}

/// The rest of a variable declaration, behind `var`.
pub open spec fn reach_var(tokens: Seq<Token>, at: int) -> Reach
    decreases tokens.len() - at, 26nat,
{
    let name = expect(tokens, at, TokenType::IDENTIFIER, "Expect variable name."@);
    if !moved(name, tokens, at) {
        name
    } else {
        let initializer = if sees(tokens, name.end, TokenType::EQUAL) {
            reach_expression(tokens, name.end + 1)
        } else {
            done(name.end)
        };
        if !moved(initializer, tokens, at) {
            initializer
        } else {
            expect(
                tokens,
                initializer.end,
                TokenType::SEMICOLON,
                "Expect ';' after variable declaration."@,
            )
        }
    }
}

/// The rest of a print statement, behind `print`.
pub open spec fn reach_print(tokens: Seq<Token>, at: int) -> Reach
    decreases tokens.len() - at, 25nat,
{
    let value = reach_expression(tokens, at);
    if !moved(value, tokens, at) {
        value
    } else {
        expect(tokens, value.end, TokenType::SEMICOLON, "Expect ';' after value."@)
    }
}

/// exprStmt -> expression ";"
pub open spec fn reach_expression_statement(tokens: Seq<Token>, at: int) -> Reach
    decreases tokens.len() - at, 25nat,
{
    let value = reach_expression(tokens, at);
    if !moved(value, tokens, at) {
        value
    } else {
        expect(tokens, value.end, TokenType::SEMICOLON, "Expect ';' after expression."@)
    }
}

/// The rest of a `return` statement, behind `return`.
pub open spec fn reach_return(tokens: Seq<Token>, at: int) -> Reach
    decreases tokens.len() - at, 27nat,
{
    let value = if sees(tokens, at, TokenType::SEMICOLON) {
        done(at)
    } else {
        reach_expression(tokens, at)
    };
    if value.failure is Some {
        value
    } else {
        expect(tokens, value.end, TokenType::SEMICOLON, "Expect ';' after return value."@)
    }
}

/// The rest of a block, behind its opening brace: declarations are parsed
/// up to a closing brace, the end of the tokens, or a failure.
pub open spec fn reach_block(tokens: Seq<Token>, at: int) -> Reach
    decreases tokens.len() - at, 33nat,
{
    if sees(tokens, at, TokenType::RBRACE) || ends_at(tokens, at) {
        expect(tokens, at, TokenType::RBRACE, "Expect '}' after block."@)
    } else {
        let first = reach_declaration(tokens, at);
        if !moved(first, tokens, at) {
            first
        } else {
            reach_block(tokens, first.end)
        }
    }
}

/// The rest of a `while` statement, behind `while`.
pub open spec fn reach_while(tokens: Seq<Token>, at: int) -> Reach
    decreases tokens.len() - at, 27nat,
{
    if !sees(tokens, at, TokenType::LPAREN) {
        stuck(tokens, at, "Expect '(' after 'while'."@)
    } else {
        let condition = reach_expression(tokens, at + 1);
        if !moved(condition, tokens, at) {
            condition
        } else {
            let close = expect(
                tokens,
                condition.end,
                TokenType::RPAREN,
                "Expect ')' after condition."@,
            );
            if !moved(close, tokens, at) {
                close
            } else {
                reach_statement(tokens, close.end)
            }
        }
    }
}

/// The rest of an `if` statement, behind `if`.
pub open spec fn reach_if(tokens: Seq<Token>, at: int) -> Reach
    decreases tokens.len() - at, 27nat,
{
    if !sees(tokens, at, TokenType::LPAREN) {
        stuck(tokens, at, "Expect '(' after 'if'."@)
    } else {
        let condition = reach_expression(tokens, at + 1);
        if !moved(condition, tokens, at) {
            condition
        } else {
            let close = expect(
                tokens,
                condition.end,
                TokenType::RPAREN,
                "Expect ')' after if condition."@,
            );
            if !moved(close, tokens, at) {
                close
            } else {
                let then_branch = reach_statement(tokens, close.end);
                if !moved(then_branch, tokens, at) || !sees(
                    tokens,
                    then_branch.end,
                    TokenType::ELSE,
                ) {
                    then_branch
                } else {
                    reach_statement(tokens, then_branch.end + 1)
                }
            }
        }
    }
}

/// The rest of a function declaration, behind `fun`.
pub open spec fn reach_function(tokens: Seq<Token>, at: int) -> Reach
    decreases tokens.len() - at, 27nat,
{
    let name = expect(tokens, at, TokenType::IDENTIFIER, "Expect function name."@);
    if !moved(name, tokens, at) {
        name
    } else {
        let parameters = reach_parameters(tokens, name.end);
        if !moved(parameters, tokens, at) {
            parameters
        } else {
            let open = expect(
                tokens,
                parameters.end,
                TokenType::LBRACE,
                "Expect '{' before function body."@,
            );
            if !moved(open, tokens, at) {
                open
            } else {
                reach_block(tokens, open.end)
            }
        }
    }
}

/// The parameters of a function, from the opening parenthesis to behind
/// the closing one.
pub open spec fn reach_parameters(tokens: Seq<Token>, at: int) -> Reach {
    if !sees(tokens, at, TokenType::LPAREN) {
        stuck(tokens, at, "Expect '(' after function name."@)
    } else if sees(tokens, at + 1, TokenType::RPAREN) {
        done(at + 2)
    } else if !sees(tokens, at + 1, TokenType::IDENTIFIER) {
        stuck(tokens, at + 1, "Expect parameter name."@)
    } else {
        more_parameters(tokens, at + 2, 1)
    }
}

/// The rest of the parameters, behind `count` of them.
pub open spec fn more_parameters(tokens: Seq<Token>, at: int, count: nat) -> Reach
    decreases tokens.len() - at,
{
    if !sees(tokens, at, TokenType::COMMA) {
        expect(tokens, at, TokenType::RPAREN, "Expect ')' after parameters."@)
    } else if count >= 255 {
        stuck(tokens, at + 1, "Cannot have more than 255 parameters."@)
    } else if !sees(tokens, at + 1, TokenType::IDENTIFIER) {
        stuck(tokens, at + 1, "Expect parameter name."@)
    } else {
        more_parameters(tokens, at + 2, count + 1)
    }
}

/// The rest of a `for` statement, behind `for`.
///
/// Where the initializer fails, the parse goes on behind the place of the
/// failure; the error of the initializer is the error of the statement
/// only if nothing after the initializer fails.
pub open spec fn reach_for(tokens: Seq<Token>, at: int) -> Reach
    decreases tokens.len() - at, 27nat,
{
    if !sees(tokens, at, TokenType::LPAREN) {
        stuck(tokens, at, "Expect '(' after 'for'."@)
    } else {
        let initializer = if sees(tokens, at + 1, TokenType::SEMICOLON) {
            done(at + 2)
        } else if sees(tokens, at + 1, TokenType::VAR) {
            reach_var(tokens, at + 2)
        } else {
            reach_expression_statement(tokens, at + 1)
        };
        if !(at < initializer.end <= tokens.len()) {
            initializer
        } else {
            let condition = if sees(tokens, initializer.end, TokenType::SEMICOLON) {
                done(initializer.end)
            } else {
                reach_expression(tokens, initializer.end)
            };
            if !moved(condition, tokens, at) {
                condition
            } else {
                let semicolon = expect(
                    tokens,
                    condition.end,
                    TokenType::SEMICOLON,
                    "Expect ';' after for condition."@,
                );
                if !moved(semicolon, tokens, at) {
                    semicolon
                } else {
                    let increment = if sees(tokens, semicolon.end, TokenType::RPAREN) {
                        done(semicolon.end)
                    } else {
                        reach_expression(tokens, semicolon.end)
                    };
                    if !moved(increment, tokens, at) {
                        increment
                    } else {
                        let close = expect(
                            tokens,
                            increment.end,
                            TokenType::RPAREN,
                            "Expect ')' after for clauses."@,
                        );
                        if !moved(close, tokens, at) {
                            close
                        } else {
                            let body = reach_statement(tokens, close.end);
                            if body.failure is Some {
                                body
                            } else {
                                Reach { end: body.end, failure: initializer.failure }
                            }
                        }
                    }
                }
            }
        }
    }
}

/// Whether the parse `p`, which began at `at`, stayed within the tokens and
/// did not go back.
pub open spec fn stays(p: Reach, tokens: Seq<Token>, at: int) -> bool {
    at <= p.end <= tokens.len()
}

/// Whether the parse `p`, which began at `at`, stayed within the tokens
/// and, unless it failed, moved on.
pub open spec fn goes_on(p: Reach, tokens: Seq<Token>, at: int) -> bool {
    stays(p, tokens, at) && (p.failure is None ==> at < p.end)
}

/// Every parse of an expression stays within the tokens and, unless it
/// fails, moves on: the parser comes to an end on every input, and a parse
/// is cut short only by a failure.
pub proof fn lemma_reach_expression(tokens: Seq<Token>, at: int)
    requires
        0 <= at <= tokens.len(),
    ensures
        goes_on(reach_expression(tokens, at), tokens, at),
    decreases tokens.len() - at, 20nat,
{
    lemma_reach_logic_or(tokens, at);
    let target = reach_logic_or(tokens, at);
    if moved(target, tokens, at) && sees(tokens, target.end, TokenType::EQUAL) {
        lemma_reach_expression(tokens, target.end + 1);
    }
}

proof fn lemma_reach_logic_or(tokens: Seq<Token>, at: int)
    requires
        0 <= at <= tokens.len(),
    ensures
        goes_on(reach_logic_or(tokens, at), tokens, at),
    decreases tokens.len() - at, 18nat,
{
    lemma_reach_logic_and(tokens, at);
    let first = reach_logic_and(tokens, at);
    if moved(first, tokens, at) {
        lemma_more_logic_or(tokens, first.end);
    }
}

proof fn lemma_more_logic_or(tokens: Seq<Token>, at: int)
    requires
        0 <= at <= tokens.len(),
    ensures
        stays(more_logic_or(tokens, at), tokens, at),
    decreases tokens.len() - at, 17nat,
{
    if sees(tokens, at, TokenType::OR) {
        lemma_reach_logic_and(tokens, at + 1);
        let right = reach_logic_and(tokens, at + 1);
        if moved(right, tokens, at) {
            lemma_more_logic_or(tokens, right.end);
        }
    }
}

proof fn lemma_reach_logic_and(tokens: Seq<Token>, at: int)
    requires
        0 <= at <= tokens.len(),
    ensures
        goes_on(reach_logic_and(tokens, at), tokens, at),
    decreases tokens.len() - at, 16nat,
{
    lemma_reach_equality(tokens, at);
    let first = reach_equality(tokens, at);
    if moved(first, tokens, at) {
        lemma_more_logic_and(tokens, first.end);
    }
}

proof fn lemma_more_logic_and(tokens: Seq<Token>, at: int)
    requires
        0 <= at <= tokens.len(),
    ensures
        stays(more_logic_and(tokens, at), tokens, at),
    decreases tokens.len() - at, 15nat,
{
    if sees(tokens, at, TokenType::AND) {
        lemma_reach_equality(tokens, at + 1);
        let right = reach_equality(tokens, at + 1);
        if moved(right, tokens, at) {
            lemma_more_logic_and(tokens, right.end);
        }
    }
}

proof fn lemma_reach_equality(tokens: Seq<Token>, at: int)
    requires
        0 <= at <= tokens.len(),
    ensures
        goes_on(reach_equality(tokens, at), tokens, at),
    decreases tokens.len() - at, 14nat,
{
    lemma_reach_ternary(tokens, at);
    let first = reach_ternary(tokens, at);
    if moved(first, tokens, at) {
        lemma_more_equality(tokens, first.end);
    }
}

proof fn lemma_more_equality(tokens: Seq<Token>, at: int)
    requires
        0 <= at <= tokens.len(),
    ensures
        stays(more_equality(tokens, at), tokens, at),
    decreases tokens.len() - at, 13nat,
{
    if sees(tokens, at, TokenType::BANG_EQUAL) || sees(tokens, at, TokenType::EQUAL_EQUAL) {
        lemma_reach_ternary(tokens, at + 1);
        let right = reach_ternary(tokens, at + 1);
        if moved(right, tokens, at) {
            lemma_more_equality(tokens, right.end);
        }
    }
}

proof fn lemma_reach_ternary(tokens: Seq<Token>, at: int)
    requires
        0 <= at <= tokens.len(),
    ensures
        goes_on(reach_ternary(tokens, at), tokens, at),
    decreases tokens.len() - at, 12nat,
{
    lemma_reach_comparison(tokens, at);
    let first = reach_comparison(tokens, at);
    if moved(first, tokens, at) {
        lemma_more_ternary(tokens, first.end);
    }
}

proof fn lemma_more_ternary(tokens: Seq<Token>, at: int)
    requires
        0 <= at <= tokens.len(),
    ensures
        stays(more_ternary(tokens, at), tokens, at),
    decreases tokens.len() - at, 11nat,
{
    if sees(tokens, at, TokenType::QUEST) {
        lemma_reach_expression(tokens, at + 1);
        let left = reach_expression(tokens, at + 1);
        if moved(left, tokens, at) {
            let colon = expect(tokens, left.end, TokenType::COLON, "Expect ':' after '?'"@);
            if moved(colon, tokens, at) {
                lemma_reach_ternary(tokens, colon.end);
                let right = reach_ternary(tokens, colon.end);
                if moved(right, tokens, at) {
                    lemma_more_ternary(tokens, right.end);
                }
            }
        }
    }
}

proof fn lemma_reach_comparison(tokens: Seq<Token>, at: int)
    requires
        0 <= at <= tokens.len(),
    ensures
        goes_on(reach_comparison(tokens, at), tokens, at),
    decreases tokens.len() - at, 10nat,
{
    lemma_reach_term(tokens, at);
    let first = reach_term(tokens, at);
    if moved(first, tokens, at) {
        lemma_more_comparison(tokens, first.end);
    }
}

proof fn lemma_more_comparison(tokens: Seq<Token>, at: int)
    requires
        0 <= at <= tokens.len(),
    ensures
        stays(more_comparison(tokens, at), tokens, at),
    decreases tokens.len() - at, 9nat,
{
    if sees(tokens, at, TokenType::GREATER) || sees(tokens, at, TokenType::GREATER_EQUAL)
        || sees(tokens, at, TokenType::LESS) || sees(tokens, at, TokenType::LESS_EQUAL) {
        lemma_reach_term(tokens, at + 1);
        let right = reach_term(tokens, at + 1);
        if moved(right, tokens, at) {
            lemma_more_comparison(tokens, right.end);
        }
    }
}

proof fn lemma_reach_term(tokens: Seq<Token>, at: int)
    requires
        0 <= at <= tokens.len(),
    ensures
        goes_on(reach_term(tokens, at), tokens, at),
    decreases tokens.len() - at, 8nat,
{
    lemma_reach_factor(tokens, at);
    let first = reach_factor(tokens, at);
    if moved(first, tokens, at) {
        lemma_more_term(tokens, first.end);
    }
}

proof fn lemma_more_term(tokens: Seq<Token>, at: int)
    requires
        0 <= at <= tokens.len(),
    ensures
        stays(more_term(tokens, at), tokens, at),
    decreases tokens.len() - at, 7nat,
{
    if sees(tokens, at, TokenType::MINUS) || sees(tokens, at, TokenType::PLUS) {
        lemma_reach_factor(tokens, at + 1);
        let right = reach_factor(tokens, at + 1);
        if moved(right, tokens, at) {
            lemma_more_term(tokens, right.end);
        }
    }
}

proof fn lemma_reach_factor(tokens: Seq<Token>, at: int)
    requires
        0 <= at <= tokens.len(),
    ensures
        goes_on(reach_factor(tokens, at), tokens, at),
    decreases tokens.len() - at, 6nat,
{
    lemma_reach_unary(tokens, at);
    let first = reach_unary(tokens, at);
    if moved(first, tokens, at) {
        lemma_more_factor(tokens, first.end);
    }
}

proof fn lemma_more_factor(tokens: Seq<Token>, at: int)
    requires
        0 <= at <= tokens.len(),
    ensures
        stays(more_factor(tokens, at), tokens, at),
    decreases tokens.len() - at, 5nat,
{
    if sees(tokens, at, TokenType::SLASH) || sees(tokens, at, TokenType::STAR) {
        lemma_reach_unary(tokens, at + 1);
        let right = reach_unary(tokens, at + 1);
        if moved(right, tokens, at) {
            lemma_more_factor(tokens, right.end);
        }
    }
}

proof fn lemma_reach_unary(tokens: Seq<Token>, at: int)
    requires
        0 <= at <= tokens.len(),
    ensures
        goes_on(reach_unary(tokens, at), tokens, at),
    decreases tokens.len() - at, 4nat,
{
    if sees(tokens, at, TokenType::BANG) || sees(tokens, at, TokenType::MINUS) {
        lemma_reach_unary(tokens, at + 1);
    } else {
        lemma_reach_call(tokens, at);
    }
}

proof fn lemma_reach_call(tokens: Seq<Token>, at: int)
    requires
        0 <= at <= tokens.len(),
    ensures
        goes_on(reach_call(tokens, at), tokens, at),
    decreases tokens.len() - at, 3nat,
{
    lemma_reach_primary(tokens, at);
    let callee = reach_primary(tokens, at);
    if moved(callee, tokens, at) {
        lemma_more_calls(tokens, callee.end);
    }
}

proof fn lemma_more_calls(tokens: Seq<Token>, at: int)
    requires
        0 <= at <= tokens.len(),
    ensures
        stays(more_calls(tokens, at), tokens, at),
    decreases tokens.len() - at, 2nat,
{
    if sees(tokens, at, TokenType::LPAREN) {
        lemma_reach_arguments(tokens, at + 1);
        let call = reach_arguments(tokens, at + 1);
        if moved(call, tokens, at) {
            lemma_more_calls(tokens, call.end);
        }
    }
}

proof fn lemma_reach_arguments(tokens: Seq<Token>, at: int)
    requires
        0 <= at <= tokens.len(),
    ensures
        goes_on(reach_arguments(tokens, at), tokens, at),
    decreases tokens.len() - at, 22nat,
{
    if !sees(tokens, at, TokenType::RPAREN) {
        lemma_reach_expression(tokens, at);
        let first = reach_expression(tokens, at);
        if moved(first, tokens, at) {
            lemma_more_arguments(tokens, first.end);
        }
    }
}

proof fn lemma_more_arguments(tokens: Seq<Token>, at: int)
    requires
        0 <= at <= tokens.len(),
    ensures
        goes_on(more_arguments(tokens, at), tokens, at),
    decreases tokens.len() - at, 21nat,
{
    if sees(tokens, at, TokenType::COMMA) {
        lemma_reach_expression(tokens, at + 1);
        let next = reach_expression(tokens, at + 1);
        if moved(next, tokens, at) {
            lemma_more_arguments(tokens, next.end);
        }
    }
}

proof fn lemma_reach_primary(tokens: Seq<Token>, at: int)
    requires
        0 <= at <= tokens.len(),
    ensures
        goes_on(reach_primary(tokens, at), tokens, at),
    decreases tokens.len() - at, 1nat,
{
    if sees(tokens, at, TokenType::LPAREN) {
        lemma_reach_expression(tokens, at + 1);
    }
}

/// Every parse of a statement stays within the tokens and, unless it fails,
/// moves on.
pub proof fn lemma_reach_statement(tokens: Seq<Token>, at: int)
    requires
        0 <= at <= tokens.len(),
    ensures
        goes_on(reach_statement(tokens, at), tokens, at),
    decreases tokens.len() - at, 30nat,
{
    if sees(tokens, at, TokenType::PRINT) {
        lemma_reach_print(tokens, at + 1);
    } else if sees(tokens, at, TokenType::LBRACE) {
        lemma_reach_block(tokens, at + 1);
    } else if sees(tokens, at, TokenType::WHILE) {
        lemma_reach_while(tokens, at + 1);
    } else if sees(tokens, at, TokenType::FUN) {
        lemma_reach_function(tokens, at + 1);
    } else if sees(tokens, at, TokenType::FOR) {
        lemma_reach_for(tokens, at + 1);
    } else if sees(tokens, at, TokenType::IF) {
        lemma_reach_if(tokens, at + 1);
    } else if sees(tokens, at, TokenType::RETURN) {
        lemma_reach_return(tokens, at + 1);
    } else {
        lemma_reach_expression_statement(tokens, at);
    }
}

/// Every parse of a declaration stays within the tokens and, unless it
/// fails, moves on.
pub proof fn lemma_reach_declaration(tokens: Seq<Token>, at: int)
    requires
        0 <= at <= tokens.len(),
    ensures
        goes_on(reach_declaration(tokens, at), tokens, at),
    decreases tokens.len() - at, 31nat,
{
    if sees(tokens, at, TokenType::VAR) {
        lemma_reach_var(tokens, at + 1);
    } else {
        lemma_reach_statement(tokens, at);
    }
}

proof fn lemma_reach_var(tokens: Seq<Token>, at: int)
    requires
        0 <= at <= tokens.len(),
    ensures
        goes_on(reach_var(tokens, at), tokens, at),
    decreases tokens.len() - at, 26nat,
{
    let name = expect(tokens, at, TokenType::IDENTIFIER, "Expect variable name."@);
    if moved(name, tokens, at) && sees(tokens, name.end, TokenType::EQUAL) {
        lemma_reach_expression(tokens, name.end + 1);
    }
}

proof fn lemma_reach_print(tokens: Seq<Token>, at: int)
    requires
        0 <= at <= tokens.len(),
    ensures
        goes_on(reach_print(tokens, at), tokens, at),
    decreases tokens.len() - at, 25nat,
{
    lemma_reach_expression(tokens, at);
}

proof fn lemma_reach_expression_statement(tokens: Seq<Token>, at: int)
    requires
        0 <= at <= tokens.len(),
    ensures
        goes_on(reach_expression_statement(tokens, at), tokens, at),
    decreases tokens.len() - at, 25nat,
{
    lemma_reach_expression(tokens, at);
}

proof fn lemma_reach_return(tokens: Seq<Token>, at: int)
    requires
        0 <= at <= tokens.len(),
    ensures
        goes_on(reach_return(tokens, at), tokens, at),
    decreases tokens.len() - at, 27nat,
{
    if !sees(tokens, at, TokenType::SEMICOLON) {
        lemma_reach_expression(tokens, at);
    }
}

proof fn lemma_reach_block(tokens: Seq<Token>, at: int)
    requires
        0 <= at <= tokens.len(),
    ensures
        goes_on(reach_block(tokens, at), tokens, at),
    decreases tokens.len() - at, 33nat,
{
    if !(sees(tokens, at, TokenType::RBRACE) || ends_at(tokens, at)) {
        lemma_reach_declaration(tokens, at);
        let first = reach_declaration(tokens, at);
        if moved(first, tokens, at) {
            lemma_reach_block(tokens, first.end);
        }
    }
}

proof fn lemma_reach_while(tokens: Seq<Token>, at: int)
    requires
        0 <= at <= tokens.len(),
    ensures
        goes_on(reach_while(tokens, at), tokens, at),
    decreases tokens.len() - at, 27nat,
{
    if sees(tokens, at, TokenType::LPAREN) {
        lemma_reach_expression(tokens, at + 1);
        let condition = reach_expression(tokens, at + 1);
        if moved(condition, tokens, at) {
            let close = expect(
                tokens,
                condition.end,
                TokenType::RPAREN,
                "Expect ')' after condition."@,
            );
            if moved(close, tokens, at) {
                lemma_reach_statement(tokens, close.end);
            }
        }
    }
}

proof fn lemma_reach_if(tokens: Seq<Token>, at: int)
    requires
        0 <= at <= tokens.len(),
    ensures
        goes_on(reach_if(tokens, at), tokens, at),
    decreases tokens.len() - at, 27nat,
{
    if sees(tokens, at, TokenType::LPAREN) {
        lemma_reach_expression(tokens, at + 1);
        let condition = reach_expression(tokens, at + 1);
        if moved(condition, tokens, at) {
            let close = expect(
                tokens,
                condition.end,
                TokenType::RPAREN,
                "Expect ')' after if condition."@,
            );
            if moved(close, tokens, at) {
                lemma_reach_statement(tokens, close.end);
                let then_branch = reach_statement(tokens, close.end);
                if moved(then_branch, tokens, at) && sees(
                    tokens,
                    then_branch.end,
                    TokenType::ELSE,
                ) {
                    lemma_reach_statement(tokens, then_branch.end + 1);
                }
            }
        }
    }
}

proof fn lemma_reach_function(tokens: Seq<Token>, at: int)
    requires
        0 <= at <= tokens.len(),
    ensures
        goes_on(reach_function(tokens, at), tokens, at),
    decreases tokens.len() - at, 27nat,
{
    let name = expect(tokens, at, TokenType::IDENTIFIER, "Expect function name."@);
    if moved(name, tokens, at) {
        lemma_reach_parameters(tokens, name.end);
        let parameters = reach_parameters(tokens, name.end);
        if moved(parameters, tokens, at) {
            let open = expect(
                tokens,
                parameters.end,
                TokenType::LBRACE,
                "Expect '{' before function body."@,
            );
            if moved(open, tokens, at) {
                lemma_reach_block(tokens, open.end);
            }
        }
    }
}

proof fn lemma_reach_parameters(tokens: Seq<Token>, at: int)
    requires
        0 <= at <= tokens.len(),
    ensures
        goes_on(reach_parameters(tokens, at), tokens, at),
{
    if sees(tokens, at, TokenType::LPAREN) && !sees(tokens, at + 1, TokenType::RPAREN) && sees(
        tokens,
        at + 1,
        TokenType::IDENTIFIER,
    ) {
        lemma_more_parameters(tokens, at + 2, 1);
    }
}

proof fn lemma_more_parameters(tokens: Seq<Token>, at: int, count: nat)
    requires
        0 <= at <= tokens.len(),
    ensures
        goes_on(more_parameters(tokens, at, count), tokens, at),
    decreases tokens.len() - at,
{
    if sees(tokens, at, TokenType::COMMA) && count < 255 && sees(
        tokens,
        at + 1,
        TokenType::IDENTIFIER,
    ) {
        lemma_more_parameters(tokens, at + 2, count + 1);
    }
}

proof fn lemma_reach_for(tokens: Seq<Token>, at: int)
    requires
        0 <= at <= tokens.len(),
    ensures
        stays(reach_for(tokens, at), tokens, at),
        reach_for(tokens, at).failure is None ==> at < reach_for(tokens, at).end,
    decreases tokens.len() - at, 27nat,
{
    if sees(tokens, at, TokenType::LPAREN) {
        if sees(tokens, at + 1, TokenType::SEMICOLON) {
        } else if sees(tokens, at + 1, TokenType::VAR) {
            lemma_reach_var(tokens, at + 2);
        } else {
            lemma_reach_expression_statement(tokens, at + 1);
        }
        let initializer = if sees(tokens, at + 1, TokenType::SEMICOLON) {
            done(at + 2)
        } else if sees(tokens, at + 1, TokenType::VAR) {
            reach_var(tokens, at + 2)
        } else {
            reach_expression_statement(tokens, at + 1)
        };
        if at < initializer.end <= tokens.len() {
            if !sees(tokens, initializer.end, TokenType::SEMICOLON) {
                lemma_reach_expression(tokens, initializer.end);
            }
            let condition = if sees(tokens, initializer.end, TokenType::SEMICOLON) {
                done(initializer.end)
            } else {
                reach_expression(tokens, initializer.end)
            };
            if moved(condition, tokens, at) {
                let semicolon = expect(
                    tokens,
                    condition.end,
                    TokenType::SEMICOLON,
                    "Expect ';' after for condition."@,
                );
                if moved(semicolon, tokens, at) {
                    if !sees(tokens, semicolon.end, TokenType::RPAREN) {
                        lemma_reach_expression(tokens, semicolon.end);
                    }
                    let increment = if sees(tokens, semicolon.end, TokenType::RPAREN) {
                        done(semicolon.end)
                    } else {
                        reach_expression(tokens, semicolon.end)
                    };
                    if moved(increment, tokens, at) {
                        let close = expect(
                            tokens,
                            increment.end,
                            TokenType::RPAREN,
                            "Expect ')' after for clauses."@,
                        );
                        if moved(close, tokens, at) {
                            lemma_reach_statement(tokens, close.end);
                        }
                    }
                }
            }
        }
    }
}

/// Every parse of a program stays within the tokens, and ends where the
/// tokens are used up unless it fails.
pub proof fn lemma_reach_program(tokens: Seq<Token>, at: int)
    requires
        0 <= at <= tokens.len(),
    ensures
        stays(reach_program(tokens, at), tokens, at),
        reach_program(tokens, at).failure is None ==> ends_at(
            tokens,
            reach_program(tokens, at).end,
        ),
    decreases tokens.len() - at, 40nat,
{
    if !ends_at(tokens, at) {
        lemma_reach_declaration(tokens, at);
        let first = reach_declaration(tokens, at);
        if moved(first, tokens, at) {
            lemma_reach_program(tokens, first.end);
        }
    }
}

} // verus!
