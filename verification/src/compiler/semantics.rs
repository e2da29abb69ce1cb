//! What running a program means, as functions on plain mathematical data.
//!
//! A program runs on a [`Machine`]: the scopes, the callables made so far,
//! the scope that is current, and the lines printed so far. Evaluation is
//! recursive descent over the syntax tree. Two limits keep every run
//! finite: `depth` bounds how deeply expressions, statements and calls may
//! nest, and the loop limit of the [`Setting`] bounds how often one `while`
//! loop may run its body. A run that meets a limit ends with an error.

use crate::compiler::control_flow::Flow;
use crate::compiler::env::{
    bind, kept, kept_except, lemma_bind_keeps, lemma_rebind_keeps, owner_of, read, read_at,
    rebind, rebind_at, scope_kept, undefined_variable,
};
use crate::compiler::env::{EnvRef, Scope};
use crate::compiler::error::{internal_error, runtime_error, ErrorView, LoxErrorKind};
use crate::compiler::expr::{plain_text, truthy, Value};
use crate::compiler::expr::{
    Assign, Binary, Call, Expr, Grouping, Logical, Ternary, Unary, Variable,
};
use crate::compiler::lox_function::{routine_arity, routine_text, Routine};
use crate::compiler::operators::{binary_value, unary_value};
use crate::compiler::stmt::{
    body_statements, Block, Expression, Function, IfStmt, Print, ReturnStmt, Stmt, Var,
    WhileStmt,
};
use crate::compiler::text::decimal;
use crate::compiler::token::{Token, TokenType};
use vstd::prelude::*;

verus! {

/// The state of a running program.
pub struct Machine {
    pub scopes: Seq<Scope>,
    pub routines: Seq<Routine>,
    /// The scope in which names are looked up and declared.
    pub current: EnvRef,
    /// The lines printed so far.
    pub output: Seq<Seq<char>>,
}

/// What stays the same while a program runs.
pub struct Setting {
    /// For each use of a variable that static resolution found in a local
    /// scope: how many scopes out from the scope of the use its binding
    /// lives.
    pub locals: Map<usize, usize>,
    /// The time that `clock` returns, as a count of millionths of a second.
    pub clock: int,
    /// How often one `while` loop may run its body.
    pub loop_limit: nat,
}

/// The error of a program that nests more deeply than the limit allows.
pub open spec fn too_deep() -> ErrorView {
    ErrorView { kind: LoxErrorKind::Runtime, message: "Stack overflow."@, token: None, line: None }
}

/// The error of a loop that runs more often than the limit allows.
pub open spec fn too_long() -> ErrorView {
    ErrorView {
        kind: LoxErrorKind::Runtime,
        message: "Loop limit exceeded."@,
        token: None,
        line: None,
    }
}

/// The error of a call with the wrong number of arguments.
pub open spec fn arity_error(paren: Token, expected: nat, got: nat) -> ErrorView {
    runtime_error(
        paren,
        "Expected "@ + decimal(expected) + " arguments but got "@ + decimal(got) + "."@,
    )
}

/// The error of a call of something that is no callable.
pub open spec fn not_callable(paren: Token) -> ErrorView {
    runtime_error(paren, "Can only call functions."@)
}

/// How a value is written by `print`.
pub open spec fn display(routines: Seq<Routine>, v: Value) -> Seq<char> {
    match v {
        Value::Function(h) => if h < routines.len() {
            routine_text(routines[h as int])
        } else {
            plain_text(v)
        },
        _ => plain_text(v),
    }
}

/// The machine with `name` bound to `value` in the current scope.
pub open spec fn declare(m: Machine, name: Seq<char>, value: Value) -> Machine {
    Machine { scopes: bind(m.scopes, m.current as nat, name, value), ..m }
}

/// The machine with a new, empty scope that `enclosing` encloses, made the
/// current scope.
pub open spec fn enter(m: Machine, enclosing: EnvRef) -> Machine {
    Machine {
        scopes: m.scopes.push(Scope { enclosing: Some(enclosing), bindings: Map::empty() }),
        current: m.scopes.len() as usize,
        ..m
    }
}

/// The machine with `scope` made the current scope again.
pub open spec fn leave(m: Machine, scope: EnvRef) -> Machine {
    Machine { current: scope, ..m }
}

/// The scopes after binding, in scope `frame`, the parameters from `from`
/// on to the arguments at the same positions.
pub open spec fn bind_parameters(
    scopes: Seq<Scope>,
    frame: nat,
    parameters: Seq<Token>,
    args: Seq<Value>,
    from: nat,
) -> Seq<Scope>
    decreases parameters.len() - from,
{
    if from >= parameters.len() || from >= args.len() {
        scopes
    } else {
        bind_parameters(
            bind(scopes, frame, parameters[from as int].lexeme@, args[from as int]),
            frame,
            parameters,
            args,
            from + 1,
        )
    }
}

/// What reading a variable gives: by the distance that static resolution
/// recorded for this use, if it recorded one, else by search from the
/// current scope outward.
pub open spec fn read_variable(cfg: Setting, m: Machine, v: Variable) -> Result<Value, ErrorView> {
    if cfg.locals.contains_key(v.site) {
        read_at(m.scopes, m.current as nat, cfg.locals[v.site] as nat, v.name.lexeme@)
    } else {
        read(m.scopes, m.current as nat, v.name.lexeme@, v.name)
    }
}

/// What assigning `value` to a variable gives: the machine after it, and
/// the value or the error of a variable that is not there.
pub open spec fn assign_variable(cfg: Setting, m: Machine, a: Assign, value: Value) -> (
    Machine,
    Result<Value, ErrorView>,
) {
    if cfg.locals.contains_key(a.site) {
        let distance = cfg.locals[a.site] as nat;
        (
            Machine {
                scopes: rebind_at(m.scopes, m.current as nat, distance, a.name.lexeme@, value),
                ..m
            },
            match read_at(m.scopes, m.current as nat, distance, a.name.lexeme@) {
                Ok(_) => Ok(value),
                Err(e) => Err(e),
            },
        )
    } else {
        (
            Machine { scopes: rebind(m.scopes, m.current as nat, a.name.lexeme@, value), ..m },
            match owner_of(m.scopes, m.current as nat, a.name.lexeme@) {
                Some(_) => Ok(value),
                None => Err(undefined_variable(a.name.lexeme@, a.name)),
            },
        )
    }
}

/// What evaluating an expression gives: the machine after it, and the value
/// or the error.
pub open spec fn eval_expr(cfg: Setting, m: Machine, e: Expr, depth: nat) -> (
    Machine,
    Result<Value, ErrorView>,
)
    decreases depth, 0nat, 0nat,
{
    if depth == 0 {
        (m, Err(too_deep()))
    } else {
        let inner = (depth - 1) as nat;
        match e {
            Expr::Literal(l) => (m, Ok(l.value@)),
            Expr::Grouping(g) => eval_grouping(cfg, m, *g, inner),
            Expr::Variable(v) => (m, read_variable(cfg, m, *v)),
            Expr::Unary(u) => eval_unary(cfg, m, *u, inner),
            Expr::Binary(b) => eval_binary(cfg, m, *b, inner),
            Expr::Logical(l) => eval_logical(cfg, m, *l, inner),
            Expr::Ternary(t) => eval_ternary(cfg, m, *t, inner),
            Expr::Assign(a) => eval_assign(cfg, m, *a, inner),
            Expr::Call(c) => eval_call(cfg, m, *c, inner),
        }
    }
}

/// An expression in parentheses gives what the expression inside gives.
pub open spec fn eval_grouping(cfg: Setting, m: Machine, g: Grouping, depth: nat) -> (
    Machine,
    Result<Value, ErrorView>,
)
    decreases depth, 4nat, 0nat,
{
    eval_expr(cfg, m, *g.expression, depth)
}

/// The operand is evaluated before the operator is applied.
pub open spec fn eval_unary(cfg: Setting, m: Machine, u: Unary, depth: nat) -> (
    Machine,
    Result<Value, ErrorView>,
)
    decreases depth, 4nat, 0nat,
{
    let (m1, right) = eval_expr(cfg, m, *u.right, depth);
    match right {
        Ok(v) => (m1, unary_value(u.operator, v)),
        Err(e) => (m1, Err(e)),
    }
}

/// Both operands are evaluated, the left one first, before the operator is
/// applied.
pub open spec fn eval_binary(cfg: Setting, m: Machine, b: Binary, depth: nat) -> (
    Machine,
    Result<Value, ErrorView>,
)
    decreases depth, 4nat, 0nat,
{
    let (m1, left) = eval_expr(cfg, m, *b.left, depth);
    match left {
        Ok(l) => {
            let (m2, right) = eval_expr(cfg, m1, *b.right, depth);
            match right {
                Ok(r) => (m2, binary_value(b.operator, l, r)),
                Err(e) => (m2, Err(e)),
            }
        },
        Err(e) => (m1, Err(e)),
    }
}

/// `or` gives its left operand if that counts as true, `and` gives its left
/// operand if that counts as false; the right operand is evaluated, and
/// given, only otherwise.
pub open spec fn eval_logical(cfg: Setting, m: Machine, l: Logical, depth: nat) -> (
    Machine,
    Result<Value, ErrorView>,
)
    decreases depth, 4nat, 0nat,
{
    let (m1, left) = eval_expr(cfg, m, *l.left, depth);
    match left {
        Ok(v) => if (l.operator.token_type == TokenType::OR) == truthy(v) {
            (m1, Ok(v))
        } else {
            eval_expr(cfg, m1, *l.right, depth)
        },
        Err(e) => (m1, Err(e)),
    }
}

/// The condition is evaluated, then exactly one of the two branches.
pub open spec fn eval_ternary(cfg: Setting, m: Machine, t: Ternary, depth: nat) -> (
    Machine,
    Result<Value, ErrorView>,
)
    decreases depth, 4nat, 0nat,
{
    let (m1, condition) = eval_expr(cfg, m, *t.condition, depth);
    match condition {
        Ok(v) => if truthy(v) {
            eval_expr(cfg, m1, *t.true_branch, depth)
        } else {
            eval_expr(cfg, m1, *t.false_branch, depth)
        },
        Err(e) => (m1, Err(e)),
    }
}

/// The value is evaluated and assigned to the variable; it is the value of
/// the assignment too.
pub open spec fn eval_assign(cfg: Setting, m: Machine, a: Assign, depth: nat) -> (
    Machine,
    Result<Value, ErrorView>,
)
    decreases depth, 4nat, 0nat,
{
    let (m1, value) = eval_expr(cfg, m, *a.value, depth);
    match value {
        Ok(v) => assign_variable(cfg, m1, a, v),
        Err(e) => (m1, Err(e)),
    }
}

/// The callee is evaluated, then the arguments from left to right, then the
/// call is made.
pub open spec fn eval_call(cfg: Setting, m: Machine, c: Call, depth: nat) -> (
    Machine,
    Result<Value, ErrorView>,
)
    decreases depth, 4nat, 0nat,
{
    let (m1, callee) = eval_expr(cfg, m, *c.callee, depth);
    match callee {
        Ok(f) => {
            let (m2, args) = eval_args(cfg, m1, c.args@, 0, Seq::empty(), depth);
            match args {
                Ok(values) => call_value(cfg, m2, f, values, c.paren, depth),
                Err(e) => (m2, Err(e)),
            }
        },
        Err(e) => (m1, Err(e)),
    }
}

/// The values of the arguments from `from` on, added to `done`.
pub open spec fn eval_args(
    cfg: Setting,
    m: Machine,
    args: Seq<Expr>,
    from: nat,
    done: Seq<Value>,
    depth: nat,
) -> (Machine, Result<Seq<Value>, ErrorView>)
    decreases depth, 1nat, args.len() - from,
{
    if from >= args.len() {
        (m, Ok(done))
    } else {
        let (m1, value) = eval_expr(cfg, m, args[from as int], depth);
        match value {
            Ok(v) => eval_args(cfg, m1, args, from + 1, done.push(v), depth),
            Err(e) => (m1, Err(e)),
        }
    }
}

/// What running the function `declaration`, declared in scope `closure`,
/// on the arguments `args` gives.
///
/// The statements of the body run in a new scope, enclosed by the scope in
/// which the function was declared (not by the scope of the caller), that
/// binds the parameters to the arguments. The call gives the value that a
/// `return` statement returned, or `nil` where the body ran to its end.
/// Whatever happens, the scope of the caller is current again afterwards.
pub open spec fn run_function(
    cfg: Setting,
    m: Machine,
    declaration: Function,
    closure: EnvRef,
    args: Seq<Value>,
    depth: nat,
) -> (Machine, Result<Value, ErrorView>)
    decreases depth, 2nat, 0nat,
{
    if closure >= m.scopes.len() {
        (m, Err(internal_error("closure scope is missing"@)))
    } else {
        let framed = enter(m, closure);
        let bound = Machine {
            scopes: bind_parameters(
                framed.scopes,
                framed.current as nat,
                declaration.parameters@,
                args,
                0,
            ),
            ..framed
        };
        let (m1, flow) = exec_stmts(cfg, bound, body_statements(&declaration), 0, depth);
        (
            leave(m1, m.current),
            match flow {
                Ok(Flow::Return(v)) => Ok(v),
                Ok(Flow::Normal) => Ok(Value::Nil),
                Err(e) => Err(e),
            },
        )
    }
}

/// What calling `callee` with `args` gives.
///
/// The callee must be a callable, and must take as many arguments as there
/// are. The native function `clock` gives the time of the host; a function
/// of the program is run.
pub open spec fn call_value(
    cfg: Setting,
    m: Machine,
    callee: Value,
    args: Seq<Value>,
    paren: Token,
    depth: nat,
) -> (Machine, Result<Value, ErrorView>)
    decreases depth, 3nat, 0nat,
{
    match callee {
        Value::Function(h) => if h >= m.routines.len() {
            (m, Err(not_callable(paren)))
        } else if args.len() != routine_arity(m.routines[h as int]) {
            (m, Err(arity_error(paren, routine_arity(m.routines[h as int]), args.len())))
        } else {
            match m.routines[h as int] {
                Routine::Clock => (m, Ok(Value::Number(cfg.clock))),
                Routine::User { declaration, closure } => run_function(
                    cfg,
                    m,
                    declaration,
                    closure,
                    args,
                    depth,
                ),
            }
        },
        _ => (m, Err(not_callable(paren))),
    }
}

/// What running a statement gives: the machine after it, and the way the
/// statement ended or the error.
pub open spec fn exec_stmt(cfg: Setting, m: Machine, s: Stmt, depth: nat) -> (
    Machine,
    Result<Flow, ErrorView>,
)
    decreases depth, 0nat, 0nat,
{
    if depth == 0 {
        (m, Err(too_deep()))
    } else {
        let inner = (depth - 1) as nat;
        match s {
            Stmt::Expression(x) => exec_expression(cfg, m, *x, inner),
            Stmt::Print(p) => exec_print(cfg, m, *p, inner),
            Stmt::Var(v) => exec_var(cfg, m, *v, inner),
            Stmt::ReturnStmt(r) => exec_return(cfg, m, *r, inner),
            Stmt::Function(f) => (declare_function(m, *f), Ok(Flow::Normal)),
            Stmt::Block(b) => exec_block(cfg, m, *b, inner),
            Stmt::IfStmt(i) => exec_if(cfg, m, *i, inner),
            Stmt::WhileStmt(w) => exec_while(cfg, m, *w, cfg.loop_limit, inner),
        }
    }
}

/// The expression is evaluated and its value dropped.
pub open spec fn exec_expression(cfg: Setting, m: Machine, x: Expression, depth: nat) -> (
    Machine,
    Result<Flow, ErrorView>,
)
    decreases depth, 4nat, 0nat,
{
    let (m1, value) = eval_expr(cfg, m, *x.expression, depth);
    match value {
        Ok(_) => (m1, Ok(Flow::Normal)),
        Err(e) => (m1, Err(e)),
    }
}

/// The expression is evaluated and its value printed: a line is added to
/// the output.
pub open spec fn exec_print(cfg: Setting, m: Machine, p: Print, depth: nat) -> (
    Machine,
    Result<Flow, ErrorView>,
)
    decreases depth, 4nat, 0nat,
{
    let (m1, value) = eval_expr(cfg, m, *p.expression, depth);
    match value {
        Ok(v) => (
            Machine { output: m1.output.push(display(m1.routines, v)), ..m1 },
            Ok(Flow::Normal),
        ),
        Err(e) => (m1, Err(e)),
    }
}

/// The initializer is evaluated and the variable bound to its value in the
/// current scope.
pub open spec fn exec_var(cfg: Setting, m: Machine, v: Var, depth: nat) -> (
    Machine,
    Result<Flow, ErrorView>,
)
    decreases depth, 4nat, 0nat,
{
    let (m1, value) = eval_expr(cfg, m, *v.initializer, depth);
    match value {
        Ok(x) => (declare(m1, v.name.lexeme@, x), Ok(Flow::Normal)),
        Err(e) => (m1, Err(e)),
    }
}

/// The expression is evaluated and its value returned from the function
/// that is being called.
pub open spec fn exec_return(cfg: Setting, m: Machine, r: ReturnStmt, depth: nat) -> (
    Machine,
    Result<Flow, ErrorView>,
)
    decreases depth, 4nat, 0nat,
{
    let (m1, value) = eval_expr(cfg, m, *r.value, depth);
    match value {
        Ok(v) => (m1, Ok(Flow::Return(v))),
        Err(e) => (m1, Err(e)),
    }
}

/// A function declaration makes a callable that remembers the current
/// scope, and binds the name of the function to it in the current scope.
pub open spec fn declare_function(m: Machine, f: Function) -> Machine {
    declare(
        Machine {
            routines: m.routines.push(Routine::User { declaration: f, closure: m.current }),
            ..m
        },
        f.name.lexeme@,
        Value::Function(m.routines.len()),
    )
}

/// The statements of a block run in a new scope that the current scope
/// encloses. Whatever happens, the scope that was current before the block
/// is current again after it.
pub open spec fn exec_block(cfg: Setting, m: Machine, b: Block, depth: nat) -> (
    Machine,
    Result<Flow, ErrorView>,
)
    decreases depth, 4nat, 0nat,
{
    let (m1, flow) = exec_stmts(cfg, enter(m, m.current), b.statements@, 0, depth);
    (leave(m1, m.current), flow)
}

/// The condition is evaluated, then the branch that it selects, if there
/// is one.
pub open spec fn exec_if(cfg: Setting, m: Machine, i: IfStmt, depth: nat) -> (
    Machine,
    Result<Flow, ErrorView>,
)
    decreases depth, 4nat, 0nat,
{
    let (m1, condition) = eval_expr(cfg, m, *i.condition, depth);
    match condition {
        Ok(v) => if truthy(v) {
            exec_stmt(cfg, m1, *i.then_branch, depth)
        } else {
            match i.else_branch {
                Some(other) => exec_stmt(cfg, m1, *other, depth),
                None => (m1, Ok(Flow::Normal)),
            }
        },
        Err(e) => (m1, Err(e)),
    }
}

/// The statements from `from` on run in order. A statement that returns,
/// or fails, ends the run: the statements after it are not run.
pub open spec fn exec_stmts(cfg: Setting, m: Machine, stmts: Seq<Stmt>, from: nat, depth: nat) -> (
    Machine,
    Result<Flow, ErrorView>,
)
    decreases depth, 1nat, stmts.len() - from,
{
    if from >= stmts.len() {
        (m, Ok(Flow::Normal))
    } else {
        let (m1, flow) = exec_stmt(cfg, m, stmts[from as int], depth);
        match flow {
            Ok(Flow::Normal) => exec_stmts(cfg, m1, stmts, from + 1, depth),
            _ => (m1, flow),
        }
    }
}

/// The condition is evaluated and, while it counts as true, the body is run
/// and the condition evaluated again. `rounds` is how often the body may
/// still run.
pub open spec fn exec_while(cfg: Setting, m: Machine, w: WhileStmt, rounds: nat, depth: nat) -> (
    Machine,
    Result<Flow, ErrorView>,
)
    decreases depth, 1nat, rounds,
{
    let (m1, condition) = eval_expr(cfg, m, *w.condition, depth);
    match condition {
        Ok(v) => if !truthy(v) {
            (m1, Ok(Flow::Normal))
        } else if rounds == 0 {
            (m1, Err(too_long()))
        } else {
            let (m2, flow) = exec_stmt(cfg, m1, *w.body, depth);
            match flow {
                Ok(Flow::Normal) => exec_while(cfg, m2, w, (rounds - 1) as nat, depth),
                _ => (m2, flow),
            }
        },
        Err(e) => (m1, Err(e)),
    }
}

/// The error of a `return` that reaches the top level of a program.
pub open spec fn stray_return() -> ErrorView {
    ErrorView {
        kind: LoxErrorKind::Runtime,
        message: "Cannot return from top-level code."@,
        token: None,
        line: None,
    }
}

/// What running a whole program gives: the machine after it, and the error
/// that ended it, if one did.
pub open spec fn run_program(cfg: Setting, m: Machine, program: Seq<Stmt>, depth: nat) -> (
    Machine,
    Result<(), ErrorView>,
) {
    let (m1, flow) = exec_stmts(cfg, m, program, 0, depth);
    (
        m1,
        match flow {
            Ok(Flow::Normal) => Ok(()),
            Ok(Flow::Return(_)) => Err(stray_return()),
            Err(e) => Err(e),
        },
    )
}

/// `and` and `or` cut short: where the left operand decides (it counts as
/// false under `and`, as true under `or`), the expression gives the value
/// of the left operand itself, and leaves the machine as the left operand
/// left it. The right operand is not evaluated.
pub proof fn lemma_logical_cuts_short(cfg: Setting, m: Machine, l: Logical, depth: nat)
    requires
        eval_expr(cfg, m, *l.left, depth).1 matches Ok(v) && (l.operator.token_type
            == TokenType::OR) == truthy(v),
    ensures
        eval_logical(cfg, m, l, depth) == eval_expr(cfg, m, *l.left, depth),
{
}

/// A call with a number of arguments other than the number of parameters
/// fails, whatever the callable and the arguments are, with an error that
/// states both numbers; nothing is run and the machine stays as it was.
pub proof fn lemma_wrong_arity_fails(
    cfg: Setting,
    m: Machine,
    handle: nat,
    args: Seq<Value>,
    paren: Token,
    depth: nat,
)
    requires
        handle < m.routines.len(),
        args.len() != routine_arity(m.routines[handle as int]),
    ensures
        call_value(cfg, m, Value::Function(handle), args, paren, depth) == (
            m,
            Err::<Value, ErrorView>(
                arity_error(paren, routine_arity(m.routines[handle as int]), args.len()),
            ),
        ),
{
}

/// A call of a function of the program with as many arguments as it has
/// parameters runs the function: the arity is no reason for it to fail.
pub proof fn lemma_right_arity_runs_function(
    cfg: Setting,
    m: Machine,
    handle: nat,
    args: Seq<Value>,
    paren: Token,
    depth: nat,
)
    requires
        handle < m.routines.len(),
        m.routines[handle as int] is User,
        args.len() == routine_arity(m.routines[handle as int]),
    ensures
        call_value(cfg, m, Value::Function(handle), args, paren, depth) == run_function(
            cfg,
            m,
            m.routines[handle as int]->declaration,
            m.routines[handle as int]->closure,
            args,
            depth,
        ),
{
}

/// Scoping is lexical: what a call gives, and what it does to the scopes,
/// the callables and the output, does not depend on which scope is current
/// where the call is made.
pub proof fn lemma_call_ignores_current_scope(
    cfg: Setting,
    m: Machine,
    elsewhere: EnvRef,
    callee: Value,
    args: Seq<Value>,
    paren: Token,
    depth: nat,
)
    ensures
        ({
            let here = call_value(cfg, m, callee, args, paren, depth);
            let there = call_value(cfg, leave(m, elsewhere), callee, args, paren, depth);
            here.1 == there.1 && here.0 == leave(there.0, m.current)
        }),
{
    let there = leave(m, elsewhere);
    if let Value::Function(h) = callee {
        if h < m.routines.len() {
            if let Routine::User { declaration, closure } = m.routines[h as int] {
                let here_run = run_function(cfg, m, declaration, closure, args, depth);
                let there_run = run_function(cfg, there, declaration, closure, args, depth);
                assert(enter(m, closure) == enter(there, closure));
                assert(here_run.1 == there_run.1 && here_run.0 == leave(there_run.0, m.current));
            }
        }
    }
}

/// Whatever an expression does, the scope that was current before it is
/// current after it.
pub proof fn lemma_expr_restores_scope(cfg: Setting, m: Machine, e: Expr, depth: nat)
    ensures
        eval_expr(cfg, m, e, depth).0.current == m.current,
    decreases depth, 0nat, 0nat,
{
    if depth > 0 {
        let inner = (depth - 1) as nat;
        match e {
            Expr::Literal(_) => {},
            Expr::Grouping(g) => {
                lemma_expr_restores_scope(cfg, m, *g.expression, inner);
                assert(eval_grouping(cfg, m, *g, inner).0.current == m.current);
            },
            Expr::Variable(_) => {},
            Expr::Unary(u) => {
                lemma_expr_restores_scope(cfg, m, *u.right, inner);
                assert(eval_unary(cfg, m, *u, inner).0.current == m.current);
            },
            Expr::Binary(b) => {
                lemma_expr_restores_scope(cfg, m, *b.left, inner);
                lemma_expr_restores_scope(
                    cfg,
                    eval_expr(cfg, m, *b.left, inner).0,
                    *b.right,
                    inner,
                );
                assert(eval_binary(cfg, m, *b, inner).0.current == m.current);
            },
            Expr::Logical(l) => {
                lemma_expr_restores_scope(cfg, m, *l.left, inner);
                lemma_expr_restores_scope(
                    cfg,
                    eval_expr(cfg, m, *l.left, inner).0,
                    *l.right,
                    inner,
                );
                assert(eval_logical(cfg, m, *l, inner).0.current == m.current);
            },
            Expr::Ternary(t) => {
                let m1 = eval_expr(cfg, m, *t.condition, inner).0;
                lemma_expr_restores_scope(cfg, m, *t.condition, inner);
                lemma_expr_restores_scope(cfg, m1, *t.true_branch, inner);
                lemma_expr_restores_scope(cfg, m1, *t.false_branch, inner);
                assert(eval_ternary(cfg, m, *t, inner).0.current == m.current);
            },
            Expr::Assign(a) => {
                lemma_expr_restores_scope(cfg, m, *a.value, inner);
                assert(eval_assign(cfg, m, *a, inner).0.current == m.current);
            },
            Expr::Call(c) => {
                let m1 = eval_expr(cfg, m, *c.callee, inner).0;
                lemma_expr_restores_scope(cfg, m, *c.callee, inner);
                lemma_args_restore_scope(cfg, m1, c.args@, 0, Seq::empty(), inner);
                let (m2, args) = eval_args(cfg, m1, c.args@, 0, Seq::empty(), inner);
                if let Ok(f) = eval_expr(cfg, m, *c.callee, inner).1 {
                    if let Ok(values) = args {
                        lemma_call_restores_scope(cfg, m2, f, values, c.paren, inner);
                    }
                }
                assert(eval_call(cfg, m, *c, inner).0.current == m.current);
            },
        }
    }
}

/// Whatever a call does, the scope that was current before it is current
/// after it.
pub proof fn lemma_call_restores_scope(
    cfg: Setting,
    m: Machine,
    callee: Value,
    args: Seq<Value>,
    paren: Token,
    depth: nat,
)
    ensures
        call_value(cfg, m, callee, args, paren, depth).0.current == m.current,
{
    if let Value::Function(h) = callee {
        if h < m.routines.len() {
            if let Routine::User { declaration, closure } = m.routines[h as int] {
                assert(run_function(cfg, m, declaration, closure, args, depth).0.current
                    == m.current);
            }
        }
    }
}

proof fn lemma_args_restore_scope(
    cfg: Setting,
    m: Machine,
    args: Seq<Expr>,
    from: nat,
    done: Seq<Value>,
    depth: nat,
)
    ensures
        eval_args(cfg, m, args, from, done, depth).0.current == m.current,
    decreases depth, 1nat, args.len() - from,
{
    if from < args.len() {
        let (m1, value) = eval_expr(cfg, m, args[from as int], depth);
        lemma_expr_restores_scope(cfg, m, args[from as int], depth);
        if let Ok(v) = value {
            lemma_args_restore_scope(cfg, m1, args, from + 1, done.push(v), depth);
        }
    }
}

/// Whatever a statement does (it runs to its end, returns, or fails), the
/// scope that was current before it is current after it.
pub proof fn lemma_stmt_restores_scope(cfg: Setting, m: Machine, s: Stmt, depth: nat)
    ensures
        exec_stmt(cfg, m, s, depth).0.current == m.current,
    decreases depth, 0nat, 0nat,
{
    if depth > 0 {
        let inner = (depth - 1) as nat;
        match s {
            Stmt::Expression(x) => {
                lemma_expr_restores_scope(cfg, m, *x.expression, inner);
                assert(exec_expression(cfg, m, *x, inner).0.current == m.current);
            },
            Stmt::Print(p) => {
                lemma_expr_restores_scope(cfg, m, *p.expression, inner);
                assert(exec_print(cfg, m, *p, inner).0.current == m.current);
            },
            Stmt::Var(v) => {
                lemma_expr_restores_scope(cfg, m, *v.initializer, inner);
                assert(exec_var(cfg, m, *v, inner).0.current == m.current);
            },
            Stmt::ReturnStmt(r) => {
                lemma_expr_restores_scope(cfg, m, *r.value, inner);
                assert(exec_return(cfg, m, *r, inner).0.current == m.current);
            },
            Stmt::Function(_) => {},
            Stmt::Block(b) => {
                assert(exec_block(cfg, m, *b, inner).0.current == m.current);
            },
            Stmt::IfStmt(i) => {
                let m1 = eval_expr(cfg, m, *i.condition, inner).0;
                lemma_expr_restores_scope(cfg, m, *i.condition, inner);
                lemma_stmt_restores_scope(cfg, m1, *i.then_branch, inner);
                if let Some(other) = i.else_branch {
                    lemma_stmt_restores_scope(cfg, m1, *other, inner);
                }
                assert(exec_if(cfg, m, *i, inner).0.current == m.current);
            },
            Stmt::WhileStmt(w) => lemma_while_restores_scope(cfg, m, *w, cfg.loop_limit, inner),
        }
    }
}

proof fn lemma_while_restores_scope(
    cfg: Setting,
    m: Machine,
    w: WhileStmt,
    rounds: nat,
    depth: nat,
)
    ensures
        exec_while(cfg, m, w, rounds, depth).0.current == m.current,
    decreases depth, 1nat, rounds,
{
    let (m1, condition) = eval_expr(cfg, m, *w.condition, depth);
    lemma_expr_restores_scope(cfg, m, *w.condition, depth);
    if let Ok(v) = condition {
        if truthy(v) && rounds > 0 {
            let (m2, flow) = exec_stmt(cfg, m1, *w.body, depth);
            lemma_stmt_restores_scope(cfg, m1, *w.body, depth);
            if flow == Ok::<Flow, ErrorView>(Flow::Normal) {
                lemma_while_restores_scope(cfg, m2, w, (rounds - 1) as nat, depth);
            }
        }
    }
}

/// Whether running code took the machine `m` to the machine `after` as
/// code must: the scope that was current is current again; no scope went
/// away; and, if `m` has its current scope and `after` has no more scopes
/// than can be counted, every scope of `m` is still enclosed as it was and
/// binds the names that it bound, those and no others. Only the scope that
/// was current may bind more names than it did, and only if `may_bind`: a
/// statement may declare names in the current scope, an expression may not.
pub open spec fn keeps(m: Machine, after: Machine, may_bind: bool) -> bool {
    &&& after.current == m.current
    &&& after.scopes.len() >= m.scopes.len()
    &&& m.current < m.scopes.len() && after.scopes.len() <= usize::MAX ==> kept_except(
        m.scopes,
        after.scopes,
        if may_bind {
            m.current as int
        } else {
            -1
        },
    )
}

/// What holds of two runs, one after the other, holds of both together.
proof fn lemma_keeps_then(m: Machine, between: Machine, after: Machine, first: bool, second: bool)
    requires
        keeps(m, between, first),
        keeps(between, after, second),
    ensures
        keeps(m, after, first || second),
{
    if m.current < m.scopes.len() && after.scopes.len() <= usize::MAX {
        let here = if first || second {
            m.current as int
        } else {
            -1
        };
        assert forall|i: int| 0 <= i < m.scopes.len() && i != here implies scope_kept(
            m.scopes[i],
            #[trigger] after.scopes[i],
        ) by {
            assert(scope_kept(m.scopes[i], between.scopes[i]));
            assert(scope_kept(between.scopes[i], after.scopes[i]));
        }
    }
}

/// Binding the parameters of a function in its frame leaves every other
/// scope as it was.
proof fn lemma_parameters_keep(
    scopes: Seq<Scope>,
    frame: nat,
    parameters: Seq<Token>,
    args: Seq<Value>,
    from: nat,
)
    ensures
        bind_parameters(scopes, frame, parameters, args, from).len() == scopes.len(),
        kept_except(scopes, bind_parameters(scopes, frame, parameters, args, from), frame as int),
    decreases parameters.len() - from,
{
    if !(from >= parameters.len() || from >= args.len()) {
        let next = bind(scopes, frame, parameters[from as int].lexeme@, args[from as int]);
        lemma_bind_keeps(scopes, frame, parameters[from as int].lexeme@, args[from as int]);
        lemma_parameters_keep(next, frame, parameters, args, from + 1);
        let after = bind_parameters(scopes, frame, parameters, args, from);
        assert forall|i: int| 0 <= i < scopes.len() && i != frame implies scope_kept(
            scopes[i],
            #[trigger] after[i],
        ) by {
            assert(scope_kept(scopes[i], next[i]));
            assert(scope_kept(next[i], after[i]));
        }
    }
}

/// Code that runs in a new scope of its own leaves every scope that was
/// there before as it was.
proof fn lemma_in_new_scope(m: Machine, enclosing: EnvRef, inside: Machine, after: Machine)
    requires
        inside.current == enter(m, enclosing).current,
        inside.scopes.len() == m.scopes.len() + 1,
        kept_except(enter(m, enclosing).scopes, inside.scopes, m.scopes.len() as int),
        keeps(inside, after, true),
    ensures
        keeps(m, leave(after, m.current), false),
{
    let last = leave(after, m.current);
    if m.current < m.scopes.len() && last.scopes.len() <= usize::MAX {
        let framed = enter(m, enclosing);
        assert(framed.current == m.scopes.len());
        assert forall|i: int| 0 <= i < m.scopes.len() implies scope_kept(
            m.scopes[i],
            #[trigger] last.scopes[i],
        ) by {
            assert(framed.scopes[i] == m.scopes[i]);
            assert(scope_kept(framed.scopes[i], inside.scopes[i]));
            assert(scope_kept(inside.scopes[i], after.scopes[i]));
        }
    }
}

/// An expression declares no name: whatever it does, it leaves every scope
/// that was there before it enclosed as it was and binding the names that
/// it bound, those and no others. (It may assign to names, and the calls
/// that it makes run in scopes of their own.)
pub proof fn lemma_expr_keeps(cfg: Setting, m: Machine, e: Expr, depth: nat)
    ensures
        keeps(m, eval_expr(cfg, m, e, depth).0, false),
    decreases depth, 0nat, 0nat,
{
    if depth > 0 {
        let inner = (depth - 1) as nat;
        match e {
            Expr::Literal(_) => {},
            Expr::Variable(_) => {},
            Expr::Grouping(g) => {
                lemma_expr_keeps(cfg, m, *g.expression, inner);
                assert(keeps(m, eval_grouping(cfg, m, *g, inner).0, false));
            },
            Expr::Unary(u) => {
                lemma_expr_keeps(cfg, m, *u.right, inner);
                assert(keeps(m, eval_unary(cfg, m, *u, inner).0, false));
            },
            Expr::Binary(b) => {
                let m1 = eval_expr(cfg, m, *b.left, inner).0;
                let m2 = eval_expr(cfg, m1, *b.right, inner).0;
                lemma_expr_keeps(cfg, m, *b.left, inner);
                lemma_expr_keeps(cfg, m1, *b.right, inner);
                lemma_keeps_then(m, m1, m2, false, false);
                assert(keeps(m, eval_binary(cfg, m, *b, inner).0, false));
            },
            Expr::Logical(l) => {
                let m1 = eval_expr(cfg, m, *l.left, inner).0;
                let m2 = eval_expr(cfg, m1, *l.right, inner).0;
                lemma_expr_keeps(cfg, m, *l.left, inner);
                lemma_expr_keeps(cfg, m1, *l.right, inner);
                lemma_keeps_then(m, m1, m2, false, false);
                assert(keeps(m, eval_logical(cfg, m, *l, inner).0, false));
            },
            Expr::Ternary(t) => {
                let m1 = eval_expr(cfg, m, *t.condition, inner).0;
                lemma_expr_keeps(cfg, m, *t.condition, inner);
                lemma_expr_keeps(cfg, m1, *t.true_branch, inner);
                lemma_expr_keeps(cfg, m1, *t.false_branch, inner);
                lemma_keeps_then(
                    m,
                    m1,
                    eval_expr(cfg, m1, *t.true_branch, inner).0,
                    false,
                    false,
                );
                lemma_keeps_then(
                    m,
                    m1,
                    eval_expr(cfg, m1, *t.false_branch, inner).0,
                    false,
                    false,
                );
                assert(keeps(m, eval_ternary(cfg, m, *t, inner).0, false));
            },
            Expr::Assign(a) => {
                let (m1, value) = eval_expr(cfg, m, *a.value, inner);
                lemma_expr_keeps(cfg, m, *a.value, inner);
                if let Ok(v) = value {
                    let m2 = assign_variable(cfg, m1, *a, v).0;
                    lemma_rebind_keeps(
                        m1.scopes,
                        m1.current as nat,
                        if cfg.locals.contains_key(a.site) {
                            cfg.locals[a.site] as nat
                        } else {
                            0
                        },
                        a.name.lexeme@,
                        v,
                    );
                    assert(keeps(m1, m2, false));
                    lemma_keeps_then(m, m1, m2, false, false);
                }
                assert(keeps(m, eval_assign(cfg, m, *a, inner).0, false));
            },
            Expr::Call(c) => {
                let (m1, callee) = eval_expr(cfg, m, *c.callee, inner);
                lemma_expr_keeps(cfg, m, *c.callee, inner);
                if let Ok(f) = callee {
                    let (m2, args) = eval_args(cfg, m1, c.args@, 0, Seq::empty(), inner);
                    lemma_args_keep(cfg, m1, c.args@, 0, Seq::empty(), inner);
                    lemma_keeps_then(m, m1, m2, false, false);
                    if let Ok(values) = args {
                        let m3 = call_value(cfg, m2, f, values, c.paren, inner).0;
                        lemma_call_keeps(cfg, m2, f, values, c.paren, inner);
                        lemma_keeps_then(m, m2, m3, false, false);
                    }
                }
                assert(keeps(m, eval_call(cfg, m, *c, inner).0, false));
            },
        }
    }
}

proof fn lemma_args_keep(
    cfg: Setting,
    m: Machine,
    args: Seq<Expr>,
    from: nat,
    done: Seq<Value>,
    depth: nat,
)
    ensures
        keeps(m, eval_args(cfg, m, args, from, done, depth).0, false),
    decreases depth, 1nat, args.len() - from,
{
    if from < args.len() {
        let (m1, value) = eval_expr(cfg, m, args[from as int], depth);
        lemma_expr_keeps(cfg, m, args[from as int], depth);
        if let Ok(v) = value {
            let m2 = eval_args(cfg, m1, args, from + 1, done.push(v), depth).0;
            lemma_args_keep(cfg, m1, args, from + 1, done.push(v), depth);
            lemma_keeps_then(m, m1, m2, false, false);
        }
    }
}

/// A call leaves every scope that was there before it enclosed as it was
/// and binding the names that it bound: what the function declares, it
/// declares in scopes of its own.
pub proof fn lemma_call_keeps(
    cfg: Setting,
    m: Machine,
    callee: Value,
    args: Seq<Value>,
    paren: Token,
    depth: nat,
)
    ensures
        keeps(m, call_value(cfg, m, callee, args, paren, depth).0, false),
    decreases depth, 3nat, 0nat,
{
    if let Value::Function(h) = callee {
        if h < m.routines.len() && args.len() == routine_arity(m.routines[h as int]) {
            if let Routine::User { declaration, closure } = m.routines[h as int] {
                lemma_function_keeps(cfg, m, declaration, closure, args, depth);
            }
        }
    }
}

proof fn lemma_function_keeps(
    cfg: Setting,
    m: Machine,
    declaration: Function,
    closure: EnvRef,
    args: Seq<Value>,
    depth: nat,
)
    ensures
        keeps(m, run_function(cfg, m, declaration, closure, args, depth).0, false),
    decreases depth, 2nat, 0nat,
{
    if closure < m.scopes.len() {
        let framed = enter(m, closure);
        let bound = Machine {
            scopes: bind_parameters(
                framed.scopes,
                framed.current as nat,
                declaration.parameters@,
                args,
                0,
            ),
            ..framed
        };
        let after = exec_stmts(cfg, bound, body_statements(&declaration), 0, depth).0;
        lemma_parameters_keep(
            framed.scopes,
            framed.current as nat,
            declaration.parameters@,
            args,
            0,
        );
        lemma_stmts_keep(cfg, bound, body_statements(&declaration), 0, depth);
        if m.current < m.scopes.len() && after.scopes.len() <= usize::MAX {
            lemma_in_new_scope(m, closure, bound, after);
        }
    }
}

/// A statement declares names in the current scope only: whatever it does,
/// it leaves every other scope that was there before it enclosed as it was
/// and binding the names that it bound, those and no others; the scope
/// that was current still binds what it bound, and may bind more.
pub proof fn lemma_stmt_keeps(cfg: Setting, m: Machine, s: Stmt, depth: nat)
    ensures
        keeps(m, exec_stmt(cfg, m, s, depth).0, true),
    decreases depth, 0nat, 0nat,
{
    if depth > 0 {
        let inner = (depth - 1) as nat;
        match s {
            Stmt::Expression(x) => {
                lemma_expr_keeps(cfg, m, *x.expression, inner);
                assert(keeps(m, exec_expression(cfg, m, *x, inner).0, false));
            },
            Stmt::Print(p) => {
                lemma_expr_keeps(cfg, m, *p.expression, inner);
                assert(keeps(m, exec_print(cfg, m, *p, inner).0, false));
            },
            Stmt::ReturnStmt(r) => {
                lemma_expr_keeps(cfg, m, *r.value, inner);
                assert(keeps(m, exec_return(cfg, m, *r, inner).0, false));
            },
            Stmt::Var(v) => {
                let (m1, value) = eval_expr(cfg, m, *v.initializer, inner);
                lemma_expr_keeps(cfg, m, *v.initializer, inner);
                if let Ok(x) = value {
                    let m2 = declare(m1, v.name.lexeme@, x);
                    lemma_bind_keeps(m1.scopes, m1.current as nat, v.name.lexeme@, x);
                    assert(keeps(m1, m2, true));
                    lemma_keeps_then(m, m1, m2, false, true);
                }
                assert(keeps(m, exec_var(cfg, m, *v, inner).0, true));
            },
            Stmt::Function(_) => {
                let f = function_of(s);
                lemma_bind_keeps(
                    m.scopes,
                    m.current as nat,
                    f.name.lexeme@,
                    Value::Function(m.routines.len()),
                );
                assert(keeps(m, declare_function(m, f), true));
            },
            Stmt::Block(b) => {
                lemma_block_keeps(cfg, m, *b, inner);
            },
            Stmt::IfStmt(i) => {
                let (m1, condition) = eval_expr(cfg, m, *i.condition, inner);
                lemma_expr_keeps(cfg, m, *i.condition, inner);
                lemma_stmt_keeps(cfg, m1, *i.then_branch, inner);
                lemma_keeps_then(
                    m,
                    m1,
                    exec_stmt(cfg, m1, *i.then_branch, inner).0,
                    false,
                    true,
                );
                if let Some(other) = i.else_branch {
                    lemma_stmt_keeps(cfg, m1, *other, inner);
                    lemma_keeps_then(m, m1, exec_stmt(cfg, m1, *other, inner).0, false, true);
                }
                assert(keeps(m, exec_if(cfg, m, *i, inner).0, true));
            },
            Stmt::WhileStmt(w) => lemma_while_keeps(cfg, m, *w, cfg.loop_limit, inner),
        }
    }
}

/// The declaration that a function statement holds.
pub open spec fn function_of(s: Stmt) -> Function {
    match s {
        Stmt::Function(f) => *f,
        _ => arbitrary(),
    }
}

/// A block declares its names in a scope of its own: whatever it does, it
/// leaves every scope that was there before it, the scope around it too,
/// enclosed as it was and binding the names that it bound, those and no
/// others, and the scope that was current is current again.
pub proof fn lemma_block_keeps(cfg: Setting, m: Machine, b: Block, depth: nat)
    ensures
        keeps(m, exec_block(cfg, m, b, depth).0, false),
    decreases depth, 4nat, 0nat,
{
    let framed = enter(m, m.current);
    let after = exec_stmts(cfg, framed, b.statements@, 0, depth).0;
    lemma_stmts_keep(cfg, framed, b.statements@, 0, depth);
    if m.current < m.scopes.len() && after.scopes.len() <= usize::MAX {
        lemma_in_new_scope(m, m.current, framed, after);
    }
}

/// Statements that run one after the other declare names in the current
/// scope only.
pub proof fn lemma_stmts_keep(cfg: Setting, m: Machine, stmts: Seq<Stmt>, from: nat, depth: nat)
    ensures
        keeps(m, exec_stmts(cfg, m, stmts, from, depth).0, true),
    decreases depth, 1nat, stmts.len() - from,
{
    if from < stmts.len() {
        let (m1, flow) = exec_stmt(cfg, m, stmts[from as int], depth);
        lemma_stmt_keeps(cfg, m, stmts[from as int], depth);
        if flow == Ok::<Flow, ErrorView>(Flow::Normal) {
            let m2 = exec_stmts(cfg, m1, stmts, from + 1, depth).0;
            lemma_stmts_keep(cfg, m1, stmts, from + 1, depth);
            lemma_keeps_then(m, m1, m2, true, true);
        }
    }
}

proof fn lemma_while_keeps(cfg: Setting, m: Machine, w: WhileStmt, rounds: nat, depth: nat)
    ensures
        keeps(m, exec_while(cfg, m, w, rounds, depth).0, true),
    decreases depth, 1nat, rounds,
{
    let (m1, condition) = eval_expr(cfg, m, *w.condition, depth);
    lemma_expr_keeps(cfg, m, *w.condition, depth);
    if let Ok(v) = condition {
        if truthy(v) && rounds > 0 {
            let (m2, flow) = exec_stmt(cfg, m1, *w.body, depth);
            lemma_stmt_keeps(cfg, m1, *w.body, depth);
            lemma_keeps_then(m, m1, m2, false, true);
            if flow == Ok::<Flow, ErrorView>(Flow::Normal) {
                let m3 = exec_while(cfg, m2, w, (rounds - 1) as nat, depth).0;
                lemma_while_keeps(cfg, m2, w, (rounds - 1) as nat, depth);
                lemma_keeps_then(m, m2, m3, true, true);
            }
        }
    }
}

} // verus!
