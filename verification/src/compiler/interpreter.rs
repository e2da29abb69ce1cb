//! The evaluator: it walks the syntax tree and does what
//! [`crate::compiler::semantics`] says.

use crate::compiler::control_flow::{flow_or_error, ControlFlow};
use crate::compiler::env::{kept, kept_except, value_or_error, Env, EnvRef, Scope};
use crate::compiler::error::{ErrorView, LoxError, LoxErrorKind};
use crate::compiler::expr::{
    truthy, Assign, Binary, Call, Expr, Grouping, Literal, Logical, Ternary, Unary, Variable,
};
use crate::compiler::expr::{Object, Value};
use crate::compiler::lox_function::{share, Callable, LoxFunction, Routine};
use crate::compiler::natives::ClockFunction;
use crate::compiler::number::Number;
use crate::compiler::operators::{binary_op, unary_op};
use crate::compiler::semantics::{
    arity_error, bind_parameters, call_value, declare, declare_function, display, eval_args,
    eval_assign, eval_binary, eval_call, eval_expr, eval_grouping, eval_logical, eval_ternary,
    eval_unary, exec_block, exec_expression, exec_if, exec_print, exec_return, exec_stmt,
    exec_stmts, exec_var, exec_while, leave, lemma_block_keeps, lemma_stmts_keep,
    read_variable, run_function, run_program,
    too_deep, too_long, Machine, Setting,
};
use crate::compiler::stmt::{
    body_statements, Block, Expression, Function, IfStmt, Print, ReturnStmt, Stmt, Var,
    WhileStmt,
};
use crate::compiler::text::append_decimal;
use crate::compiler::token::{Token, TokenType};
use std::collections::HashMap;
use std::rc::Rc;
use vstd::prelude::*;
use vstd::string::*;

verus! {

broadcast use vstd::std_specs::hash::group_hash_axioms;

/// How deeply a program may nest, unless the host says otherwise.
pub const DEPTH_LIMIT: usize = 1000;

/// How often one loop may run its body, unless the host says otherwise.
pub const LOOP_LIMIT: u64 = 0xffff_ffff_ffff_ffff;

/// The evaluator and its state.
pub struct Interpreter {
    /// The outermost scope.
    pub globals: EnvRef,
    /// The current scope.
    pub env: EnvRef,
    /// All the scopes.
    pub store: Env,
    /// Every callable made so far; a function value names one by its index.
    pub functions: Vec<Callable>,
    /// The lines printed so far.
    pub output: Vec<String>,
    /// The distances that static resolution found.
    pub locals: HashMap<usize, usize>,
    /// The time that `clock` returns.
    pub clock: Number,
    pub depth_limit: usize,
    pub loop_limit: u64,
}

/// A list of callables as plain mathematical data.
pub open spec fn routines_of(functions: Seq<Callable>) -> Seq<Routine> {
    Seq::new(functions.len(), |i: int| functions[i]@)
}

/// A list of lines as plain mathematical data.
pub open spec fn lines_of(output: Seq<String>) -> Seq<Seq<char>> {
    Seq::new(output.len(), |i: int| output[i]@)
}

/// A list of values as plain mathematical data.
pub open spec fn values_of(objects: Seq<Object>) -> Seq<Value> {
    Seq::new(objects.len(), |i: int| objects[i]@)
}

/// The machine on which every program starts: one scope, which binds
/// `clock` to the native function, and nothing printed.
pub open spec fn initial_machine() -> Machine {
    Machine {
        scopes: seq![
            Scope {
                enclosing: None,
                bindings: Map::<Seq<char>, Value>::empty().insert("clock"@, Value::Function(0)),
            },
        ],
        routines: seq![Routine::Clock],
        current: 0,
        output: Seq::empty(),
    }
}

/// The result of a program as plain mathematical data.
pub open spec fn unit_or_error(r: Result<(), LoxError>) -> Result<(), ErrorView> {
    match r {
        Ok(_) => Ok(()),
        Err(e) => Err(e@),
    }
}

impl View for Interpreter {
    type V = Machine;

    open spec fn view(&self) -> Machine {
        Machine {
            scopes: self.store@,
            routines: routines_of(self.functions@),
            current: self.env,
            output: lines_of(self.output@),
        }
    }
}

fn stack_overflow() -> (e: LoxError)
    ensures
        e@ == too_deep(),
{
    LoxError {
        kind: LoxErrorKind::Runtime,
        message: String::from_str("Stack overflow."),
        token: None,
        line: None,
    }
}

fn loop_overflow() -> (e: LoxError)
    ensures
        e@ == too_long(),
{
    LoxError {
        kind: LoxErrorKind::Runtime,
        message: String::from_str("Loop limit exceeded."),
        token: None,
        line: None,
    }
}

fn wrong_arity(paren: &Token, expected: usize, got: usize) -> (e: LoxError)
    ensures
        e@ == arity_error(*paren, expected as nat, got as nat),
{
    let mut message = String::from_str("Expected ");
    append_decimal(&mut message, expected as u64);
    message.append(" arguments but got ");
    append_decimal(&mut message, got as u64);
    message.append(".");
    LoxError { kind: LoxErrorKind::Runtime, message, token: Some(paren.clone()), line: None }
}

impl Interpreter {
    /// The scopes are well formed, and the current and the outermost scope
    /// are among them.
    pub open spec fn wf(&self) -> bool {
        &&& self.store.wf()
        &&& self.env < self.store@.len()
        &&& self.globals < self.store@.len()
    }

    /// What stays the same while a program runs.
    pub open spec fn setting(&self) -> Setting {
        Setting { locals: self.locals@, clock: self.clock@, loop_limit: self.loop_limit as nat }
    }

    /// What running code never changes: the setting, the limits, which scope
    /// is the outermost and which the current one; and no scope goes away.
    pub open spec fn steady(&self, before: &Interpreter) -> bool {
        &&& self.wf()
        &&& self.setting() == before.setting()
        &&& self.globals == before.globals
        &&& self.depth_limit == before.depth_limit
        &&& self.env == before.env
        &&& self.store@.len() >= before.store@.len()
    }

    /// An interpreter on the initial machine, with no distance recorded, the
    /// clock at zero and the default limits.
    pub fn new() -> (interpreter: Self)
        ensures
            interpreter.wf(),
            interpreter@ == initial_machine(),
            interpreter.setting() == (Setting {
                locals: Map::empty(),
                clock: 0,
                loop_limit: LOOP_LIMIT as nat,
            }),
            interpreter.depth_limit == DEPTH_LIMIT,
    {
        let mut store = Env::new();
        let globals = store.new_global();
        store.define(globals, String::from_str("clock"), Object::Function(0));
        let mut functions: Vec<Callable> = Vec::new();
        functions.push(Callable::Native(ClockFunction));
        let interpreter = Interpreter {
            globals,
            env: globals,
            store,
            functions,
            output: Vec::new(),
            locals: HashMap::new(),
            clock: Number { millionths: 0 },
            depth_limit: DEPTH_LIMIT,
            loop_limit: LOOP_LIMIT,
        };
        assert(interpreter@.scopes =~= initial_machine().scopes);
        assert(interpreter@.routines =~= initial_machine().routines);
        assert(interpreter@.output =~= initial_machine().output);
        interpreter
    }

    /// Records that the variable used at `site` lives `depth` scopes out
    /// from the scope of the use.
    pub fn resolve(&mut self, site: usize, depth: usize)
        ensures
            final(self).locals@ == old(self).locals@.insert(site, depth),
            final(self)@ == old(self)@,
            final(self).wf() == old(self).wf(),
            final(self).clock == old(self).clock,
            final(self).loop_limit == old(self).loop_limit,
            final(self).depth_limit == old(self).depth_limit,
    {
        self.locals.insert(site, depth);
    }

    /// Takes over all the distances that static resolution found.
    pub fn set_locals(&mut self, locals: HashMap<usize, usize>)
        ensures
            final(self).locals@ == locals@,
            final(self)@ == old(self)@,
            final(self).wf() == old(self).wf(),
            final(self).clock == old(self).clock,
            final(self).loop_limit == old(self).loop_limit,
            final(self).depth_limit == old(self).depth_limit,
    {
        self.locals = locals;
    }

    /// Sets the time that `clock` returns.
    pub fn set_clock(&mut self, now: Number)
        ensures
            final(self).clock == now,
            final(self).locals == old(self).locals,
            final(self)@ == old(self)@,
            final(self).wf() == old(self).wf(),
            final(self).loop_limit == old(self).loop_limit,
            final(self).depth_limit == old(self).depth_limit,
    {
        self.clock = now;
    }

    /// Sets how deeply a program may nest and how often a loop may run.
    pub fn set_limits(&mut self, depth_limit: usize, loop_limit: u64)
        ensures
            final(self).depth_limit == depth_limit,
            final(self).loop_limit == loop_limit,
            final(self).locals == old(self).locals,
            final(self).clock == old(self).clock,
            final(self)@ == old(self)@,
            final(self).wf() == old(self).wf(),
    {
        self.depth_limit = depth_limit;
        self.loop_limit = loop_limit;
    }

    /// How `print` writes a value.
    pub fn stringify(&self, value: &Object) -> (s: String)
        ensures
            s@ == display(self@.routines, value@),
    {
        match value {
            Object::Function(h) => if *h < self.functions.len() {
                self.functions[*h].to_string()
            } else {
                value.to_string()
            },
            _ => value.to_string(),
        }
    }

    /// Prints a line.
    fn emit(&mut self, line: String)
        requires
            old(self).wf(),
        ensures
            final(self).steady(old(self)),
            final(self)@ == (Machine { output: old(self)@.output.push(line@), ..old(self)@ }),
    {
        self.output.push(line);
        assert(lines_of(self.output@) =~= lines_of(old(self).output@).push(line@));
    }

    /// Binds `name` to `value` in the current scope.
    fn define_here(&mut self, name: String, value: Object)
        requires
            old(self).wf(),
        ensures
            final(self).steady(old(self)),
            final(self)@ == declare(old(self)@, name@, value@),
    {
        self.store.define(self.env, name, value);
    }

    /// Makes `scope` the current scope.
    fn switch_to(&mut self, scope: EnvRef)
        requires
            old(self).wf(),
            scope < old(self)@.scopes.len(),
        ensures
            final(self).wf(),
            final(self).setting() == old(self).setting(),
            final(self).globals == old(self).globals,
            final(self).depth_limit == old(self).depth_limit,
            final(self).store == old(self).store,
            final(self).env == scope,
            final(self)@ == leave(old(self)@, scope),
    {
        self.env = scope;
    }

    /// Evaluates an expression.
    pub fn evaluate(&mut self, expr: &Expr, depth: usize) -> (r: Result<Object, LoxError>)
        requires
            old(self).wf(),
        ensures
            final(self).steady(old(self)),
            (final(self)@, value_or_error(r)) == eval_expr(
                old(self).setting(),
                old(self)@,
                *expr,
                depth as nat,
            ),
        decreases depth, 0nat, 0nat,
    {
        if depth == 0 {
            return Err(stack_overflow());
        }
        let inner = depth - 1;
        match expr {
            Expr::Literal(l) => Ok(self.visit_literal(l)),
            Expr::Grouping(g) => self.visit_grouping(g, inner),
            Expr::Variable(v) => self.visit_variable(v),
            Expr::Unary(u) => self.visit_unary(u, inner),
            Expr::Binary(b) => self.visit_binary(b, inner),
            Expr::Logical(l) => self.visit_logical(l, inner),
            Expr::Ternary(t) => self.visit_ternary(t, inner),
            Expr::Assign(a) => self.visit_assign(a, inner),
            Expr::Call(c) => self.visit_call(c, inner),
        }
    }

    /// Whether a value counts as true.
    pub fn is_truthy(object: &Object) -> (r: bool)
        ensures
            r == truthy(object@),
    {
        object.is_truthy()
    }

    /// The value of a constant.
    pub fn visit_literal(&self, literal: &Literal) -> (r: Object)
        ensures
            r@ == literal.value@,
    {
        literal.value.clone()
    }

    /// Evaluates an expression in parentheses.
    pub fn visit_grouping(&mut self, grouping: &Grouping, depth: usize) -> (r: Result<
        Object,
        LoxError,
    >)
        requires
            old(self).wf(),
        ensures
            final(self).steady(old(self)),
            (final(self)@, value_or_error(r)) == eval_grouping(
                old(self).setting(),
                old(self)@,
                *grouping,
                depth as nat,
            ),
        decreases depth, 4nat, 0nat,
    {
        self.evaluate(&grouping.expression, depth)
    }

    /// Reads a variable.
    pub fn visit_variable(&self, variable: &Variable) -> (r: Result<Object, LoxError>)
        requires
            self.wf(),
        ensures
            value_or_error(r) == read_variable(self.setting(), self@, *variable),
    {
        match self.locals.get(&variable.site) {
            Some(distance) => self.store.get_at(self.env, *distance, &variable.name.lexeme),
            None => self.store.get(self.env, &variable.name.lexeme, &variable.name),
        }
    }

    /// Evaluates the operand, then applies the operator.
    pub fn visit_unary(&mut self, unary: &Unary, depth: usize) -> (r: Result<Object, LoxError>)
        requires
            old(self).wf(),
        ensures
            final(self).steady(old(self)),
            (final(self)@, value_or_error(r)) == eval_unary(
                old(self).setting(),
                old(self)@,
                *unary,
                depth as nat,
            ),
        decreases depth, 4nat, 0nat,
    {
        match self.evaluate(&unary.right, depth) {
            Ok(right) => unary_op(&unary.operator, &right),
            Err(e) => Err(e),
        }
    }

    /// Evaluates both operands, the left one first, then applies the operator.
    pub fn visit_binary(&mut self, binary: &Binary, depth: usize) -> (r: Result<Object, LoxError>)
        requires
            old(self).wf(),
        ensures
            final(self).steady(old(self)),
            (final(self)@, value_or_error(r)) == eval_binary(
                old(self).setting(),
                old(self)@,
                *binary,
                depth as nat,
            ),
        decreases depth, 4nat, 0nat,
    {
        match self.evaluate(&binary.left, depth) {
            Ok(left) => match self.evaluate(&binary.right, depth) {
                Ok(right) => binary_op(&binary.operator, &left, &right),
                Err(e) => Err(e),
            },
            Err(e) => Err(e),
        }
    }

    /// Evaluates the left operand and, only if that does not decide, the right
    /// one.
    pub fn visit_logical(&mut self, logical: &Logical, depth: usize) -> (r: Result<
        Object,
        LoxError,
    >)
        requires
            old(self).wf(),
        ensures
            final(self).steady(old(self)),
            (final(self)@, value_or_error(r)) == eval_logical(
                old(self).setting(),
                old(self)@,
                *logical,
                depth as nat,
            ),
        decreases depth, 4nat, 0nat,
    {
        match self.evaluate(&logical.left, depth) {
            Ok(left) => {
                let is_or = logical.operator.token_type == TokenType::OR;
                if is_or == Interpreter::is_truthy(&left) {
                    Ok(left)
                } else {
                    self.evaluate(&logical.right, depth)
                }
            },
            Err(e) => Err(e),
        }
    }

    /// Evaluates the condition, then exactly one of the branches.
    pub fn visit_ternary(&mut self, ternary: &Ternary, depth: usize) -> (r: Result<
        Object,
        LoxError,
    >)
        requires
            old(self).wf(),
        ensures
            final(self).steady(old(self)),
            (final(self)@, value_or_error(r)) == eval_ternary(
                old(self).setting(),
                old(self)@,
                *ternary,
                depth as nat,
            ),
        decreases depth, 4nat, 0nat,
    {
        match self.evaluate(&ternary.condition, depth) {
            Ok(condition) => if Interpreter::is_truthy(&condition) {
                self.evaluate(&ternary.true_branch, depth)
            } else {
                self.evaluate(&ternary.false_branch, depth)
            },
            Err(e) => Err(e),
        }
    }

    /// Evaluates the value and assigns it to the variable; the value is the
    /// value of the assignment.
    pub fn visit_assign(&mut self, assign: &Assign, depth: usize) -> (r: Result<Object, LoxError>)
        requires
            old(self).wf(),
        ensures
            final(self).steady(old(self)),
            (final(self)@, value_or_error(r)) == eval_assign(
                old(self).setting(),
                old(self)@,
                *assign,
                depth as nat,
            ),
        decreases depth, 4nat, 0nat,
    {
        match self.evaluate(&assign.value, depth) {
            Ok(value) => match self.locals.get(&assign.site) {
                Some(distance) => {
                    let distance = *distance;
                    self.store.assign_at(self.env, distance, &assign.name, value)
                },
                None => self.store.assign(self.env, &assign.name, value),
            },
            Err(e) => Err(e),
        }
    }

    /// Evaluates the callee, then the arguments from left to right, then
    /// makes the call.
    pub fn visit_call(&mut self, call: &Call, depth: usize) -> (r: Result<Object, LoxError>)
        requires
            old(self).wf(),
        ensures
            final(self).steady(old(self)),
            (final(self)@, value_or_error(r)) == eval_call(
                old(self).setting(),
                old(self)@,
                *call,
                depth as nat,
            ),
        decreases depth, 4nat, 0nat,
    {
        let ghost cfg = self.setting();
        let callee = match self.evaluate(&call.callee, depth) {
            Ok(callee) => callee,
            Err(e) => {
                return Err(e);
            },
        };
        let ghost m1 = self@;
        let mut args: Vec<Object> = Vec::new();
        let mut i: usize = 0;
        assert(values_of(args@) =~= Seq::<Value>::empty());
        while i < call.args.len()
            invariant
                self.steady(old(self)),
                cfg == old(self).setting(),
                eval_expr(cfg, old(self)@, *call.callee, depth as nat) == (
                    m1,
                    Ok::<Value, ErrorView>(callee@),
                ),
                i <= call.args.len(),
                eval_args(cfg, m1, call.args@, 0, Seq::empty(), depth as nat) == eval_args(
                    cfg,
                    self@,
                    call.args@,
                    i as nat,
                    values_of(args@),
                    depth as nat,
                ),
            decreases call.args.len() - i,
        {
            let ghost done = values_of(args@);
            match self.evaluate(&call.args[i], depth) {
                Ok(value) => {
                    args.push(value);
                    assert(values_of(args@) =~= done.push(value@));
                },
                Err(e) => {
                    return Err(e);
                },
            }
            i += 1;
        }
        self.call(&callee, args, &call.paren, depth)
    }

    /// Calls `callee` with the arguments `args`.
    pub fn call(&mut self, callee: &Object, args: Vec<Object>, paren: &Token, depth: usize) -> (r:
        Result<Object, LoxError>)
        requires
            old(self).wf(),
        ensures
            final(self).steady(old(self)),
            (final(self)@, value_or_error(r)) == call_value(
                old(self).setting(),
                old(self)@,
                callee@,
                values_of(args@),
                *paren,
                depth as nat,
            ),
        decreases depth, 3nat, 0nat,
    {
        match callee {
            Object::Function(h) => {
                if *h >= self.functions.len() {
                    return Err(LoxError::new_runtime(paren.clone(), "Can only call functions."));
                }
                let arity = self.functions[*h].arity();
                if args.len() != arity {
                    return Err(wrong_arity(paren, arity, args.len()));
                }
                match &self.functions[*h] {
                    Callable::Native(f) => Ok(f.call(self.clock)),
                    Callable::User(f) => {
                        let function = LoxFunction::new(share(&f.declaration), f.closure);
                        function.call(self, &args, depth)
                    },
                }
            },
            _ => Err(LoxError::new_runtime(paren.clone(), "Can only call functions.")),
        }
    }

    /// Runs a statement.
    pub fn execute(&mut self, statement: &Stmt, depth: usize) -> (r: Result<ControlFlow, LoxError>)
        requires
            old(self).wf(),
        ensures
            final(self).steady(old(self)),
            (final(self)@, flow_or_error(r)) == exec_stmt(
                old(self).setting(),
                old(self)@,
                *statement,
                depth as nat,
            ),
        decreases depth, 0nat, 0nat,
    {
        if depth == 0 {
            return Err(stack_overflow());
        }
        let inner = depth - 1;
        match statement {
            Stmt::Expression(x) => self.visit_expression(x, inner),
            Stmt::Print(p) => self.visit_print(p, inner),
            Stmt::Var(v) => self.visit_var(v, inner),
            Stmt::ReturnStmt(r) => self.visit_return_stmt(r, inner),
            Stmt::Function(f) => {
                self.visit_function(f);
                Ok(ControlFlow::Normal)
            },
            Stmt::Block(b) => self.visit_block(b, inner),
            Stmt::IfStmt(i) => self.visit_if_stmt(i, inner),
            Stmt::WhileStmt(w) => self.visit_while_stmt(w, inner),
        }
    }

    /// Evaluates the expression and drops its value.
    pub fn visit_expression(&mut self, expression: &Expression, depth: usize) -> (r: Result<
        ControlFlow,
        LoxError,
    >)
        requires
            old(self).wf(),
        ensures
            final(self).steady(old(self)),
            (final(self)@, flow_or_error(r)) == exec_expression(
                old(self).setting(),
                old(self)@,
                *expression,
                depth as nat,
            ),
        decreases depth, 4nat, 0nat,
    {
        match self.evaluate(&expression.expression, depth) {
            Ok(_) => Ok(ControlFlow::Normal),
            Err(e) => Err(e),
        }
    }

    /// Evaluates the expression and prints its value.
    pub fn visit_print(&mut self, print: &Print, depth: usize) -> (r: Result<ControlFlow, LoxError>)
        requires
            old(self).wf(),
        ensures
            final(self).steady(old(self)),
            (final(self)@, flow_or_error(r)) == exec_print(
                old(self).setting(),
                old(self)@,
                *print,
                depth as nat,
            ),
        decreases depth, 4nat, 0nat,
    {
        match self.evaluate(&print.expression, depth) {
            Ok(value) => {
                let line = self.stringify(&value);
                self.emit(line);
                Ok(ControlFlow::Normal)
            },
            Err(e) => Err(e),
        }
    }

    /// Evaluates the initializer and binds the variable to its value in the
    /// current scope.
    pub fn visit_var(&mut self, var: &Var, depth: usize) -> (r: Result<ControlFlow, LoxError>)
        requires
            old(self).wf(),
        ensures
            final(self).steady(old(self)),
            (final(self)@, flow_or_error(r)) == exec_var(
                old(self).setting(),
                old(self)@,
                *var,
                depth as nat,
            ),
        decreases depth, 4nat, 0nat,
    {
        match self.evaluate(&var.initializer, depth) {
            Ok(value) => {
                self.define_here(var.name.lexeme.clone(), value);
                Ok(ControlFlow::Normal)
            },
            Err(e) => Err(e),
        }
    }

    /// Evaluates the expression and returns its value from the function that
    /// is being called.
    pub fn visit_return_stmt(&mut self, return_stmt: &ReturnStmt, depth: usize) -> (r: Result<
        ControlFlow,
        LoxError,
    >)
        requires
            old(self).wf(),
        ensures
            final(self).steady(old(self)),
            (final(self)@, flow_or_error(r)) == exec_return(
                old(self).setting(),
                old(self)@,
                *return_stmt,
                depth as nat,
            ),
        decreases depth, 4nat, 0nat,
    {
        match self.evaluate(&return_stmt.value, depth) {
            Ok(value) => Ok(ControlFlow::Return(value)),
            Err(e) => Err(e),
        }
    }

    /// Makes a function value that captures the current scope, and binds
    /// the function's name to it in the current scope.
    pub fn visit_function(&mut self, function: &Rc<Function>)
        requires
            old(self).wf(),
        ensures
            final(self).steady(old(self)),
            final(self)@ == declare_function(old(self)@, **function),
    {
        let handle = self.functions.len();
        let made = LoxFunction::new(share(function), self.env);
        self.functions.push(Callable::User(made));
        assert(routines_of(self.functions@) =~= routines_of(old(self).functions@).push(
            Routine::User { declaration: **function, closure: old(self)@.current },
        ));
        self.define_here(function.name.lexeme.clone(), Object::Function(handle));
    }

    /// Runs the statements of a block in a new scope that the current scope
    /// encloses. What the block declares ends with the block: every scope
    /// that was there before the block, the scope around it too, binds
    /// after it the names that it bound before, those and no others.
    pub fn visit_block(&mut self, block: &Block, depth: usize) -> (r: Result<ControlFlow, LoxError>)
        requires
            old(self).wf(),
        ensures
            final(self).steady(old(self)),
            (final(self)@, flow_or_error(r)) == exec_block(
                old(self).setting(),
                old(self)@,
                *block,
                depth as nat,
            ),
            kept(old(self)@.scopes, final(self)@.scopes),
        decreases depth, 4nat, 0nat,
    {
        let frame = self.store.new_enclosed(self.env);
        let flow = self.execute_block(&block.statements, frame, depth);
        proof {
            assert(self.store@.len() == self.store.frames.len());
            lemma_block_keeps(old(self).setting(), old(self)@, *block, depth as nat);
        }
        flow
    }

    /// Runs `statements` with `new_env` as the current scope, and makes the
    /// scope that was current before the current scope again, whether the
    /// statements ran to their end, returned or failed. The names that the
    /// statements declare, they declare in scope `new_env` or in scopes of
    /// their own: every other scope that was there before binds afterwards
    /// the names that it bound before, those and no others.
    pub fn execute_block(&mut self, statements: &Vec<Stmt>, new_env: EnvRef, depth: usize) -> (r:
        Result<ControlFlow, LoxError>)
        requires
            old(self).wf(),
            new_env < old(self)@.scopes.len(),
        ensures
            final(self).steady(old(self)),
            (final(self)@, flow_or_error(r)) == ({
                let (m1, flow) = exec_stmts(
                    old(self).setting(),
                    leave(old(self)@, new_env),
                    statements@,
                    0,
                    depth as nat,
                );
                (leave(m1, old(self)@.current), flow)
            }),
            kept_except(old(self)@.scopes, final(self)@.scopes, new_env as int),
        decreases depth, 2nat, 0nat,
    {
        let guard = EnvGuard::new(self, new_env);
        let flow = self.execute_statements(statements, depth);
        guard.release(self);
        proof {
            assert(self.store@.len() == self.store.frames.len());
            lemma_stmts_keep(
                old(self).setting(),
                leave(old(self)@, new_env),
                statements@,
                0,
                depth as nat,
            );
        }
        flow
    }

    /// Runs statements in order, up to the first that returns or fails.
    pub fn execute_statements(&mut self, statements: &Vec<Stmt>, depth: usize) -> (r: Result<
        ControlFlow,
        LoxError,
    >)
        requires
            old(self).wf(),
        ensures
            final(self).steady(old(self)),
            (final(self)@, flow_or_error(r)) == exec_stmts(
                old(self).setting(),
                old(self)@,
                statements@,
                0,
                depth as nat,
            ),
        decreases depth, 1nat, 0nat,
    {
        let ghost cfg = self.setting();
        let ghost m = self@;
        let mut i: usize = 0;
        while i < statements.len()
            invariant
                self.steady(old(self)),
                cfg == old(self).setting(),
                m == old(self)@,
                i <= statements.len(),
                exec_stmts(cfg, m, statements@, 0, depth as nat) == exec_stmts(
                    cfg,
                    self@,
                    statements@,
                    i as nat,
                    depth as nat,
                ),
            decreases statements.len() - i,
        {
            match self.execute(&statements[i], depth) {
                Ok(ControlFlow::Normal) => {},
                Ok(ControlFlow::Return(value)) => {
                    return Ok(ControlFlow::Return(value));
                },
                Err(e) => {
                    return Err(e);
                },
            }
            i += 1;
        }
        Ok(ControlFlow::Normal)
    }

    /// Evaluates the condition, then runs the branch that it selects, if there
    /// is one.
    pub fn visit_if_stmt(&mut self, if_stmt: &IfStmt, depth: usize) -> (r: Result<
        ControlFlow,
        LoxError,
    >)
        requires
            old(self).wf(),
        ensures
            final(self).steady(old(self)),
            (final(self)@, flow_or_error(r)) == exec_if(
                old(self).setting(),
                old(self)@,
                *if_stmt,
                depth as nat,
            ),
        decreases depth, 4nat, 0nat,
    {
        match self.evaluate(&if_stmt.condition, depth) {
            Ok(condition) => if Interpreter::is_truthy(&condition) {
                self.execute(&if_stmt.then_branch, depth)
            } else {
                match &if_stmt.else_branch {
                    Some(other) => self.execute(other, depth),
                    None => Ok(ControlFlow::Normal),
                }
            },
            Err(e) => Err(e),
        }
    }

    /// Runs the body as long as the condition counts as true, and as the loop
    /// limit allows.
    pub fn visit_while_stmt(&mut self, while_stmt: &WhileStmt, depth: usize) -> (r: Result<
        ControlFlow,
        LoxError,
    >)
        requires
            old(self).wf(),
        ensures
            final(self).steady(old(self)),
            (final(self)@, flow_or_error(r)) == exec_while(
                old(self).setting(),
                old(self)@,
                *while_stmt,
                old(self).setting().loop_limit,
                depth as nat,
            ),
        decreases depth, 1nat, 0nat,
    {
        let ghost cfg = self.setting();
        let ghost m = self@;
        let mut rounds: u64 = self.loop_limit;
        loop
            invariant
                self.steady(old(self)),
                cfg == old(self).setting(),
                m == old(self)@,
                exec_while(cfg, m, *while_stmt, cfg.loop_limit, depth as nat) == exec_while(
                    cfg,
                    self@,
                    *while_stmt,
                    rounds as nat,
                    depth as nat,
                ),
            decreases rounds,
        {
            match self.evaluate(&while_stmt.condition, depth) {
                Ok(condition) => {
                    if !Interpreter::is_truthy(&condition) {
                        return Ok(ControlFlow::Normal);
                    }
                    if rounds == 0 {
                        return Err(loop_overflow());
                    }
                },
                Err(e) => {
                    return Err(e);
                },
            }
            match self.execute(&while_stmt.body, depth) {
                Ok(ControlFlow::Normal) => {},
                Ok(ControlFlow::Return(value)) => {
                    return Ok(ControlFlow::Return(value));
                },
                Err(e) => {
                    return Err(e);
                },
            }
            rounds -= 1;
        }
    }

    /// Runs a program.
    pub fn interpret(&mut self, statements: Vec<Stmt>) -> (r: Result<(), LoxError>)
        requires
            old(self).wf(),
        ensures
            final(self).steady(old(self)),
            (final(self)@, unit_or_error(r)) == run_program(
                old(self).setting(),
                old(self)@,
                statements@,
                old(self).depth_limit as nat,
            ),
    {
        self.run(&statements)
    }

    /// Runs a program that the caller keeps.
    pub fn run(&mut self, statements: &Vec<Stmt>) -> (r: Result<(), LoxError>)
        requires
            old(self).wf(),
        ensures
            final(self).steady(old(self)),
            (final(self)@, unit_or_error(r)) == run_program(
                old(self).setting(),
                old(self)@,
                statements@,
                old(self).depth_limit as nat,
            ),
    {
        let depth = self.depth_limit;
        match self.execute_statements(statements, depth) {
            Ok(ControlFlow::Normal) => Ok(()),
            Ok(ControlFlow::Return(_)) => Err(
                LoxError {
                    kind: LoxErrorKind::Runtime,
                    message: String::from_str("Cannot return from top-level code."),
                    token: None,
                    line: None,
                },
            ),
            Err(e) => Err(e),
        }
    }
}

impl LoxFunction {
    /// Runs the function on the arguments `args`, of which there are at
    /// least as many as the function has parameters.
    pub fn call(&self, interpreter: &mut Interpreter, args: &Vec<Object>, depth: usize) -> (r:
        Result<Object, LoxError>)
        requires
            old(interpreter).wf(),
            args@.len() >= self.declaration.parameters@.len(),
        ensures
            final(interpreter).steady(old(interpreter)),
            (final(interpreter)@, value_or_error(r)) == run_function(
                old(interpreter).setting(),
                old(interpreter)@,
                *self.declaration,
                self.closure,
                values_of(args@),
                depth as nat,
            ),
        decreases depth, 2nat, 0nat,
    {
        let ghost cfg = interpreter.setting();
        if self.closure >= interpreter.store.len() {
            return Err(LoxError::new_internal("closure scope is missing"));
        }
        let frame = interpreter.store.new_enclosed(self.closure);
        let guard = EnvGuard::new(interpreter, frame);
        let ghost framed = interpreter@;
        let mut i: usize = 0;
        while i < self.declaration.parameters.len()
            invariant
                interpreter.wf(),
                interpreter.setting() == cfg,
                interpreter.globals == old(interpreter).globals,
                interpreter.depth_limit == old(interpreter).depth_limit,
                interpreter.store@.len() == old(interpreter).store@.len() + 1,
                interpreter.env == frame,
                guard.previous == old(interpreter).env,
                frame < interpreter.store@.len(),
                i <= self.declaration.parameters.len(),
                args.len() >= self.declaration.parameters.len(),
                interpreter@.routines == framed.routines,
                interpreter@.output == framed.output,
                bind_parameters(
                    framed.scopes,
                    frame as nat,
                    self.declaration.parameters@,
                    values_of(args@),
                    0,
                ) == bind_parameters(
                    interpreter@.scopes,
                    frame as nat,
                    self.declaration.parameters@,
                    values_of(args@),
                    i as nat,
                ),
            decreases self.declaration.parameters.len() - i,
        {
            interpreter.store.define(
                frame,
                self.declaration.parameters[i].lexeme.clone(),
                args[i].clone(),
            );
            i += 1;
        }
        let flow = match &*self.declaration.body {
            Stmt::Block(b) => interpreter.execute_statements(&b.statements, depth),
            other => {
                let flow = interpreter.execute(other, depth);
                proof {
                    let stmts = body_statements(&*self.declaration);
                    assert(stmts.len() == 1 && stmts[0] == *other);
                    reveal_with_fuel(exec_stmts, 2);
                }
                flow
            },
        };
        guard.release(interpreter);
        match flow {
            Ok(ControlFlow::Return(value)) => Ok(value),
            Ok(ControlFlow::Normal) => Ok(Object::Nil),
            Err(e) => Err(e),
        }
    }
}

/// What remembers the scope that was current while other code runs in a
/// scope of its own. Whoever makes a guard releases it on every way out:
/// after the code ran to its end, returned or failed.
pub struct EnvGuard {
    pub previous: EnvRef,
}

impl EnvGuard {
    /// Makes `new_env` the current scope, and remembers the scope that was
    /// current.
    pub fn new(interpreter: &mut Interpreter, new_env: EnvRef) -> (guard: Self)
        requires
            old(interpreter).wf(),
            new_env < old(interpreter)@.scopes.len(),
        ensures
            guard.previous == old(interpreter).env,
            final(interpreter).wf(),
            final(interpreter).setting() == old(interpreter).setting(),
            final(interpreter).globals == old(interpreter).globals,
            final(interpreter).depth_limit == old(interpreter).depth_limit,
            final(interpreter).store == old(interpreter).store,
            final(interpreter)@ == leave(old(interpreter)@, new_env),
    {
        let previous = interpreter.env;
        interpreter.switch_to(new_env);
        EnvGuard { previous }
    }

    /// Makes the scope that the guard remembers the current scope again.
    pub fn release(self, interpreter: &mut Interpreter)
        requires
            old(interpreter).wf(),
            self.previous < old(interpreter)@.scopes.len(),
        ensures
            final(interpreter).wf(),
            final(interpreter).setting() == old(interpreter).setting(),
            final(interpreter).globals == old(interpreter).globals,
            final(interpreter).depth_limit == old(interpreter).depth_limit,
            final(interpreter).store == old(interpreter).store,
            final(interpreter).env == self.previous,
            final(interpreter)@ == leave(old(interpreter)@, self.previous),
    {
        interpreter.switch_to(self.previous);
    }
}

} // verus!
