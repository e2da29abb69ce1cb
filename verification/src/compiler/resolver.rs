//! Static resolution: one pass over a program, before it runs, that finds
//! for each use of a local variable the scope that binds it, and reports
//! what is wrong with how the program uses its names.

use crate::compiler::error::{errors_of, parse_error, warning, ErrorView, LoxError, LoxErrorKind};
use crate::compiler::expr::{
    Assign, Binary, Call, Expr, Grouping, Literal, Logical, Ternary, Unary, Variable,
};
use crate::compiler::stmt::{
    Block, Expression, Function, IfStmt, Print, ReturnStmt, Stmt, Var, WhileStmt,
};
use std::rc::Rc;
use crate::compiler::token::Token;
use std::collections::HashMap;
use vstd::prelude::*;
use vstd::string::*;

verus! {

broadcast use {
    vstd::std_specs::hash::group_hash_axioms,
    vstd::std_specs::vec::axiom_vec_index_decreases,
};

/// Whether the code being resolved is inside a function.
#[allow(non_camel_case_types)]
#[derive(Debug, Clone, Copy, PartialEq, Eq, Structural)]
pub enum FunctionType {
    NONE,
    FUNCTION,
}

/// How far a name has come in its scope: declared, then defined, then used.
#[allow(non_camel_case_types)]
#[derive(Debug, Clone, Copy, PartialEq, Eq, Structural)]
pub enum VarState {
    /// Declared; its initializer is being resolved.
    DECL,
    /// Defined, and not read so far.
    DEF,
    /// Read at least once.
    USE,
}

/// A name of a scope and its state, as plain mathematical data.
pub struct Entry {
    pub name: Seq<char>,
    pub state: VarState,
    /// The token that declared the name.
    pub token: Token,
}

/// A name of a scope and its state.
#[derive(Debug)]
pub struct Binding {
    pub name: String,
    pub state: VarState,
    /// The token that declared the name.
    pub token: Token,
}

impl View for Binding {
    type V = Entry;

    open spec fn view(&self) -> Entry {
        Entry { name: self.name@, state: self.state, token: self.token }
    }
}

/// The state of a resolution as plain mathematical data.
pub struct Resolution {
    /// The scopes that are open, the innermost last. Each holds its names
    /// in the order in which they were declared.
    pub scopes: Seq<Seq<Entry>>,
    /// What is wrong with the program. A program with errors is not run.
    pub errors: Seq<ErrorView>,
    /// Remarks that do not stop a program from running.
    pub warnings: Seq<ErrorView>,
    /// For each use of a variable that a scope binds: how many scopes out
    /// from the scope of the use that scope is.
    pub locals: Map<usize, usize>,
    pub current_function: FunctionType,
}

/// The index of `name` in `scope`.
pub open spec fn entry_index(scope: Seq<Entry>, name: Seq<char>) -> Option<int>
    decreases scope.len(),
{
    if scope.len() == 0 {
        None
    } else if scope.last().name == name {
        Some(scope.len() - 1)
    } else {
        entry_index(scope.drop_last(), name)
    }
}

/// The state of `name` in `scope`.
pub open spec fn state_of(scope: Seq<Entry>, name: Seq<char>) -> Option<VarState> {
    match entry_index(scope, name) {
        Some(i) => Some(scope[i].state),
        None => None,
    }
}

/// `scope` with `name` in state `state`, declared by `token`: in its old
/// place if the scope had the name, else at the end.
pub open spec fn put(scope: Seq<Entry>, name: Seq<char>, state: VarState, token: Token) -> Seq<
    Entry,
> {
    match entry_index(scope, name) {
        Some(i) => scope.update(i, Entry { name, state, token }),
        None => scope.push(Entry { name, state, token }),
    }
}

/// The token that declared `name` in `scope`.
pub open spec fn declared_by(scope: Seq<Entry>, name: Seq<char>) -> Token {
    scope[entry_index(scope, name).unwrap()].token
}

/// The index of the innermost scope that has `name`.
pub open spec fn holder(scopes: Seq<Seq<Entry>>, name: Seq<char>) -> Option<int>
    decreases scopes.len(),
{
    if scopes.len() == 0 {
        None
    } else if entry_index(scopes.last(), name) is Some {
        Some(scopes.len() - 1)
    } else {
        holder(scopes.drop_last(), name)
    }
}

/// The warning for a name that was never read, at the token that declared
/// the name.
pub open spec fn unused_warning(e: Entry) -> ErrorView {
    ErrorView {
        token: Some(e.token),
        ..if e.state == VarState::DECL {
            warning("Variable '"@ + e.name + "' is declared but never used"@)
        } else {
            warning("Variable '"@ + e.name + "' is defined but never used"@)
        }
    }
}

/// The warnings at the end of a scope: one for each of its names that was
/// never read, in the order of the names, and no others.
pub open spec fn unused_warnings(scope: Seq<Entry>) -> Seq<ErrorView> {
    scope.filter(unread()).map_values(worded())
}

/// Whether a name was never read.
pub open spec fn unread() -> spec_fn(Entry) -> bool {
    |e: Entry| e.state != VarState::USE
}

/// The warning for a name.
pub open spec fn worded() -> spec_fn(Entry) -> ErrorView {
    |e: Entry| unused_warning(e)
}

/// The warnings of a scope with one more name at its end.
proof fn lemma_unused_warnings_push(scope: Seq<Entry>, e: Entry)
    ensures
        unused_warnings(scope.push(e)) == if e.state != VarState::USE {
            unused_warnings(scope).push(unused_warning(e))
        } else {
            unused_warnings(scope)
        },
{
    reveal(Seq::filter);
    let longer = scope.push(e);
    assert(longer.drop_last() =~= scope);
    assert(longer.last() == e);
    assert(longer.filter(unread()) == if unread()(e) {
        scope.filter(unread()).push(e)
    } else {
        scope.filter(unread())
    });
    if e.state != VarState::USE {
        assert(scope.filter(unread()).push(e).map_values(worded()) =~= scope.filter(
            unread(),
        ).map_values(worded()).push(unused_warning(e)));
    }
}

/// A new innermost scope is opened.
pub open spec fn begin_scope(r: Resolution) -> Resolution {
    Resolution { scopes: r.scopes.push(Seq::empty()), ..r }
}

/// The innermost scope is closed, with a warning for each of its names that
/// was never read.
pub open spec fn end_scope(r: Resolution) -> Resolution {
    Resolution {
        scopes: r.scopes.drop_last(),
        warnings: r.warnings + unused_warnings(r.scopes.last()),
        ..r
    }
}

/// The innermost scope is closed without a word.
pub open spec fn drop_scope(r: Resolution) -> Resolution {
    Resolution { scopes: r.scopes.drop_last(), ..r }
}

/// The error for a name that is declared twice in one scope.
pub open spec fn duplicate_error(name: Token) -> ErrorView {
    parse_error(name, "Already a variable with this name in this scope."@)
}

/// The error for a variable that is read in its own initializer.
pub open spec fn self_reference_error(name: Token) -> ErrorView {
    parse_error(name, "Can't read local variable in its own initializer."@)
}

/// The error for a `return` outside of any function.
pub open spec fn return_error(keyword: Token) -> ErrorView {
    parse_error(keyword, "Cannot return from top level code."@)
}

/// `name` is declared in the innermost scope; it is an error if that scope
/// has the name already. Outside of all scopes nothing happens.
pub open spec fn declare(r: Resolution, name: Token) -> Resolution {
    if r.scopes.len() == 0 {
        r
    } else {
        Resolution {
            scopes: r.scopes.update(
                r.scopes.len() - 1,
                put(r.scopes.last(), name.lexeme@, VarState::DECL, name),
            ),
            errors: if entry_index(r.scopes.last(), name.lexeme@) is Some {
                r.errors.push(duplicate_error(name))
            } else {
                r.errors
            },
            ..r
        }
    }
}

/// `name` is defined in the innermost scope, unless it was read there
/// already. Outside of all scopes nothing happens.
pub open spec fn define(r: Resolution, name: Token) -> Resolution {
    if r.scopes.len() == 0 || state_of(r.scopes.last(), name.lexeme@) == Some(VarState::USE) {
        r
    } else {
        Resolution {
            scopes: r.scopes.update(
                r.scopes.len() - 1,
                put(r.scopes.last(), name.lexeme@, VarState::DEF, name),
            ),
            ..r
        }
    }
}

/// The use of `name` at `site` is resolved: if a scope has the name, the
/// distance from the innermost scope to the innermost scope that has it is
/// recorded. A name that no scope has is taken to be global, and nothing
/// is recorded.
pub open spec fn resolve_local(r: Resolution, name: Token, site: usize) -> Resolution {
    match holder(r.scopes, name.lexeme@) {
        Some(i) => Resolution {
            locals: r.locals.insert(site, (r.scopes.len() - 1 - i) as usize),
            ..r
        },
        None => r,
    }
}

/// The scopes after `name` was read: where the innermost scope that has the
/// name has it as defined, it has it as used from now on.
pub open spec fn mark_used(scopes: Seq<Seq<Entry>>, name: Seq<char>) -> Seq<Seq<Entry>> {
    match holder(scopes, name) {
        Some(i) => if state_of(scopes[i], name) == Some(VarState::DEF) {
            scopes.update(i, put(scopes[i], name, VarState::USE, declared_by(scopes[i], name)))
        } else {
            scopes
        },
        None => scopes,
    }
}

/// A variable is read: it is an error to read a name that the innermost
/// scope has declared and not yet defined; the name counts as used; and the
/// use is resolved.
pub open spec fn read_variable(r: Resolution, name: Token, site: usize) -> Resolution {
    resolve_local(
        Resolution {
            errors: if r.scopes.len() > 0 && state_of(r.scopes.last(), name.lexeme@) == Some(
                VarState::DECL,
            ) {
                r.errors.push(self_reference_error(name))
            } else {
                r.errors
            },
            scopes: mark_used(r.scopes, name.lexeme@),
            ..r
        },
        name,
        site,
    )
}

/// The resolution after an expression.
pub open spec fn resolve_expr(r: Resolution, e: Expr) -> Resolution
    decreases e,
{
    match e {
        Expr::Literal(_) => r,
        Expr::Grouping(g) => resolve_expr(r, *g.expression),
        Expr::Unary(u) => resolve_expr(r, *u.right),
        Expr::Binary(b) => resolve_expr(resolve_expr(r, *b.left), *b.right),
        Expr::Logical(l) => resolve_expr(resolve_expr(r, *l.left), *l.right),
        Expr::Ternary(t) => resolve_expr(
            resolve_expr(resolve_expr(r, *t.condition), *t.true_branch),
            *t.false_branch,
        ),
        Expr::Variable(v) => read_variable(r, v.name, v.site),
        Expr::Assign(a) => resolve_local(resolve_expr(r, *a.value), a.name, a.site),
        Expr::Call(c) => resolve_exprs(resolve_expr(r, *c.callee), c.args@, 0),
    }
}

/// The resolution after the expressions from `from` on, in order.
pub open spec fn resolve_exprs(r: Resolution, es: Seq<Expr>, from: nat) -> Resolution
    decreases es, es.len() - from,
{
    if from >= es.len() {
        r
    } else {
        resolve_exprs(resolve_expr(r, es[from as int]), es, from + 1)
    }
}

/// The resolution after the parameters from `from` on were declared and
/// defined, in order.
pub open spec fn resolve_parameters(r: Resolution, parameters: Seq<Token>, from: nat) -> Resolution
    decreases parameters.len() - from,
{
    if from >= parameters.len() {
        r
    } else {
        resolve_parameters(
            define(declare(r, parameters[from as int]), parameters[from as int]),
            parameters,
            from + 1,
        )
    }
}

/// The resolution after a variable declaration: the variable is declared,
/// then its initializer is resolved, then the variable is defined. Outside
/// of all scopes this happens in a scope that is opened for the
/// declaration alone and closed without a word, so that a variable that is
/// read in its own initializer is found there too.
pub open spec fn resolve_var(r: Resolution, v: Var) -> Resolution {
    if r.scopes.len() == 0 {
        drop_scope(define(resolve_expr(declare(begin_scope(r), *v.name), *v.initializer), *v.name))
    } else {
        define(resolve_expr(declare(r, *v.name), *v.initializer), *v.name)
    }
}

/// The resolution after a `return` statement: outside of any function the
/// statement is an error.
pub open spec fn resolve_return(r: Resolution, t: ReturnStmt) -> Resolution {
    resolve_expr(
        if r.current_function == FunctionType::NONE {
            Resolution { errors: r.errors.push(return_error(*t.tok)), ..r }
        } else {
            r
        },
        *t.value,
    )
}

/// The resolution after an `if` statement.
pub open spec fn resolve_if(r: Resolution, i: IfStmt) -> Resolution
    decreases i,
{
    let r1 = resolve_stmt(resolve_expr(r, *i.condition), *i.then_branch);
    match i.else_branch {
        Some(other) => resolve_stmt(r1, *other),
        None => r1,
    }
}

/// The resolution after the parameters and the body of a function: they
/// are resolved inside a function, in a scope that has the parameters, with
/// the statements of the body directly in it.
pub open spec fn resolve_function(r: Resolution, f: Function) -> Resolution
    decreases f,
{
    let inside = resolve_parameters(
        begin_scope(Resolution { current_function: FunctionType::FUNCTION, ..r }),
        f.parameters@,
        0,
    );
    let body = match *f.body {
        Stmt::Block(b) => resolve_stmts(inside, b.statements@, 0),
        other => resolve_stmt(inside, other),
    };
    Resolution { current_function: r.current_function, ..end_scope(body) }
}

/// The resolution after a statement.
///
/// A block is resolved in a scope of its own. A function in a scope is
/// declared and defined before its parameters and its body are resolved,
/// so that the body may call it.
pub open spec fn resolve_stmt(r: Resolution, s: Stmt) -> Resolution
    decreases s,
{
    match s {
        Stmt::Expression(x) => resolve_expr(r, *x.expression),
        Stmt::Print(p) => resolve_expr(r, *p.expression),
        Stmt::Var(v) => resolve_var(r, *v),
        Stmt::Block(b) => end_scope(resolve_stmts(begin_scope(r), b.statements@, 0)),
        Stmt::IfStmt(i) => resolve_if(r, *i),
        Stmt::WhileStmt(w) => resolve_stmt(resolve_expr(r, *w.condition), *w.body),
        Stmt::Function(f) => resolve_function(define(declare(r, *f.name), *f.name), *f),
        Stmt::ReturnStmt(t) => resolve_return(r, *t),
    }
}

/// The resolution after the statements from `from` on, in order.
pub open spec fn resolve_stmts(r: Resolution, ss: Seq<Stmt>, from: nat) -> Resolution
    decreases ss, ss.len() - from,
{
    if from >= ss.len() {
        r
    } else {
        resolve_stmts(resolve_stmt(r, ss[from as int]), ss, from + 1)
    }
}

/// The names of a scope as plain mathematical data.
pub open spec fn entries_of(bindings: Seq<Binding>) -> Seq<Entry> {
    Seq::new(bindings.len(), |i: int| bindings[i]@)
}

/// The open scopes as plain mathematical data.
pub open spec fn scopes_of(scopes: Seq<Vec<Binding>>) -> Seq<Seq<Entry>> {
    Seq::new(scopes.len(), |i: int| entries_of(scopes[i]@))
}

/// The state of a resolution: the open scopes, the innermost last; what
/// was found wrong; the warnings; the distances found; and whether the code
/// being resolved is inside a function.
pub struct Resolver {
    pub scopes: Vec<Vec<Binding>>,
    pub errors: Vec<LoxError>,
    pub warnings: Vec<LoxError>,
    pub locals: HashMap<usize, usize>,
    pub current_function: FunctionType,
}

impl View for Resolver {
    type V = Resolution;

    open spec fn view(&self) -> Resolution {
        Resolution {
            scopes: scopes_of(self.scopes@),
            errors: errors_of(self.errors@),
            warnings: errors_of(self.warnings@),
            locals: self.locals@,
            current_function: self.current_function,
        }
    }
}

/// Where `scope` has `name`.
fn find_entry(scope: &Vec<Binding>, name: &String) -> (r: Option<usize>)
    ensures
        r matches Some(i) ==> entry_index(entries_of(scope@), name@) == Some(i as int) && i
            < scope@.len(),
        r is None ==> entry_index(entries_of(scope@), name@) is None,
{
    let ghost entries = entries_of(scope@);
    let mut i: usize = scope.len();
    assert(entries.take(i as int) =~= entries);
    while i > 0
        invariant
            i <= scope.len(),
            entries == entries_of(scope@),
            entry_index(entries, name@) == entry_index(entries.take(i as int), name@),
        decreases i,
    {
        proof {
            let head = entries.take(i as int);
            assert(head.last() == entries[i - 1]);
            assert(head.drop_last() =~= entries.take(i - 1));
        }
        if scope[i - 1].name == *name {
            return Some(i - 1);
        }
        i -= 1;
    }
    None
}

/// Gives `name` the state `state` in `scope`.
fn put_entry(scope: &mut Vec<Binding>, name: &String, state: VarState, token: Token)
    ensures
        entries_of(final(scope)@) == put(entries_of(old(scope)@), name@, state, token),
{
    match find_entry(scope, name) {
        Some(i) => {
            scope[i] = Binding { name: name.clone(), state, token };
            assert(entries_of(scope@) =~= put(entries_of(old(scope)@), name@, state, token));
        },
        None => {
            scope.push(Binding { name: name.clone(), state, token });
            assert(entries_of(scope@) =~= put(entries_of(old(scope)@), name@, state, token));
        },
    }
}

fn unused(binding: &Binding) -> (e: LoxError)
    ensures
        e@ == unused_warning(binding@),
{
    let mut message = String::from_str("Variable '");
    message.append(binding.name.as_str());
    if binding.state == VarState::DECL {
        message.append("' is declared but never used");
    } else {
        message.append("' is defined but never used");
    }
    LoxError {
        kind: LoxErrorKind::Warning,
        message,
        token: Some(binding.token.clone()),
        line: None,
    }
}

impl Resolver {
    /// A resolver outside of all scopes and functions, that has found
    /// nothing so far.
    pub fn new() -> (resolver: Self)
        ensures
            resolver@ == (Resolution {
                scopes: Seq::empty(),
                errors: Seq::empty(),
                warnings: Seq::empty(),
                locals: Map::empty(),
                current_function: FunctionType::NONE,
            }),
    {
        let resolver = Resolver {
            scopes: Vec::new(),
            errors: Vec::new(),
            warnings: Vec::new(),
            locals: HashMap::new(),
            current_function: FunctionType::NONE,
        };
        assert(resolver@.scopes =~= Seq::empty());
        assert(resolver@.errors =~= Seq::empty());
        assert(resolver@.warnings =~= Seq::empty());
        resolver
    }

    /// Whether the program may run: resolution found no error.
    pub fn ok(&self) -> (r: bool)
        ensures
            r == (self@.errors.len() == 0),
    {
        self.errors.len() == 0
    }

    /// Opens a new innermost scope.
    pub fn begin_scope(&mut self)
        ensures
            final(self)@ == begin_scope(old(self)@),
    {
        self.scopes.push(Vec::new());
        assert(entries_of(Seq::<Binding>::empty()) =~= Seq::<Entry>::empty());
        assert(scopes_of(self.scopes@) =~= scopes_of(old(self).scopes@).push(Seq::empty()));
    }

    /// Closes the innermost scope, with a warning for each of its names that
    /// was never read.
    pub fn end_scope(&mut self)
        requires
            old(self)@.scopes.len() > 0,
        ensures
            final(self)@ == end_scope(old(self)@),
    {
        let scope = self.scopes.pop().unwrap();
        assert(scopes_of(self.scopes@) =~= scopes_of(old(self).scopes@).drop_last());
        let ghost entries = entries_of(scope@);
        let ghost before = errors_of(self.warnings@);
        let mut i: usize = 0;
        assert(entries.take(0) =~= Seq::<Entry>::empty());
        assert(before + unused_warnings(entries.take(0)) =~= before) by {
            reveal(Seq::filter);
        }
        while i < scope.len()
            invariant
                i <= scope.len(),
                entries == entries_of(scope@),
                self.scopes@ == old(self).scopes@.drop_last(),
                self.errors == old(self).errors,
                self.locals == old(self).locals,
                self.current_function == old(self).current_function,
                errors_of(self.warnings@) == before + unused_warnings(entries.take(i as int)),
            decreases scope.len() - i,
        {
            let ghost so_far = errors_of(self.warnings@);
            proof {
                assert(entries.take(i + 1) =~= entries.take(i as int).push(entries[i as int]));
                lemma_unused_warnings_push(entries.take(i as int), entries[i as int]);
            }
            if scope[i].state != VarState::USE {
                let e = unused(&scope[i]);
                self.warnings.push(e);
                assert(errors_of(self.warnings@) =~= so_far.push(e@));
                assert(so_far.push(e@) =~= before + unused_warnings(entries.take(i + 1)));
            }
            i += 1;
        }
        assert(entries.take(scope.len() as int) =~= entries);
    }

    /// Closes the innermost scope without a word.
    fn drop_scope(&mut self)
        requires
            old(self)@.scopes.len() > 0,
        ensures
            final(self)@ == drop_scope(old(self)@),
    {
        self.scopes.pop();
        assert(scopes_of(self.scopes@) =~= scopes_of(old(self).scopes@).drop_last());
    }

    /// Records an error found at `token`.
    pub fn error(&mut self, token: &Token, err_msg: &str)
        ensures
            final(self)@ == (Resolution {
                errors: old(self)@.errors.push(parse_error(*token, err_msg@)),
                ..old(self)@
            }),
            final(self).scopes == old(self).scopes,
    {
        self.errors.push(LoxError::new_parse(token.clone(), err_msg));
        assert(errors_of(self.errors@) =~= errors_of(old(self).errors@).push(
            parse_error(*token, err_msg@),
        ));
    }

    /// Gives `name`, declared by `token`, the state `state` in scope `i`.
    fn put(&mut self, i: usize, name: &String, state: VarState, token: Token)
        requires
            i < old(self)@.scopes.len(),
        ensures
            final(self)@ == (Resolution {
                scopes: old(self)@.scopes.update(
                    i as int,
                    put(old(self)@.scopes[i as int], name@, state, token),
                ),
                ..old(self)@
            }),
            final(self)@.scopes.len() == old(self)@.scopes.len(),
    {
        let mut scope: Vec<Binding> = Vec::new();
        std::mem::swap(&mut scope, &mut self.scopes[i]);
        put_entry(&mut scope, name, state, token);
        self.scopes[i] = scope;
        assert(scopes_of(self.scopes@) =~= scopes_of(old(self).scopes@).update(
            i as int,
            put(scopes_of(old(self).scopes@)[i as int], name@, state, token),
        ));
    }

    /// Declares `var` in the innermost scope; it is an error if that scope has
    /// the name already. Outside of all scopes nothing happens.
    pub fn declare(&mut self, var: &Token)
        ensures
            final(self)@ == declare(old(self)@, *var),
            final(self)@.scopes.len() == old(self)@.scopes.len(),
    {
        let n = self.scopes.len();
        if n == 0 {
            return ;
        }
        if find_entry(&self.scopes[n - 1], &var.lexeme).is_some() {
            self.error(var, "Already a variable with this name in this scope.");
        }
        self.put(n - 1, &var.lexeme, VarState::DECL, var.clone());
    }

    /// Defines `var` in the innermost scope, unless it was read there already.
    /// Outside of all scopes nothing happens.
    pub fn define(&mut self, var: &Token)
        ensures
            final(self)@ == define(old(self)@, *var),
            final(self)@.scopes.len() == old(self)@.scopes.len(),
    {
        let n = self.scopes.len();
        if n == 0 {
            return ;
        }
        match find_entry(&self.scopes[n - 1], &var.lexeme) {
            Some(i) => {
                if self.scopes[n - 1][i].state == VarState::USE {
                    return ;
                }
            },
            None => {},
        }
        self.put(n - 1, &var.lexeme, VarState::DEF, var.clone());
    }

    /// The index of the innermost scope that has `name`.
    fn holder(&self, name: &String) -> (r: Option<usize>)
        ensures
            r matches Some(i) ==> holder(self@.scopes, name@) == Some(i as int) && i
                < self@.scopes.len(),
            r is None ==> holder(self@.scopes, name@) is None,
    {
        let ghost scopes = self@.scopes;
        let mut i: usize = self.scopes.len();
        assert(scopes.take(i as int) =~= scopes);
        while i > 0
            invariant
                i <= self.scopes.len(),
                scopes == self@.scopes,
                holder(scopes, name@) == holder(scopes.take(i as int), name@),
            decreases i,
        {
            proof {
                let head = scopes.take(i as int);
                assert(head.last() == scopes[i - 1]);
                assert(head.drop_last() =~= scopes.take(i - 1));
            }
            if find_entry(&self.scopes[i - 1], name).is_some() {
                return Some(i - 1);
            }
            i -= 1;
        }
        None
    }

    /// Resolves the use of `name` at `site`: if a scope has the name, the
    /// distance to the innermost scope that has it is recorded.
    pub fn resolve_local(&mut self, name: &Token, site: usize)
        ensures
            final(self)@ == resolve_local(old(self)@, *name, site),
            final(self).scopes == old(self).scopes,
    {
        match self.holder(&name.lexeme) {
            Some(i) => {
                let distance = self.scopes.len() - 1 - i;
                self.locals.insert(site, distance);
            },
            None => {},
        }
    }

    /// Resolves a read of a variable.
    pub fn visit_variable(&mut self, variable: &Variable)
        ensures
            final(self)@ == read_variable(old(self)@, variable.name, variable.site),
            final(self)@.scopes.len() == old(self)@.scopes.len(),
    {
        let name = &variable.name;
        let site = variable.site;
        let n = self.scopes.len();
        if n > 0 {
            match find_entry(&self.scopes[n - 1], &name.lexeme) {
                Some(i) => {
                    if self.scopes[n - 1][i].state == VarState::DECL {
                        self.error(name, "Can't read local variable in its own initializer.");
                    }
                },
                None => {},
            }
        }
        match self.holder(&name.lexeme) {
            Some(i) => {
                match find_entry(&self.scopes[i], &name.lexeme) {
                    Some(j) => {
                        if self.scopes[i][j].state == VarState::DEF {
                            let token = self.scopes[i][j].token.clone();
                            self.put(i, &name.lexeme, VarState::USE, token);
                        }
                    },
                    None => {},
                }
            },
            None => {},
        }
        self.resolve_local(name, site);
    }

    /// Resolves an expression.
    pub fn resolve_expression(&mut self, expr: &Expr)
        ensures
            final(self)@ == resolve_expr(old(self)@, *expr),
            final(self)@.scopes.len() == old(self)@.scopes.len(),
        decreases *expr, 1nat,
    {
        match expr {
            Expr::Literal(l) => self.visit_literal(l),
            Expr::Grouping(g) => self.visit_grouping(g),
            Expr::Unary(u) => self.visit_unary(u),
            Expr::Binary(b) => self.visit_binary(b),
            Expr::Logical(l) => self.visit_logical(l),
            Expr::Ternary(t) => self.visit_ternary(t),
            Expr::Variable(v) => self.visit_variable(v),
            Expr::Assign(a) => self.visit_assign(a),
            Expr::Call(c) => self.visit_call(c),
        }
    }

    /// A constant uses no name.
    pub fn visit_literal(&mut self, literal: &Literal)
        ensures
            *final(self) == *old(self),
    {
    }

    /// Resolves the expression inside the parentheses.
    pub fn visit_grouping(&mut self, grouping: &Grouping)
        ensures
            final(self)@ == resolve_expr(old(self)@, *grouping.expression),
            final(self)@.scopes.len() == old(self)@.scopes.len(),
        decreases *grouping, 0nat,
    {
        self.resolve_expression(&grouping.expression);
    }

    /// Resolves the operand.
    pub fn visit_unary(&mut self, unary: &Unary)
        ensures
            final(self)@ == resolve_expr(old(self)@, *unary.right),
            final(self)@.scopes.len() == old(self)@.scopes.len(),
        decreases *unary, 0nat,
    {
        self.resolve_expression(&unary.right);
    }

    /// The operands are resolved from left to right.
    pub fn visit_binary(&mut self, binary: &Binary)
        ensures
            final(self)@ == resolve_expr(resolve_expr(old(self)@, *binary.left), *binary.right),
            final(self)@.scopes.len() == old(self)@.scopes.len(),
        decreases *binary, 0nat,
    {
        self.resolve_expression(&binary.left);
        self.resolve_expression(&binary.right);
    }

    /// Both operands are resolved, whichever of them will be evaluated.
    pub fn visit_logical(&mut self, logical: &Logical)
        ensures
            final(self)@ == resolve_expr(resolve_expr(old(self)@, *logical.left), *logical.right),
            final(self)@.scopes.len() == old(self)@.scopes.len(),
        decreases *logical, 0nat,
    {
        self.resolve_expression(&logical.left);
        self.resolve_expression(&logical.right);
    }

    /// The condition and both branches are resolved.
    pub fn visit_ternary(&mut self, ternary: &Ternary)
        ensures
            final(self)@ == resolve_expr(
                resolve_expr(resolve_expr(old(self)@, *ternary.condition), *ternary.true_branch),
                *ternary.false_branch,
            ),
            final(self)@.scopes.len() == old(self)@.scopes.len(),
        decreases *ternary, 0nat,
    {
        self.resolve_expression(&ternary.condition);
        self.resolve_expression(&ternary.true_branch);
        self.resolve_expression(&ternary.false_branch);
    }

    /// The value is resolved, then the variable that is assigned to. An
    /// assignment is no read: it does not make a name count as used.
    pub fn visit_assign(&mut self, assign: &Assign)
        ensures
            final(self)@ == resolve_local(
                resolve_expr(old(self)@, *assign.value),
                assign.name,
                assign.site,
            ),
            final(self)@.scopes.len() == old(self)@.scopes.len(),
        decreases *assign, 0nat,
    {
        self.resolve_expression(&assign.value);
        self.resolve_local(&assign.name, assign.site);
    }

    /// The callee is resolved, then the arguments from left to right.
    pub fn visit_call(&mut self, call: &Call)
        ensures
            final(self)@ == resolve_exprs(resolve_expr(old(self)@, *call.callee), call.args@, 0),
            final(self)@.scopes.len() == old(self)@.scopes.len(),
        decreases *call, 0nat,
    {
        self.resolve_expression(&call.callee);
        self.resolve_expressions(&call.args);
    }

    /// Resolves expressions in order.
    pub fn resolve_expressions(&mut self, exprs: &Vec<Expr>)
        ensures
            final(self)@ == resolve_exprs(old(self)@, exprs@, 0),
            final(self)@.scopes.len() == old(self)@.scopes.len(),
        decreases *exprs, 2nat,
    {
        let mut i: usize = 0;
        while i < exprs.len()
            invariant
                i <= exprs.len(),
                self@.scopes.len() == old(self)@.scopes.len(),
                resolve_exprs(old(self)@, exprs@, 0) == resolve_exprs(self@, exprs@, i as nat),
            decreases exprs.len() - i,
        {
            assert(decreases_to!(*exprs => exprs[i as int]));
            self.resolve_expression(&exprs[i]);
            i += 1;
        }
    }

    /// Resolves statements in order.
    pub fn resolve_statements(&mut self, statements: &Vec<Stmt>)
        ensures
            final(self)@ == resolve_stmts(old(self)@, statements@, 0),
            final(self)@.scopes.len() == old(self)@.scopes.len(),
        decreases *statements, 2nat,
    {
        let mut i: usize = 0;
        while i < statements.len()
            invariant
                i <= statements.len(),
                self@.scopes.len() == old(self)@.scopes.len(),
                resolve_stmts(old(self)@, statements@, 0) == resolve_stmts(
                    self@,
                    statements@,
                    i as nat,
                ),
            decreases statements.len() - i,
        {
            assert(decreases_to!(*statements => statements[i as int]));
            self.resolve_statement(&statements[i]);
            i += 1;
        }
    }

    /// Resolves a statement.
    pub fn resolve_statement(&mut self, statement: &Stmt)
        ensures
            final(self)@ == resolve_stmt(old(self)@, *statement),
            final(self)@.scopes.len() == old(self)@.scopes.len(),
        decreases *statement, 1nat,
    {
        match statement {
            Stmt::Expression(x) => self.visit_expression(x),
            Stmt::Print(p) => self.visit_print(p),
            Stmt::Var(v) => self.visit_var(v),
            Stmt::Block(b) => self.visit_block(b),
            Stmt::IfStmt(i) => self.visit_if_stmt(i),
            Stmt::WhileStmt(w) => self.visit_while_stmt(w),
            Stmt::Function(f) => self.visit_function(f),
            Stmt::ReturnStmt(t) => self.visit_return_stmt(t),
        }
    }

    /// Resolves the expression of an expression statement.
    pub fn visit_expression(&mut self, expression: &Expression)
        ensures
            final(self)@ == resolve_expr(old(self)@, *expression.expression),
            final(self)@.scopes.len() == old(self)@.scopes.len(),
        decreases *expression, 0nat,
    {
        self.resolve_expression(&expression.expression);
    }

    /// Resolves the expression of a print statement.
    pub fn visit_print(&mut self, print: &Print)
        ensures
            final(self)@ == resolve_expr(old(self)@, *print.expression),
            final(self)@.scopes.len() == old(self)@.scopes.len(),
        decreases *print, 0nat,
    {
        self.resolve_expression(&print.expression);
    }

    /// The variable is declared, then its initializer is resolved, then the
    /// variable is defined. Outside of all scopes this happens in a scope
    /// that is opened for the declaration alone and closed without a word.
    pub fn visit_var(&mut self, var: &Var)
        ensures
            final(self)@ == resolve_var(old(self)@, *var),
            final(self)@.scopes.len() == old(self)@.scopes.len(),
        decreases *var, 0nat,
    {
        let was_global = self.scopes.len() == 0;
        if was_global {
            self.begin_scope();
        }
        self.declare(&var.name);
        self.resolve_expression(&var.initializer);
        self.define(&var.name);
        if was_global {
            self.drop_scope();
        }
    }

    /// The statements of the block are resolved in a scope of their own.
    pub fn visit_block(&mut self, block: &Block)
        ensures
            final(self)@ == end_scope(
                resolve_stmts(begin_scope(old(self)@), block.statements@, 0),
            ),
            final(self)@.scopes.len() == old(self)@.scopes.len(),
        decreases *block, 0nat,
    {
        self.begin_scope();
        self.resolve_statements(&block.statements);
        self.end_scope();
    }

    /// The condition and both branches are resolved.
    pub fn visit_if_stmt(&mut self, if_stmt: &IfStmt)
        ensures
            final(self)@ == resolve_if(old(self)@, *if_stmt),
            final(self)@.scopes.len() == old(self)@.scopes.len(),
        decreases *if_stmt, 0nat,
    {
        self.resolve_expression(&if_stmt.condition);
        self.resolve_statement(&if_stmt.then_branch);
        match &if_stmt.else_branch {
            Some(other) => self.resolve_statement(other),
            None => {},
        }
    }

    /// Resolves the condition, then the body.
    pub fn visit_while_stmt(&mut self, while_stmt: &WhileStmt)
        ensures
            final(self)@ == resolve_stmt(
                resolve_expr(old(self)@, *while_stmt.condition),
                *while_stmt.body,
            ),
            final(self)@.scopes.len() == old(self)@.scopes.len(),
        decreases *while_stmt, 0nat,
    {
        self.resolve_expression(&while_stmt.condition);
        self.resolve_statement(&while_stmt.body);
    }

    /// The function is declared and defined before its body is resolved, so
    /// that the body may call it.
    pub fn visit_function(&mut self, function: &Rc<Function>)
        ensures
            final(self)@ == resolve_function(
                define(declare(old(self)@, *function.name), *function.name),
                **function,
            ),
            final(self)@.scopes.len() == old(self)@.scopes.len(),
        decreases **function, 1nat,
    {
        self.declare(&function.name);
        self.define(&function.name);
        self.resolve_function(function);
    }

    /// A `return` outside of any function is an error.
    pub fn visit_return_stmt(&mut self, return_stmt: &ReturnStmt)
        ensures
            final(self)@ == resolve_return(old(self)@, *return_stmt),
            final(self)@.scopes.len() == old(self)@.scopes.len(),
        decreases *return_stmt, 0nat,
    {
        if self.current_function == FunctionType::NONE {
            self.error(&return_stmt.tok, "Cannot return from top level code.");
        }
        self.resolve_expression(&return_stmt.value);
    }

    /// Resolves the parameters and the body of a function in a scope of
    /// their own.
    pub fn resolve_function(&mut self, func: &Function)
        ensures
            final(self)@ == resolve_function(old(self)@, *func),
            final(self)@.scopes.len() == old(self)@.scopes.len(),
        decreases *func, 0nat,
    {
        let enclosing_function = self.current_function;
        self.current_function = FunctionType::FUNCTION;
        self.begin_scope();
        let ghost r1 = self@;
        let mut i: usize = 0;
        while i < func.parameters.len()
            invariant
                i <= func.parameters.len(),
                self@.scopes.len() == old(self)@.scopes.len() + 1,
                resolve_parameters(r1, func.parameters@, 0) == resolve_parameters(
                    self@,
                    func.parameters@,
                    i as nat,
                ),
            decreases func.parameters.len() - i,
        {
            self.declare(&func.parameters[i]);
            self.define(&func.parameters[i]);
            i += 1;
        }
        match &*func.body {
            Stmt::Block(b) => self.resolve_statements(&b.statements),
            other => self.resolve_statement(other),
        }
        self.end_scope();
        self.current_function = enclosing_function;
    }
}

/// Whether the names of `scope` differ from each other.
pub open spec fn distinct_names(scope: Seq<Entry>) -> bool {
    forall|i: int, j: int|
        0 <= i < j < scope.len() ==> (#[trigger] scope[i]).name != (#[trigger] scope[j]).name
}

/// Where `entry_index` finds a name, the name stands; where it finds none,
/// the name stands nowhere.
pub proof fn lemma_entry_index(scope: Seq<Entry>, name: Seq<char>)
    ensures
        entry_index(scope, name) matches Some(i) ==> 0 <= i < scope.len() && scope[i].name == name,
        entry_index(scope, name) is None ==> forall|i: int|
            0 <= i < scope.len() ==> (#[trigger] scope[i]).name != name,
    decreases scope.len(),
{
    if scope.len() > 0 && scope.last().name != name {
        lemma_entry_index(scope.drop_last(), name);
        if entry_index(scope, name) is None {
            assert forall|i: int| 0 <= i < scope.len() implies (#[trigger] scope[i]).name
                != name by {
                if i < scope.len() - 1 {
                    assert(scope.drop_last()[i] == scope[i]);
                }
            }
        }
    }
}

/// Two scopes with the same names in the same places have each name at the
/// same index.
pub proof fn lemma_entry_index_by_names(a: Seq<Entry>, b: Seq<Entry>, name: Seq<char>)
    requires
        a.len() == b.len(),
        forall|i: int| 0 <= i < a.len() ==> (#[trigger] a[i]).name == b[i].name,
    ensures
        entry_index(a, name) == entry_index(b, name),
    decreases a.len(),
{
    if a.len() > 0 {
        assert(a.last().name == b.last().name);
        if a.last().name != name {
            assert forall|i: int| 0 <= i < a.drop_last().len() implies (
            #[trigger] a.drop_last()[i]).name == b.drop_last()[i].name by {
                assert(a.drop_last()[i] == a[i]);
                assert(b.drop_last()[i] == b[i]);
            }
            lemma_entry_index_by_names(a.drop_last(), b.drop_last(), name);
        }
    }
}

/// After `put`, the scope has the name in the state that was put; the other
/// names are where and as they were; and names that differed still differ.
pub proof fn lemma_put(scope: Seq<Entry>, name: Seq<char>, state: VarState, token: Token)
    ensures
        state_of(put(scope, name, state, token), name) == Some(state),
        forall|other: Seq<char>|
            other != name ==> state_of(put(scope, name, state, token), other) == state_of(
                scope,
                other,
            ),
        distinct_names(scope) ==> distinct_names(put(scope, name, state, token)),
{
    let after = put(scope, name, state, token);
    lemma_entry_index(scope, name);
    match entry_index(scope, name) {
        Some(i) => {
            assert forall|k: int| 0 <= k < scope.len() implies (#[trigger] scope[k]).name
                == after[k].name by {}
            lemma_entry_index_by_names(scope, after, name);
            assert forall|other: Seq<char>| other != name implies state_of(after, other)
                == state_of(scope, other) by {
                lemma_entry_index_by_names(scope, after, other);
                lemma_entry_index(scope, other);
            }
            if distinct_names(scope) {
                assert forall|a: int, b: int| 0 <= a < b < after.len() implies (
                #[trigger] after[a]).name != (#[trigger] after[b]).name by {
                    assert(scope[a].name != scope[b].name);
                }
            }
        },
        None => {
            assert(after.drop_last() =~= scope);
            assert forall|other: Seq<char>| other != name implies state_of(after, other)
                == state_of(scope, other) by {
                lemma_entry_index(scope, other);
            }
            if distinct_names(scope) {
                assert forall|a: int, b: int| 0 <= a < b < after.len() implies (
                #[trigger] after[a]).name != (#[trigger] after[b]).name by {
                    if b < scope.len() {
                        assert(scope[a].name != scope[b].name);
                    } else {
                        assert(scope[a].name != name);
                    }
                }
            }
        },
    }
}

/// Resolving an expression keeps the errors found before it, in their
/// places.
pub proof fn lemma_expr_keeps_errors(r: Resolution, e: Expr)
    ensures
        r.errors.is_prefix_of(resolve_expr(r, e).errors),
    decreases e,
{
    match e {
        Expr::Literal(_) => {},
        Expr::Grouping(g) => lemma_expr_keeps_errors(r, *g.expression),
        Expr::Unary(u) => lemma_expr_keeps_errors(r, *u.right),
        Expr::Binary(b) => {
            lemma_expr_keeps_errors(r, *b.left);
            lemma_expr_keeps_errors(resolve_expr(r, *b.left), *b.right);
        },
        Expr::Logical(l) => {
            lemma_expr_keeps_errors(r, *l.left);
            lemma_expr_keeps_errors(resolve_expr(r, *l.left), *l.right);
        },
        Expr::Ternary(t) => {
            let r1 = resolve_expr(r, *t.condition);
            let r2 = resolve_expr(r1, *t.true_branch);
            lemma_expr_keeps_errors(r, *t.condition);
            lemma_expr_keeps_errors(r1, *t.true_branch);
            lemma_expr_keeps_errors(r2, *t.false_branch);
        },
        Expr::Variable(v) => {},
        Expr::Assign(a) => lemma_expr_keeps_errors(r, *a.value),
        Expr::Call(c) => {
            lemma_expr_keeps_errors(r, *c.callee);
            lemma_exprs_keep_errors(resolve_expr(r, *c.callee), c.args@, 0);
        },
    }
}

proof fn lemma_exprs_keep_errors(r: Resolution, es: Seq<Expr>, from: nat)
    ensures
        r.errors.is_prefix_of(resolve_exprs(r, es, from).errors),
    decreases es, es.len() - from,
{
    if from < es.len() {
        lemma_expr_keeps_errors(r, es[from as int]);
        lemma_exprs_keep_errors(resolve_expr(r, es[from as int]), es, from + 1);
    }
}

/// A variable that is read in its own initializer is an error, at any depth
/// of nesting and outside of all scopes too: resolving `var a = a;` ends
/// with the error, at the `a` that is read.
pub proof fn lemma_self_reference_is_error(r: Resolution, declared: Token, read: Token, site: usize)
    requires
        declared.lexeme@ == read.lexeme@,
    ensures
        ({
            let s = Stmt::Var(
                Box::new(
                    crate::compiler::stmt::Var {
                        name: Box::new(declared),
                        initializer: Box::new(
                            Expr::Variable(
                                Box::new(crate::compiler::expr::Variable { name: read, site }),
                            ),
                        ),
                    },
                ),
            );
            let errors = resolve_stmt(r, s).errors;
            errors.len() > r.errors.len() && errors.last() == self_reference_error(read)
        }),
{
    let name = declared.lexeme@;
    let opened = if r.scopes.len() == 0 {
        begin_scope(r)
    } else {
        r
    };
    let declared_in = declare(opened, declared);
    lemma_put(opened.scopes.last(), name, VarState::DECL, declared);
    assert(state_of(declared_in.scopes.last(), name) == Some(VarState::DECL));
}

/// A `return` outside of any function is an error: resolving it adds the
/// error, at the `return`, to the errors found before.
pub proof fn lemma_return_outside_function_is_error(
    r: Resolution,
    t: crate::compiler::stmt::ReturnStmt,
)
    requires
        r.current_function == FunctionType::NONE,
    ensures
        ({
            let errors = resolve_stmt(r, Stmt::ReturnStmt(Box::new(t))).errors;
            errors.len() > r.errors.len() && errors[r.errors.len() as int] == return_error(*t.tok)
        }),
{
    let flagged = Resolution { errors: r.errors.push(return_error(*t.tok)), ..r };
    lemma_expr_keeps_errors(flagged, *t.value);
    let errors = resolve_expr(flagged, *t.value).errors;
    assert(errors.subrange(0, flagged.errors.len() as int)[r.errors.len() as int]
        == flagged.errors[r.errors.len() as int]);
}

/// Whether in each scope the names differ from each other.
pub open spec fn all_distinct(scopes: Seq<Seq<Entry>>) -> bool {
    forall|i: int| 0 <= i < scopes.len() ==> distinct_names(#[trigger] scopes[i])
}

/// Where `holder` finds a scope, it is one of the scopes.
pub proof fn lemma_holder(scopes: Seq<Seq<Entry>>, name: Seq<char>)
    ensures
        holder(scopes, name) matches Some(i) ==> 0 <= i < scopes.len(),
    decreases scopes.len(),
{
    if scopes.len() > 0 && entry_index(scopes.last(), name) is None {
        lemma_holder(scopes.drop_last(), name);
    }
}

/// Giving a name a state in one scope leaves the number of scopes as it
/// was, and the names of every scope distinct if they were.
proof fn lemma_put_in(
    scopes: Seq<Seq<Entry>>,
    i: int,
    name: Seq<char>,
    state: VarState,
    token: Token,
)
    requires
        0 <= i < scopes.len(),
    ensures
        scopes.update(i, put(scopes[i], name, state, token)).len() == scopes.len(),
        all_distinct(scopes) ==> all_distinct(
            scopes.update(i, put(scopes[i], name, state, token)),
        ),
{
    lemma_put(scopes[i], name, state, token);
    let after = scopes.update(i, put(scopes[i], name, state, token));
    if all_distinct(scopes) {
        assert forall|k: int| 0 <= k < after.len() implies distinct_names(#[trigger] after[k]) by {
            if k != i {
                assert(after[k] == scopes[k]);
            }
        }
    }
}

/// Whether the resolution `after` has as many scopes as `before`, with
/// distinct names in each if `before` has distinct names in each.
pub open spec fn keeps_scopes(before: Resolution, after: Resolution) -> bool {
    &&& after.scopes.len() == before.scopes.len()
    &&& all_distinct(before.scopes) ==> all_distinct(after.scopes)
}

proof fn lemma_declare_keeps_scopes(r: Resolution, name: Token)
    ensures
        keeps_scopes(r, declare(r, name)),
{
    if r.scopes.len() > 0 {
        lemma_put_in(r.scopes, r.scopes.len() - 1, name.lexeme@, VarState::DECL, name);
    }
}

proof fn lemma_define_keeps_scopes(r: Resolution, name: Token)
    ensures
        keeps_scopes(r, define(r, name)),
{
    if r.scopes.len() > 0 {
        lemma_put_in(r.scopes, r.scopes.len() - 1, name.lexeme@, VarState::DEF, name);
    }
}

proof fn lemma_read_keeps_scopes(r: Resolution, name: Token, site: usize)
    ensures
        keeps_scopes(r, read_variable(r, name, site)),
{
    lemma_holder(r.scopes, name.lexeme@);
    if let Some(i) = holder(r.scopes, name.lexeme@) {
        lemma_put_in(
            r.scopes,
            i,
            name.lexeme@,
            VarState::USE,
            declared_by(r.scopes[i], name.lexeme@),
        );
    }
}

/// Resolving an expression opens and closes no scope, and never gives a
/// scope the same name twice.
pub proof fn lemma_expr_keeps_scopes(r: Resolution, e: Expr)
    ensures
        keeps_scopes(r, resolve_expr(r, e)),
    decreases e,
{
    match e {
        Expr::Literal(_) => {},
        Expr::Grouping(g) => lemma_expr_keeps_scopes(r, *g.expression),
        Expr::Unary(u) => lemma_expr_keeps_scopes(r, *u.right),
        Expr::Binary(b) => {
            lemma_expr_keeps_scopes(r, *b.left);
            lemma_expr_keeps_scopes(resolve_expr(r, *b.left), *b.right);
        },
        Expr::Logical(l) => {
            lemma_expr_keeps_scopes(r, *l.left);
            lemma_expr_keeps_scopes(resolve_expr(r, *l.left), *l.right);
        },
        Expr::Ternary(t) => {
            let r1 = resolve_expr(r, *t.condition);
            let r2 = resolve_expr(r1, *t.true_branch);
            lemma_expr_keeps_scopes(r, *t.condition);
            lemma_expr_keeps_scopes(r1, *t.true_branch);
            lemma_expr_keeps_scopes(r2, *t.false_branch);
        },
        Expr::Variable(v) => lemma_read_keeps_scopes(r, v.name, v.site),
        Expr::Assign(a) => lemma_expr_keeps_scopes(r, *a.value),
        Expr::Call(c) => {
            lemma_expr_keeps_scopes(r, *c.callee);
            lemma_exprs_keep_scopes(resolve_expr(r, *c.callee), c.args@, 0);
        },
    }
}

proof fn lemma_exprs_keep_scopes(r: Resolution, es: Seq<Expr>, from: nat)
    ensures
        keeps_scopes(r, resolve_exprs(r, es, from)),
    decreases es, es.len() - from,
{
    if from < es.len() {
        lemma_expr_keeps_scopes(r, es[from as int]);
        lemma_exprs_keep_scopes(resolve_expr(r, es[from as int]), es, from + 1);
    }
}

proof fn lemma_parameters_keep_scopes(r: Resolution, parameters: Seq<Token>, from: nat)
    ensures
        keeps_scopes(r, resolve_parameters(r, parameters, from)),
    decreases parameters.len() - from,
{
    if from < parameters.len() {
        let r1 = declare(r, parameters[from as int]);
        let r2 = define(r1, parameters[from as int]);
        lemma_declare_keeps_scopes(r, parameters[from as int]);
        lemma_define_keeps_scopes(r1, parameters[from as int]);
        lemma_parameters_keep_scopes(r2, parameters, from + 1);
    }
}

/// The declaration that a function statement holds.
pub open spec fn declaration_of(s: Stmt) -> Function {
    match s {
        Stmt::Function(f) => *f,
        _ => arbitrary(),
    }
}

/// Resolving a statement leaves as many scopes open as were open before
/// it, and never gives a scope the same name twice. So every scope has
/// each of its names once, and the warnings at its end are one for each
/// name that was never read.
pub proof fn lemma_stmt_keeps_scopes(r: Resolution, s: Stmt)
    ensures
        keeps_scopes(r, resolve_stmt(r, s)),
    decreases s,
{
    match s {
        Stmt::Expression(x) => lemma_expr_keeps_scopes(r, *x.expression),
        Stmt::Print(p) => lemma_expr_keeps_scopes(r, *p.expression),
        Stmt::Var(v) => {
            let opened = if r.scopes.len() == 0 {
                begin_scope(r)
            } else {
                r
            };
            let r1 = declare(opened, *v.name);
            let r2 = resolve_expr(r1, *v.initializer);
            lemma_opening_keeps_names(r);
            lemma_declare_keeps_scopes(opened, *v.name);
            lemma_expr_keeps_scopes(r1, *v.initializer);
            lemma_define_keeps_scopes(r2, *v.name);
            lemma_closing_keeps_names(define(r2, *v.name).scopes);
            if r.scopes.len() == 0 {
                assert(drop_scope(define(r2, *v.name)).scopes =~= r.scopes);
            }
            assert(keeps_scopes(r, resolve_var(r, *v)));
        },
        Stmt::Block(b) => {
            let r1 = begin_scope(r);
            let r2 = resolve_stmts(r1, b.statements@, 0);
            lemma_opening_keeps_names(r);
            lemma_stmts_keep_scopes(r1, b.statements@, 0);
            lemma_closing_keeps_names(r2.scopes);
        },
        Stmt::IfStmt(i) => {
            let r1 = resolve_expr(r, *i.condition);
            let r2 = resolve_stmt(r1, *i.then_branch);
            lemma_expr_keeps_scopes(r, *i.condition);
            lemma_stmt_keeps_scopes(r1, *i.then_branch);
            if let Some(other) = i.else_branch {
                lemma_stmt_keeps_scopes(r2, *other);
            }
            assert(keeps_scopes(r, resolve_if(r, *i)));
        },
        Stmt::WhileStmt(w) => {
            lemma_expr_keeps_scopes(r, *w.condition);
            lemma_stmt_keeps_scopes(resolve_expr(r, *w.condition), *w.body);
        },
        Stmt::Function(_) => {
            let f = declaration_of(s);
            let r0 = declare(r, *f.name);
            let r1 = define(r0, *f.name);
            let inside = Resolution { current_function: FunctionType::FUNCTION, ..r1 };
            let r2 = resolve_parameters(begin_scope(inside), f.parameters@, 0);
            lemma_declare_keeps_scopes(r, *f.name);
            lemma_define_keeps_scopes(r0, *f.name);
            lemma_opening_keeps_names(inside);
            lemma_parameters_keep_scopes(begin_scope(inside), f.parameters@, 0);
            let r3 = match *f.body {
                Stmt::Block(b) => resolve_stmts(r2, b.statements@, 0),
                other => resolve_stmt(r2, other),
            };
            match *f.body {
                Stmt::Block(b) => lemma_stmts_keep_scopes(r2, b.statements@, 0),
                other => lemma_stmt_keeps_scopes(r2, other),
            }
            lemma_closing_keeps_names(r3.scopes);
            assert(keeps_scopes(r1, resolve_function(r1, f)));
        },
        Stmt::ReturnStmt(t) => {
            let flagged = if r.current_function == FunctionType::NONE {
                Resolution { errors: r.errors.push(return_error(*t.tok)), ..r }
            } else {
                r
            };
            lemma_expr_keeps_scopes(flagged, *t.value);
            assert(keeps_scopes(r, resolve_return(r, *t)));
        },
    }
}

proof fn lemma_stmts_keep_scopes(r: Resolution, ss: Seq<Stmt>, from: nat)
    ensures
        keeps_scopes(r, resolve_stmts(r, ss, from)),
    decreases ss, ss.len() - from,
{
    if from < ss.len() {
        lemma_stmt_keeps_scopes(r, ss[from as int]);
        lemma_stmts_keep_scopes(resolve_stmt(r, ss[from as int]), ss, from + 1);
    }
}

/// A new scope has no names, so none twice.
proof fn lemma_opening_keeps_names(r: Resolution)
    ensures
        begin_scope(r).scopes.len() == r.scopes.len() + 1,
        all_distinct(r.scopes) ==> all_distinct(begin_scope(r).scopes),
{
    let after = begin_scope(r).scopes;
    if all_distinct(r.scopes) {
        assert forall|k: int| 0 <= k < after.len() implies distinct_names(#[trigger] after[k]) by {
            if k < r.scopes.len() {
                assert(after[k] == r.scopes[k]);
            }
        }
    }
}

/// Closing the innermost scope leaves the others as they were.
proof fn lemma_closing_keeps_names(scopes: Seq<Seq<Entry>>)
    requires
        scopes.len() > 0,
    ensures
        scopes.drop_last().len() == scopes.len() - 1,
        all_distinct(scopes) ==> all_distinct(scopes.drop_last()),
{
    let after = scopes.drop_last();
    if all_distinct(scopes) {
        assert forall|k: int| 0 <= k < after.len() implies distinct_names(#[trigger] after[k]) by {
            assert(after[k] == scopes[k]);
        }
    }
}

} // verus!
