//! Callables: what a call expression can call.

use crate::compiler::env::EnvRef;
use crate::compiler::natives::ClockFunction;
use crate::compiler::stmt::Function;
use std::rc::Rc;
use vstd::prelude::*;
use vstd::string::*;

verus! {

/// A callable as plain mathematical data.
pub enum Routine {
    /// The native function `clock`.
    Clock,
    /// A function of the program: its declaration, and the scope in which
    /// the declaration was run.
    User { declaration: Function, closure: EnvRef },
}

/// A function of the program together with the scope that was current when
/// its declaration was run. A call runs the body in a new scope enclosed by
/// that scope, never by the scope of the caller.
pub struct LoxFunction {
    pub declaration: Rc<Function>,
    pub closure: EnvRef,
}

/// What a call expression can call.
pub enum Callable {
    Native(ClockFunction),
    User(LoxFunction),
}

impl View for Callable {
    type V = Routine;

    open spec fn view(&self) -> Routine {
        match self {
            Callable::Native(_) => Routine::Clock,
            Callable::User(f) => Routine::User { declaration: *f.declaration, closure: f.closure },
        }
    }
}

/// How many arguments a callable takes.
pub open spec fn routine_arity(r: Routine) -> nat {
    match r {
        Routine::Clock => 0,
        Routine::User { declaration, closure } => declaration.parameters@.len(),
    }
}

/// How a callable is written.
pub open spec fn routine_text(r: Routine) -> Seq<char> {
    match r {
        Routine::Clock => "<native fn clock>"@,
        Routine::User { declaration, closure } => "<fn "@ + declaration.name.lexeme@ + ">"@,
    }
}

/// `Rc::clone`: the result is another handle to the same declaration; the
/// declaration itself is neither copied nor changed.
#[verifier::external_body]
pub(crate) fn share(declaration: &Rc<Function>) -> (r: Rc<Function>)
    ensures
        r == *declaration,
{
    Rc::clone(declaration)
}

impl LoxFunction {
    /// A function with its declaration and the scope in which it was declared.
    pub fn new(declaration: Rc<Function>, closure: EnvRef) -> (f: Self)
        ensures
            f.declaration == declaration,
            f.closure == closure,
    {
        LoxFunction { declaration, closure }
    }

    /// How many arguments it takes.
    pub fn arity(&self) -> (n: usize)
        ensures
            n == self.declaration.parameters@.len(),
    {
        self.declaration.parameters.len()
    }

    /// How it is written.
    pub fn to_string(&self) -> (s: String)
        ensures
            s@ == "<fn "@ + self.declaration.name.lexeme@ + ">"@,
    {
        let mut s = String::from_str("<fn ");
        s.append(self.declaration.name.lexeme.as_str());
        s.append(">");
        s
    }
}

impl Callable {
    /// How many arguments it takes.
    pub fn arity(&self) -> (n: usize)
        ensures
            n == routine_arity(self@),
    {
        match self {
            Callable::Native(f) => f.arity(),
            Callable::User(f) => f.arity(),
        }
    }

    /// How it is written.
    pub fn to_string(&self) -> (s: String)
        ensures
            s@ == routine_text(self@),
    {
        match self {
            Callable::Native(f) => f.to_string(),
            Callable::User(f) => f.to_string(),
        }
    }
}

} // verus!
