//! Runtime values and expression nodes.

use crate::compiler::number::{number_text, Number};
use crate::compiler::token::Token;
use vstd::prelude::*;
use vstd::std_specs::cmp::PartialEqSpecImpl;
use vstd::string::*;

verus! {

/// A runtime value as plain mathematical data.
pub enum Value {
    Nil,
    Boolean(bool),
    /// A number, as its count of millionths.
    Number(int),
    Text(Seq<char>),
    /// A callable, as its handle in the interpreter's table of callables.
    Function(nat),
}

/// A runtime value.
#[derive(Debug)]
pub enum Object {
    Nil,
    Boolean(bool),
    Number(Number),
    String(String),
    /// A callable, named by its handle in the interpreter's table of
    /// callables. Two such values are equal only if they are the same callable.
    Function(usize),
}

impl View for Object {
    type V = Value;

    open spec fn view(&self) -> Value {
        match self {
            Object::Nil => Value::Nil,
            Object::Boolean(b) => Value::Boolean(*b),
            Object::Number(n) => Value::Number(n@),
            Object::String(s) => Value::Text(s@),
            Object::Function(h) => Value::Function(*h as nat),
        }
    }
}

impl Clone for Object {
    fn clone(&self) -> (res: Self)
        ensures
            res == *self,
    {
        match self {
            Object::Nil => Object::Nil,
            Object::Boolean(b) => Object::Boolean(*b),
            Object::Number(n) => Object::Number(*n),
            Object::String(s) => Object::String(s.clone()),
            Object::Function(h) => Object::Function(*h),
        }
    }
}

impl PartialEq for Object {
    fn eq(&self, other: &Self) -> (r: bool) {
        match (self, other) {
            (Object::Nil, Object::Nil) => true,
            (Object::Boolean(a), Object::Boolean(b)) => *a == *b,
            (Object::Number(a), Object::Number(b)) => a.millionths == b.millionths,
            (Object::String(a), Object::String(b)) => *a == *b,
            (Object::Function(a), Object::Function(b)) => *a == *b,
            _ => false,
        }
    }
}

impl PartialEqSpecImpl for Object {
    open spec fn obeys_eq_spec() -> bool {
        true
    }

    open spec fn eq_spec(&self, other: &Self) -> bool {
        self@ == other@
    }
}

/// Whether a value counts as true: everything but `nil` and `false` does.
pub open spec fn truthy(v: Value) -> bool {
    match v {
        Value::Nil => false,
        Value::Boolean(b) => b,
        _ => true,
    }
}

/// How a value that is not a callable is written.
pub open spec fn plain_text(v: Value) -> Seq<char> {
    match v {
        Value::Nil => "nil"@,
        Value::Boolean(b) => if b {
            "true"@
        } else {
            "false"@
        },
        Value::Number(n) => number_text(n),
        Value::Text(s) => s,
        Value::Function(_) => "<fn>"@,
    }
}

impl Object {
    /// Whether the value counts as true.
    pub fn is_truthy(&self) -> (r: bool)
        ensures
            r == truthy(self@),
    {
        match self {
            Object::Nil => false,
            Object::Boolean(b) => *b,
            _ => true,
        }
    }

    /// How the value is written; a callable is written `<fn>`.
    pub fn to_string(&self) -> (s: String)
        ensures
            s@ == plain_text(self@),
    {
        match self {
            Object::Nil => String::from_str("nil"),
            Object::Boolean(b) => if *b {
                String::from_str("true")
            } else {
                String::from_str("false")
            },
            Object::Number(n) => n.to_string(),
            Object::String(s) => s.clone(),
            Object::Function(_) => String::from_str("<fn>"),
        }
    }
}

/// An expression.
#[derive(Debug)]
pub enum Expr {
    Binary(Box<Binary>),
    Grouping(Box<Grouping>),
    Literal(Literal),
    Unary(Box<Unary>),
    Ternary(Box<Ternary>),
    Variable(Box<Variable>),
    Assign(Box<Assign>),
    Logical(Box<Logical>),
    Call(Box<Call>),
}

/// Two operands and the arithmetic, comparison or equality operator between
/// them.
#[derive(Debug)]
pub struct Binary {
    pub left: Box<Expr>,
    pub operator: Token,
    pub right: Box<Expr>,
}

/// An expression in parentheses.
#[derive(Debug)]
pub struct Grouping {
    pub expression: Box<Expr>,
}

/// A constant.
#[derive(Debug)]
pub struct Literal {
    pub value: Object,
}

/// An operand and the operator before it.
#[derive(Debug)]
pub struct Unary {
    pub operator: Token,
    pub right: Box<Expr>,
}

/// `condition ? true_branch : false_branch`.
#[derive(Debug)]
pub struct Ternary {
    pub condition: Box<Expr>,
    pub true_branch: Box<Expr>,
    pub false_branch: Box<Expr>,
}

#[derive(Debug)]
/// A read of a variable. `site` tells this read apart from every other use
/// of a name in the program: it is the position of `name` among the tokens
/// of the program.
pub struct Variable {
    pub name: Token,
    pub site: usize,
}

#[derive(Debug)]
/// An assignment to a variable; `site` is as in [`Variable`].
pub struct Assign {
    pub name: Token,
    pub site: usize,
    pub value: Box<Expr>,
}

/// Two operands and `and` or `or` between them.
#[derive(Debug)]
pub struct Logical {
    pub left: Box<Expr>,
    pub operator: Token,
    pub right: Box<Expr>,
}

/// A call: the callee, the arguments, and the closing parenthesis, at which
/// errors of the call are raised.
#[derive(Debug)]
pub struct Call {
    pub callee: Box<Expr>,
    pub paren: Token,
    pub args: Vec<Expr>,
}

} // verus!
