//! Statement nodes.

use crate::compiler::expr::Expr;
use crate::compiler::token::Token;
use std::rc::Rc;
use vstd::prelude::*;

verus! {

/// A statement.
#[derive(Debug)]
pub enum Stmt {
    Expression(Box<Expression>),
    Print(Box<Print>),
    Var(Box<Var>),
    Block(Box<Block>),
    IfStmt(Box<IfStmt>),
    WhileStmt(Box<WhileStmt>),
    /// A function declaration. It is shared with every function value that
    /// running the declaration creates.
    Function(Rc<Function>),
    ReturnStmt(Box<ReturnStmt>),
}

/// A variable declaration; a variable without an initializer is
/// initialized with the constant `nil`.
#[derive(Debug)]
pub struct Var {
    pub name: Box<Token>,
    pub initializer: Box<Expr>,
}

/// An expression statement.
#[derive(Debug)]
pub struct Expression {
    pub expression: Box<Expr>,
}

/// A print statement.
#[derive(Debug)]
pub struct Print {
    pub expression: Box<Expr>,
}

/// A block of statements.
#[derive(Debug)]
pub struct Block {
    pub statements: Vec<Stmt>,
}

/// An `if` statement, with or without `else`.
#[derive(Debug)]
pub struct IfStmt {
    pub condition: Box<Expr>,
    pub then_branch: Box<Stmt>,
    pub else_branch: Option<Box<Stmt>>,
}

/// A `while` loop.
#[derive(Debug)]
pub struct WhileStmt {
    pub condition: Box<Expr>,
    pub body: Box<Stmt>,
}

/// A function declaration: the name, the parameters and the body, which is
/// a block.
#[derive(Debug)]
pub struct Function {
    pub name: Box<Token>,
    pub parameters: Box<Vec<Token>>,
    pub body: Box<Stmt>,
}

/// A `return` statement: the keyword, at which errors are raised, and the
/// value; a `return` without a value returns the constant `nil`.
#[derive(Debug)]
pub struct ReturnStmt {
    pub tok: Box<Token>,
    pub value: Box<Expr>,
}

/// The statements that a call of a function runs: those of its body where
/// the body is a block, else the body alone.
pub open spec fn body_statements(f: &Function) -> Seq<Stmt> {
    match *f.body {
        Stmt::Block(b) => b.statements@,
        other => seq![other],
    }
}

} // verus!
