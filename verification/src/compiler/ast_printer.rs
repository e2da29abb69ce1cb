//! Writing expressions out, with every operator in parentheses.

use crate::compiler::expr::{
    plain_text, Assign, Binary, Call, Expr, Grouping, Literal, Logical, Object, Ternary, Unary,
    Value, Variable,
};
use crate::compiler::text::push_char;
use vstd::prelude::*;
use vstd::string::*;

verus! {

broadcast use vstd::std_specs::vec::axiom_vec_index_decreases;

/// How a constant is written: a string in double quotes, any other value as
/// `print` writes it.
pub open spec fn constant_text(v: Value) -> Seq<char> {
    match v {
        Value::Text(s) => seq!['"'] + s + seq!['"'],
        _ => plain_text(v),
    }
}

/// How an expression is written.
///
/// A constant or a variable is written as it is. Every other expression is
/// written in parentheses: an operator before its operands, except that
/// `and` and `or` stand between theirs; `group` before an expression that
/// the source has in parentheses; `ternary` before a condition and its two
/// branches; the name, a colon and the value for an assignment; and `call`
/// before the callee and the arguments.
pub open spec fn printed(e: Expr) -> Seq<char>
    decreases e,
{
    match e {
        Expr::Literal(l) => constant_text(l.value@),
        Expr::Variable(v) => v.name.lexeme@,
        Expr::Grouping(g) => "(group "@ + printed(*g.expression) + ")"@,
        Expr::Unary(u) => "("@ + u.operator.lexeme@ + " "@ + printed(*u.right) + ")"@,
        Expr::Binary(b) => "("@ + b.operator.lexeme@ + " "@ + printed(*b.left) + " "@ + printed(
            *b.right,
        ) + ")"@,
        Expr::Logical(l) => "("@ + printed(*l.left) + " "@ + l.operator.lexeme@ + " "@ + printed(
            *l.right,
        ) + ")"@,
        Expr::Ternary(t) => "(ternary "@ + printed(*t.condition) + " "@ + printed(*t.true_branch)
            + " "@ + printed(*t.false_branch) + ")"@,
        Expr::Assign(a) => "("@ + a.name.lexeme@ + " : "@ + printed(*a.value) + ")"@,
        Expr::Call(c) => "(call "@ + printed(*c.callee) + printed_all(c.args@, 0) + ")"@,
    }
}

/// The expressions from `from` on, each written behind a space.
pub open spec fn printed_all(es: Seq<Expr>, from: nat) -> Seq<char>
    decreases es, es.len() - from,
{
    if from >= es.len() {
        Seq::empty()
    } else {
        " "@ + printed(es[from as int]) + printed_all(es, from + 1)
    }
}

/// What writes expressions out.
#[derive(Debug, Clone, Copy)]
pub struct AstPrinter;

impl AstPrinter {
    /// Writes an expression.
    pub fn print(&self, expr: &Expr) -> (s: String)
        ensures
            s@ == printed(*expr),
        decreases *expr, 1nat,
    {
        match expr {
            Expr::Literal(l) => self.visit_literal(l),
            Expr::Variable(v) => self.visit_variable(v),
            Expr::Grouping(g) => self.visit_grouping(g),
            Expr::Unary(u) => self.visit_unary(u),
            Expr::Binary(b) => self.visit_binary(b),
            Expr::Logical(l) => self.visit_logical(l),
            Expr::Ternary(t) => self.visit_ternary(t),
            Expr::Assign(a) => self.visit_assign(a),
            Expr::Call(c) => self.visit_call(c),
        }
    }

    /// Writes a constant.
    pub fn visit_literal(&self, literal: &Literal) -> (s: String)
        ensures
            s@ == constant_text(literal.value@),
    {
        match &literal.value {
            Object::String(text) => {
                let mut s = String::new();
                push_char(&mut s, '"');
                s.append(text.as_str());
                push_char(&mut s, '"');
                assert(s@ =~= constant_text(literal.value@));
                s
            },
            other => other.to_string(),
        }
    }

    /// Writes the name of a variable.
    pub fn visit_variable(&self, variable: &Variable) -> (s: String)
        ensures
            s@ == variable.name.lexeme@,
    {
        variable.name.lexeme.clone()
    }

    /// Writes an expression in parentheses.
    pub fn visit_grouping(&self, grouping: &Grouping) -> (s: String)
        ensures
            s@ == "(group "@ + printed(*grouping.expression) + ")"@,
        decreases *grouping, 0nat,
    {
        let mut s = String::from_str("(group ");
        s.append(self.print(&grouping.expression).as_str());
        s.append(")");
        s
    }

    /// Writes an operator and its operand.
    pub fn visit_unary(&self, unary: &Unary) -> (s: String)
        ensures
            s@ == "("@ + unary.operator.lexeme@ + " "@ + printed(*unary.right) + ")"@,
        decreases *unary, 0nat,
    {
        let mut s = String::from_str("(");
        s.append(unary.operator.lexeme.as_str());
        s.append(" ");
        s.append(self.print(&unary.right).as_str());
        s.append(")");
        s
    }

    /// Writes an operator and its two operands.
    pub fn visit_binary(&self, binary: &Binary) -> (s: String)
        ensures
            s@ == "("@ + binary.operator.lexeme@ + " "@ + printed(*binary.left) + " "@ + printed(
                *binary.right,
            ) + ")"@,
        decreases *binary, 0nat,
    {
        let mut s = String::from_str("(");
        s.append(binary.operator.lexeme.as_str());
        s.append(" ");
        s.append(self.print(&binary.left).as_str());
        s.append(" ");
        s.append(self.print(&binary.right).as_str());
        s.append(")");
        s
    }

    /// Writes `and` or `or` between its two operands.
    pub fn visit_logical(&self, logical: &Logical) -> (s: String)
        ensures
            s@ == "("@ + printed(*logical.left) + " "@ + logical.operator.lexeme@ + " "@ + printed(
                *logical.right,
            ) + ")"@,
        decreases *logical, 0nat,
    {
        let mut s = String::from_str("(");
        s.append(self.print(&logical.left).as_str());
        s.append(" ");
        s.append(logical.operator.lexeme.as_str());
        s.append(" ");
        s.append(self.print(&logical.right).as_str());
        s.append(")");
        s
    }

    /// Writes a condition and its two branches.
    pub fn visit_ternary(&self, ternary: &Ternary) -> (s: String)
        ensures
            s@ == "(ternary "@ + printed(*ternary.condition) + " "@ + printed(
                *ternary.true_branch,
            ) + " "@ + printed(*ternary.false_branch) + ")"@,
        decreases *ternary, 0nat,
    {
        let mut s = String::from_str("(ternary ");
        s.append(self.print(&ternary.condition).as_str());
        s.append(" ");
        s.append(self.print(&ternary.true_branch).as_str());
        s.append(" ");
        s.append(self.print(&ternary.false_branch).as_str());
        s.append(")");
        s
    }

    /// Writes the name and the value of an assignment.
    pub fn visit_assign(&self, assign: &Assign) -> (s: String)
        ensures
            s@ == "("@ + assign.name.lexeme@ + " : "@ + printed(*assign.value) + ")"@,
        decreases *assign, 0nat,
    {
        let mut s = String::from_str("(");
        s.append(assign.name.lexeme.as_str());
        s.append(" : ");
        s.append(self.print(&assign.value).as_str());
        s.append(")");
        s
    }

    /// Writes the callee and the arguments of a call.
    pub fn visit_call(&self, call: &Call) -> (s: String)
        ensures
            s@ == "(call "@ + printed(*call.callee) + printed_all(call.args@, 0) + ")"@,
        decreases *call, 0nat,
    {
        let mut s = String::from_str("(call ");
        s.append(self.print(&call.callee).as_str());
        let ghost head = s@;
        let mut i: usize = 0;
        while i < call.args.len()
            invariant
                i <= call.args.len(),
                s@ + printed_all(call.args@, i as nat) == head + printed_all(call.args@, 0),
            decreases call.args.len() - i,
        {
            let ghost before = s@;
            assert(decreases_to!(call.args => call.args[i as int]));
            s.append(" ");
            s.append(self.print(&call.args[i]).as_str());
            assert(before + " "@ + printed(call.args@[i as int]) + printed_all(
                call.args@,
                (i + 1) as nat,
            ) =~= before + printed_all(call.args@, i as nat));
            i += 1;
        }
        assert(s@ + Seq::<char>::empty() =~= s@);
        s.append(")");
        s
    }
}

} // verus!
