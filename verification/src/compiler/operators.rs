//! What the operators of the language compute.

use crate::compiler::env::value_or_error;
use crate::compiler::error::{runtime_error, ErrorView, LoxError};
use crate::compiler::expr::{truthy, Object, Value};
use crate::compiler::number::{in_range, number_text, product, ratio, Number};
use crate::compiler::token::{kind_name, Token, TokenType};
use vstd::prelude::*;
use vstd::string::*;

verus! {

/// The number `v` as the result of operator `op`, or the error of `op` where
/// `v` is out of range.
pub open spec fn number_result(op: Token, v: int) -> Result<Value, ErrorView> {
    if in_range(v) {
        Ok(Value::Number(v))
    } else {
        Err(runtime_error(op, "Number out of range"@))
    }
}

/// The error of an operator that was applied to operands it does not take.
pub open spec fn operand_error(op: Token, message: Seq<char>) -> Result<Value, ErrorView> {
    Err(runtime_error(op, message))
}

/// What the binary operator `op` gives for the operands `l` and `r`.
///
/// `-`, `*`, `/` and the four comparisons take two numbers. `/` by zero is
/// an error. `+` adds two numbers and joins two strings; it also joins a
/// string and a number, with the number written out. `==` and `!=` take any
/// two values and never fail.
pub open spec fn binary_value(op: Token, l: Value, r: Value) -> Result<Value, ErrorView> {
    match op.token_type {
        TokenType::MINUS => match (l, r) {
            (Value::Number(a), Value::Number(b)) => number_result(op, a - b),
            _ => operand_error(op, "Binary minus can only be applied to numbers"@),
        },
        TokenType::PLUS => match (l, r) {
            (Value::Number(a), Value::Number(b)) => number_result(op, a + b),
            (Value::Text(a), Value::Text(b)) => Ok(Value::Text(a + b)),
            (Value::Text(a), Value::Number(b)) => Ok(Value::Text(a + number_text(b))),
            (Value::Number(a), Value::Text(b)) => Ok(Value::Text(number_text(a) + b)),
            _ => operand_error(op, "Binary plus can only be applied to numbers or strings"@),
        },
        TokenType::SLASH => match (l, r) {
            (Value::Number(a), Value::Number(b)) => if b == 0 {
                operand_error(op, "Division by zero"@)
            } else {
                number_result(op, ratio(a, b))
            },
            _ => operand_error(op, "Binary slash can only be applied to numbers"@),
        },
        TokenType::STAR => match (l, r) {
            (Value::Number(a), Value::Number(b)) => number_result(op, product(a, b)),
            _ => operand_error(op, "Binary star can only be applied to numbers"@),
        },
        TokenType::GREATER => match (l, r) {
            (Value::Number(a), Value::Number(b)) => Ok(Value::Boolean(a > b)),
            _ => operand_error(op, "Binary greater can only be applied to numbers"@),
        },
        TokenType::GREATER_EQUAL => match (l, r) {
            (Value::Number(a), Value::Number(b)) => Ok(Value::Boolean(a >= b)),
            _ => operand_error(op, "Binary greater equal can only be applied to numbers"@),
        },
        TokenType::LESS => match (l, r) {
            (Value::Number(a), Value::Number(b)) => Ok(Value::Boolean(a < b)),
            _ => operand_error(op, "Binary less can only be applied to numbers"@),
        },
        TokenType::LESS_EQUAL => match (l, r) {
            (Value::Number(a), Value::Number(b)) => Ok(Value::Boolean(a <= b)),
            _ => operand_error(op, "Binary less equal can only be applied to numbers"@),
        },
        TokenType::EQUAL_EQUAL => Ok(Value::Boolean(l == r)),
        TokenType::BANG_EQUAL => Ok(Value::Boolean(l != r)),
        other => operand_error(op, "Unknown binary operator: "@ + kind_name(other)),
    }
}

/// What the unary operator `op` gives for the operand `v`: `-` takes a
/// number, `!` takes any value and gives the opposite of its truth.
pub open spec fn unary_value(op: Token, v: Value) -> Result<Value, ErrorView> {
    match op.token_type {
        TokenType::MINUS => match v {
            Value::Number(a) => number_result(op, -a),
            _ => operand_error(op, "Unary minus can only be applied to numbers"@),
        },
        TokenType::BANG => Ok(Value::Boolean(!truthy(v))),
        other => operand_error(op, "Unknown unary operator: "@ + kind_name(other)),
    }
}

fn number_or_range(op: &Token, v: Option<Number>) -> (r: Result<Object, LoxError>)
    ensures
        r matches Ok(o) ==> v matches Some(n) && o@ == Value::Number(n@),
        r matches Err(e) ==> v is None && e@ == runtime_error(*op, "Number out of range"@),
{
    match v {
        Some(n) => Ok(Object::Number(n)),
        None => Err(LoxError::new_runtime(op.clone(), "Number out of range")),
    }
}

fn unknown_operator(op: &Token, prefix: &str) -> (e: LoxError)
    ensures
        e@ == runtime_error(*op, prefix@ + kind_name(op.token_type)),
{
    let mut message = String::from_str(prefix);
    message.append(op.token_type.name());
    let e = LoxError::new_runtime(op.clone(), message.as_str());
    e
}

fn compare(op: &Token, left: &Object, right: &Object, message: &str) -> (r: Result<
    Object,
    LoxError,
>)
    requires
        op.token_type == TokenType::GREATER || op.token_type == TokenType::GREATER_EQUAL
            || op.token_type == TokenType::LESS || op.token_type == TokenType::LESS_EQUAL,
    ensures
        value_or_error(r) == match (left@, right@) {
            (Value::Number(a), Value::Number(b)) => Ok::<Value, ErrorView>(
                Value::Boolean(
                    if op.token_type == TokenType::GREATER {
                        a > b
                    } else if op.token_type == TokenType::GREATER_EQUAL {
                        a >= b
                    } else if op.token_type == TokenType::LESS {
                        a < b
                    } else {
                        a <= b
                    },
                ),
            ),
            _ => operand_error(*op, message@),
        },
{
    match (left, right) {
        (Object::Number(a), Object::Number(b)) => {
            let holds = match op.token_type {
                TokenType::GREATER => b.less(a),
                TokenType::GREATER_EQUAL => b.less_equal(a),
                TokenType::LESS => a.less(b),
                _ => a.less_equal(b),
            };
            Ok(Object::Boolean(holds))
        },
        _ => Err(LoxError::new_runtime(op.clone(), message)),
    }
}

/// Applies the binary operator `op` to two values.
pub fn binary_op(op: &Token, left: &Object, right: &Object) -> (r: Result<Object, LoxError>)
    ensures
        value_or_error(r) == binary_value(*op, left@, right@),
{
    match op.token_type {
        TokenType::MINUS => match (left, right) {
            (Object::Number(a), Object::Number(b)) => number_or_range(op, a.sub(b)),
            _ => Err(
                LoxError::new_runtime(op.clone(), "Binary minus can only be applied to numbers"),
            ),
        },
        TokenType::PLUS => match (left, right) {
            (Object::Number(a), Object::Number(b)) => number_or_range(op, a.add(b)),
            (Object::String(a), Object::String(b)) => Ok(
                Object::String(a.clone().concat(b.as_str())),
            ),
            (Object::String(a), Object::Number(b)) => Ok(
                Object::String(a.clone().concat(b.to_string().as_str())),
            ),
            (Object::Number(a), Object::String(b)) => Ok(
                Object::String(a.to_string().concat(b.as_str())),
            ),
            _ => Err(
                LoxError::new_runtime(
                    op.clone(),
                    "Binary plus can only be applied to numbers or strings",
                ),
            ),
        },
        TokenType::SLASH => match (left, right) {
            (Object::Number(a), Object::Number(b)) => if b.is_zero() {
                Err(LoxError::new_runtime(op.clone(), "Division by zero"))
            } else {
                number_or_range(op, a.div(b))
            },
            _ => Err(
                LoxError::new_runtime(op.clone(), "Binary slash can only be applied to numbers"),
            ),
        },
        TokenType::STAR => match (left, right) {
            (Object::Number(a), Object::Number(b)) => number_or_range(op, a.mul(b)),
            _ => Err(
                LoxError::new_runtime(op.clone(), "Binary star can only be applied to numbers"),
            ),
        },
        TokenType::GREATER => compare(
            op,
            left,
            right,
            "Binary greater can only be applied to numbers",
        ),
        TokenType::GREATER_EQUAL => compare(
            op,
            left,
            right,
            "Binary greater equal can only be applied to numbers",
        ),
        TokenType::LESS => compare(op, left, right, "Binary less can only be applied to numbers"),
        TokenType::LESS_EQUAL => compare(
            op,
            left,
            right,
            "Binary less equal can only be applied to numbers",
        ),
        TokenType::EQUAL_EQUAL => Ok(Object::Boolean(*left == *right)),
        TokenType::BANG_EQUAL => Ok(Object::Boolean(!(*left == *right))),
        _ => Err(unknown_operator(op, "Unknown binary operator: ")),
    }
}

/// Applies the unary operator `op` to a value.
pub fn unary_op(op: &Token, right: &Object) -> (r: Result<Object, LoxError>)
    ensures
        value_or_error(r) == unary_value(*op, right@),
{
    match op.token_type {
        TokenType::MINUS => match right {
            Object::Number(a) => number_or_range(op, a.negate()),
            _ => Err(
                LoxError::new_runtime(op.clone(), "Unary minus can only be applied to numbers"),
            ),
        },
        TokenType::BANG => Ok(Object::Boolean(!right.is_truthy())),
        _ => Err(unknown_operator(op, "Unknown unary operator: ")),
    }
}

} // verus!
