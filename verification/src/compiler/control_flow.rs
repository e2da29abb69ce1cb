//! How a statement ends: by running to its end, or by returning from the
//! function that is being called. A return is no error, and travels beside
//! the errors, not among them.

use crate::compiler::error::{ErrorView, LoxError};
use crate::compiler::expr::{Object, Value};
use vstd::prelude::*;

verus! {

/// The way a statement ended, as plain mathematical data.
pub enum Flow {
    Normal,
    Return(Value),
}

/// The way a statement ended.
pub enum ControlFlow {
    Normal,
    Return(Object),
}

impl View for ControlFlow {
    type V = Flow;

    open spec fn view(&self) -> Flow {
        match self {
            ControlFlow::Normal => Flow::Normal,
            ControlFlow::Return(v) => Flow::Return(v@),
        }
    }
}

/// What running a statement gives, as plain mathematical data.
pub open spec fn flow_or_error(r: Result<ControlFlow, LoxError>) -> Result<Flow, ErrorView> {
    match r {
        Ok(flow) => Ok(flow@),
        Err(e) => Err(e@),
    }
}

/// The result of a step that produced `value` and did not return.
pub fn ok<T>(value: T) -> (r: Result<(T, ControlFlow), LoxError>)
    ensures
        r matches Ok((v, ControlFlow::Normal)) && v == value,
{
    Ok((value, ControlFlow::Normal))
}

/// The result of a `return` statement that returns `value`.
pub fn return_value(value: Object) -> (r: Result<(Object, ControlFlow), LoxError>)
    ensures
        r matches Ok((Object::Nil, ControlFlow::Return(v))) && v == value,
{
    Ok((Object::Nil, ControlFlow::Return(value)))
}

/// The value of a step, without the way it ended.
pub fn extract_value<T>(flow_res: Result<(T, ControlFlow), LoxError>) -> (r: Result<T, LoxError>)
    ensures
        r == match flow_res {
            Ok((value, _)) => Ok::<T, LoxError>(value),
            Err(e) => Err::<T, LoxError>(e),
        },
{
    match flow_res {
        Ok((value, _)) => Ok(value),
        Err(e) => Err(e),
    }
}

} // verus!
