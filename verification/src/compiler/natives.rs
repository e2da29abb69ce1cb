//! Functions that the host provides to every program.

use crate::compiler::expr::{Object, Value};
use crate::compiler::number::Number;
use vstd::prelude::*;
use vstd::string::*;

verus! {

/// The native function `clock`: it takes no arguments and returns the time
/// that the host gave the interpreter, in seconds.
#[derive(Debug)]
pub struct ClockFunction;

impl ClockFunction {
    /// The time `now`, as a value.
    pub fn call(&self, now: Number) -> (r: Object)
        ensures
            r@ == Value::Number(now@),
    {
        Object::Number(now)
    }

    /// How many arguments `clock` takes: none.
    pub fn arity(&self) -> (n: usize)
        ensures
            n == 0,
    {
        0
    }

    /// How `clock` is written.
    pub fn to_string(&self) -> (s: String)
        ensures
            s@ == "<native fn clock>"@,
    {
        String::from_str("<native fn clock>")
    }
}

} // verus!
