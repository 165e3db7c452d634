//! What can go wrong while a form is evaluated.

use crate::object::{Object, ObjectType, Value};
use vstd::prelude::*;

verus! {

#[derive(Debug)]
pub enum RuntimeError {
    /// A name that no enclosing scope binds.
    UnboundVariable(String),
    /// A value that is not of the kind required.
    MismatchType(Object, ObjectType),
    /// The number of arguments given, and the number required.
    WrongNumArgs(usize, usize),
    /// The number of arguments given, and the least number required.
    TooFewArguments(usize, usize),
    /// The number of arguments given, and the greatest number accepted.
    TooManyArguments(usize, usize),
    /// Evaluations were nested deeper than the evaluator follows them.
    RecursionLimit,
}

/// The mathematical model of a `RuntimeError`.
pub enum Failure {
    UnboundVariable(Seq<char>),
    MismatchType(Value, ObjectType),
    WrongNumArgs(nat, nat),
    TooFewArguments(nat, nat),
    TooManyArguments(nat, nat),
    RecursionLimit,
}

impl View for RuntimeError {
    type V = Failure;

    open spec fn view(&self) -> Failure {
        match *self {
            RuntimeError::UnboundVariable(name) => Failure::UnboundVariable(name@),
            RuntimeError::MismatchType(value, expected) => Failure::MismatchType(value@, expected),
            RuntimeError::WrongNumArgs(actual, expected) => Failure::WrongNumArgs(
                actual as nat,
                expected as nat,
            ),
            RuntimeError::TooFewArguments(actual, min) => Failure::TooFewArguments(
                actual as nat,
                min as nat,
            ),
            RuntimeError::TooManyArguments(actual, max) => Failure::TooManyArguments(
                actual as nat,
                max as nat,
            ),
            RuntimeError::RecursionLimit => Failure::RecursionLimit,
        }
    }
}

/// The result of an evaluation.
pub type EvalResult = Result<Object, RuntimeError>;

/// The model of an evaluation's result.
pub type Outcome = Result<Value, Failure>;

/// The model of the result `r`.
pub open spec fn outcome(r: EvalResult) -> Outcome {
    match r {
        Ok(value) => Ok(value@),
        Err(e) => Err(e@),
    }
}

} // verus!
