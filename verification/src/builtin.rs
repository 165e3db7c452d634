//! The native procedures, and the checks on argument counts they share with
//! the special forms.

use crate::equal::equal_spec;
use crate::error::{outcome, EvalResult, Failure, Outcome, RuntimeError};
use crate::object::{pair, share, views, Native, Object, ObjectKind, ObjectType, Value};
use vstd::prelude::*;

verus! {

/// The error for `n` arguments where exactly `expected` are required.
pub open spec fn count_error(n: nat, expected: nat) -> Option<Failure> {
    if n != expected {
        Some(Failure::WrongNumArgs(n, expected))
    } else {
        None
    }
}

/// The error for `n` arguments where at least `min` are required and, with
/// a `max`, at most that many.
pub open spec fn range_error(n: nat, min: nat, max: Option<nat>) -> Option<Failure> {
    if n < min {
        Some(Failure::TooFewArguments(n, min))
    } else if max is Some && max->0 < n {
        Some(Failure::TooManyArguments(n, max->0))
    } else {
        None
    }
}

/// The sum of two machine integers, wrapped round where it leaves their range.
pub open spec fn wrapping_sum(a: int, b: int) -> int {
    if a + b > isize::MAX {
        a + b - (usize::MAX + 1)
    } else if a + b < isize::MIN {
        a + b + (usize::MAX + 1)
    } else {
        a + b
    }
}

/// The truth value of the language: the symbol `t`.
pub open spec fn truth() -> Value {
    Value::Symbol("t"@)
}

/// `t` for true, the empty value for false.
pub open spec fn truth_value(b: bool) -> Value {
    if b {
        truth()
    } else {
        Value::Nil
    }
}

/// `+`: the sum of the arguments, taken left to right and wrapped round at
/// each step; the first argument that is no integer is the error.
pub open spec fn plus_spec(args: Seq<Value>) -> Outcome
    decreases args.len(),
{
    if args.len() == 0 {
        Ok(Value::Fixnum(0))
    } else {
        match plus_spec(args.drop_last()) {
            Ok(Value::Fixnum(acc)) => match args.last() {
                Value::Fixnum(n) => Ok(Value::Fixnum(wrapping_sum(acc, n))),
                other => Err(Failure::MismatchType(other, ObjectType::Number)),
            },
            other => other,
        }
    }
}

/// `atom?`: false for a pair, true for anything else.
pub open spec fn is_atom_spec(args: Seq<Value>) -> Outcome {
    match count_error(args.len(), 1) {
        Some(e) => Err(e),
        None => Ok(truth_value(!(args[0] is Cons))),
    }
}

/// `cons`: the pair of the two arguments.
pub open spec fn cons_spec(args: Seq<Value>) -> Outcome {
    match count_error(args.len(), 2) {
        Some(e) => Err(e),
        None => Ok(pair(args[0], args[1])),
    }
}

/// `car` and `cdr`: the first field of a pair, or with `rest` its second.
pub open spec fn cxr_spec(args: Seq<Value>, rest: bool) -> Outcome {
    match count_error(args.len(), 1) {
        Some(e) => Err(e),
        None => match args[0] {
            Value::Cons(a, b) => Ok(
                if rest {
                    *b
                } else {
                    *a
                },
            ),
            other => Err(Failure::MismatchType(other, ObjectType::Cons)),
        },
    }
}

/// `equal`: whether the two arguments are structurally equal.
pub open spec fn equal_args_spec(args: Seq<Value>) -> Outcome {
    match count_error(args.len(), 2) {
        Some(e) => Err(e),
        None => Ok(truth_value(equal_spec(args[0], args[1]))),
    }
}

/// What the native procedure `f` returns for `args`.
pub open spec fn native_spec(f: Native, args: Seq<Value>) -> Outcome {
    match f {
        Native::Plus => plus_spec(args),
        Native::IsAtom => is_atom_spec(args),
        Native::Cons => cons_spec(args),
        Native::Car => cxr_spec(args, false),
        Native::Cdr => cxr_spec(args, true),
        Native::Equal => equal_args_spec(args),
    }
}

pub fn check_num_args(args: &[Object], expected: usize) -> (r: Result<(), RuntimeError>)
    ensures
        match count_error(args@.len(), expected as nat) {
            Some(e) => r is Err && r->Err_0@ == e,
            None => r is Ok,
        },
{
    if args.len() != expected {
        return Err(RuntimeError::WrongNumArgs(args.len(), expected));
    }
    Ok(())
}

pub fn check_num_args_range(args: &[Object], min: usize, max: Option<usize>) -> (r: Result<
    (),
    RuntimeError,
>)
    ensures
        match range_error(
            args@.len(),
            min as nat,
            match max {
                Some(m) => Some(m as nat),
                None => None,
            },
        ) {
            Some(e) => r is Err && r->Err_0@ == e,
            None => r is Ok,
        },
{
    if args.len() < min {
        return Err(RuntimeError::TooFewArguments(args.len(), min));
    }
    if let Some(max) = max {
        if max < args.len() {
            return Err(RuntimeError::TooManyArguments(args.len(), max));
        }
    }
    Ok(())
}

/// The truth value `t`, or the empty value.
fn truth_object(b: bool) -> (r: Object)
    ensures
        r@ == truth_value(b),
{
    if b {
        proof {
            reveal_strlit("t");
            reveal_strlit("nil");
            assert("t"@.len() != "nil"@.len());
        }
        crate::object::symbol("t")
    } else {
        crate::object::nil()
    }
}

pub fn plus(args: &[Object]) -> (r: EvalResult)
    ensures
        outcome(r) == plus_spec(views(args@)),
{
    let mut acc: isize = 0;
    let mut i: usize = 0;
    while i < args.len()
        invariant
            i <= args@.len(),
            plus_spec(views(args@).take(i as int)) == Ok::<Value, Failure>(Value::Fixnum(acc as int)),
        decreases args@.len() - i,
    {
        let ghost prefix = views(args@).take(i as int + 1);
        assert(prefix.drop_last() =~= views(args@).take(i as int));
        assert(prefix.last() == args@[i as int]@);
        match &*args[i] {
            ObjectKind::Fixnum(n) => {
                acc = acc.wrapping_add(*n);
            },
            _ => {
                proof {
                    lemma_plus_error(views(args@), i as int + 1);
                }
                return Err(RuntimeError::MismatchType(share(&args[i]), ObjectType::Number));
            },
        }
        i = i + 1;
    }
    assert(views(args@).take(i as int) =~= views(args@));
    Ok(crate::object::fixnum(acc))
}

/// An error in the sum of a prefix is the error of the whole sum.
proof fn lemma_plus_error(args: Seq<Value>, k: int)
    requires
        0 <= k <= args.len(),
        plus_spec(args.take(k)) is Err,
    ensures
        plus_spec(args) == plus_spec(args.take(k)),
    decreases args.len() - k,
{
    if k < args.len() {
        assert(args.take(k + 1).drop_last() =~= args.take(k));
        lemma_plus_error(args, k + 1);
    } else {
        assert(args.take(k) =~= args);
    }
}

pub fn is_atom(args: &[Object]) -> (r: EvalResult)
    ensures
        outcome(r) == is_atom_spec(views(args@)),
{
    check_num_args(args, 1)?;
    match &*args[0] {
        ObjectKind::Cons(_) => Ok(truth_object(false)),
        _ => Ok(truth_object(true)),
    }
}

pub fn cons(args: &[Object]) -> (r: EvalResult)
    ensures
        outcome(r) == cons_spec(views(args@)),
{
    check_num_args(args, 2)?;
    Ok(crate::object::cons(share(&args[0]), share(&args[1])))
}

fn cxr(args: &[Object], rest: bool) -> (r: EvalResult)
    ensures
        outcome(r) == cxr_spec(views(args@), rest),
{
    check_num_args(args, 1)?;
    match &*args[0] {
        ObjectKind::Cons(cons) => Ok(
            if rest {
                share(&cons.cdr)
            } else {
                share(&cons.car)
            },
        ),
        _ => Err(RuntimeError::MismatchType(share(&args[0]), ObjectType::Cons)),
    }
}

pub fn car(args: &[Object]) -> (r: EvalResult)
    ensures
        outcome(r) == cxr_spec(views(args@), false),
{
    cxr(args, false)
}

pub fn cdr(args: &[Object]) -> (r: EvalResult)
    ensures
        outcome(r) == cxr_spec(views(args@), true),
{
    cxr(args, true)
}

pub fn equal(args: &[Object]) -> (r: EvalResult)
    ensures
        outcome(r) == equal_args_spec(views(args@)),
{
    check_num_args(args, 2)?;
    Ok(truth_object(crate::equal::equal(share(&args[0]), share(&args[1]))))
}

/// Calls the native procedure `f` on `args`.
pub fn call_native(f: Native, args: &[Object]) -> (r: EvalResult)
    ensures
        outcome(r) == native_spec(f, views(args@)),
{
    match f {
        Native::Plus => plus(args),
        Native::IsAtom => is_atom(args),
        Native::Cons => cons(args),
        Native::Car => car(args),
        Native::Cdr => cdr(args),
        Native::Equal => equal(args),
    }
}

} // verus!
