//! Structural equality of values.

use crate::object::{share, Cons, Object, ObjectKind, Value};
use vstd::prelude::*;

verus! {

/// Two values are equal when they are the same atom, pairs of equal fields,
/// or the same procedure: the same native entry point, or closures of one
/// identity.
pub open spec fn equal_spec(x: Value, y: Value) -> bool
    decreases x,
{
    match (x, y) {
        (Value::Nil, Value::Nil) => true,
        (Value::Fixnum(a), Value::Fixnum(b)) => a == b,
        (Value::Symbol(a), Value::Symbol(b)) => a == b,
        (Value::Cons(a, b), Value::Cons(c, d)) => equal_spec(*a, *c) && equal_spec(*b, *d),
        (Value::Func(f), Value::Func(g)) => f == g,
        (Value::Closure(c), Value::Closure(d)) => c.id == d.id,
        _ => false,
    }
}

/// Every value is equal to itself.
pub proof fn lemma_equal_reflexive(x: Value)
    ensures
        equal_spec(x, x),
    decreases x,
{
    match x {
        Value::Cons(a, b) => {
            lemma_equal_reflexive(*a);
            lemma_equal_reflexive(*b);
        },
        _ => {},
    }
}

/// Equality does not depend on the order of its arguments.
pub proof fn lemma_equal_symmetric(x: Value, y: Value)
    ensures
        equal_spec(x, y) == equal_spec(y, x),
    decreases x,
{
    match (x, y) {
        (Value::Cons(a, b), Value::Cons(c, d)) => {
            lemma_equal_symmetric(*a, *c);
            lemma_equal_symmetric(*b, *d);
        },
        _ => {},
    }
}

fn equal_cons(x: &Cons, y: &Cons) -> (r: bool)
    ensures
        r == equal_spec(x.value(), y.value()),
    decreases x,
{
    if !equal(share(&x.car), share(&y.car)) {
        return false;
    }
    equal(share(&x.cdr), share(&y.cdr))
}

/// Whether `x` and `y` are structurally equal.
pub fn equal(x: Object, y: Object) -> (r: bool)
    ensures
        r == equal_spec(x@, y@),
    decreases x,
{
    match &*x {
        ObjectKind::Nil => match &*y {
            ObjectKind::Nil => true,
            _ => false,
        },
        ObjectKind::Fixnum(a) => match &*y {
            ObjectKind::Fixnum(b) => *a == *b,
            _ => false,
        },
        ObjectKind::Symbol(a) => match &*y {
            ObjectKind::Symbol(b) => *a == *b,
            _ => false,
        },
        ObjectKind::Cons(a) => match &*y {
            ObjectKind::Cons(b) => equal_cons(a, b),
            _ => false,
        },
        ObjectKind::Func(f) => match &*y {
            ObjectKind::Func(g) => *f == *g,
            _ => false,
        },
        ObjectKind::Closure(c) => match &*y {
            ObjectKind::Closure(d) => c.id == d.id,
            _ => false,
        },
    }
}

} // verus!
