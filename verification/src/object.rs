//! The value model: atoms, pairs, native procedures and closures.

use std::rc::Rc;
use vstd::prelude::*;

verus! {

/// The kind a value was required to have when a `MismatchType` error arose.
#[derive(Debug, Clone, Copy, PartialEq, Eq, Structural)]
pub enum ObjectType {
    Number,
    Function,
    Cons,
    Symbol,
    List,
}

/// A native procedure, named by its entry point. Two native procedures are
/// the same procedure exactly when they name the same entry point.
#[derive(Debug, Clone, Copy, PartialEq, Eq, Structural)]
pub enum Native {
    Plus,
    IsAtom,
    Cons,
    Car,
    Cdr,
    Equal,
}

/// A shared, immutable value.
pub type Object = Rc<ObjectKind>;

#[derive(Debug)]
pub enum ObjectKind {
    Nil,
    Fixnum(isize),
    Symbol(String),
    Cons(Cons),
    Func(Native),
    Closure(Closure),
}

/// A pair of two values.
#[derive(Debug)]
pub struct Cons {
    pub car: Object,
    pub cdr: Object,
}

/// A user procedure: parameter names, body forms, and the scope that was
/// current when it was made. `id` is its identity: the environment hands
/// each new closure the next serial number.
#[derive(Debug)]
pub struct Closure {
    pub id: usize,
    pub params: Vec<String>,
    pub body: Vec<Object>,
    pub env: usize,
}

/// The mathematical model of a closure.
pub struct ClosureView {
    pub id: nat,
    pub params: Seq<Seq<char>>,
    pub body: Seq<Value>,
    pub env: nat,
}

/// The mathematical model of a value.
pub enum Value {
    Nil,
    Fixnum(int),
    Symbol(Seq<char>),
    Cons(Box<Value>, Box<Value>),
    Func(Native),
    Closure(ClosureView),
}

/// The texts of a sequence of strings.
pub open spec fn texts(s: Seq<String>) -> Seq<Seq<char>> {
    Seq::new(s.len(), |i: int| s[i]@)
}

/// The model of an object.
pub open spec fn value_of(o: ObjectKind) -> Value
    decreases o,
{
    match o {
        ObjectKind::Nil => Value::Nil,
        ObjectKind::Fixnum(n) => Value::Fixnum(n as int),
        ObjectKind::Symbol(s) => Value::Symbol(s@),
        ObjectKind::Cons(c) => Value::Cons(
            Box::new(value_of(*c.car)),
            Box::new(value_of(*c.cdr)),
        ),
        ObjectKind::Func(f) => Value::Func(f),
        ObjectKind::Closure(c) => Value::Closure(
            ClosureView {
                id: c.id as nat,
                params: texts(c.params@),
                body: Seq::new(
                    c.body@.len(),
                    |i: int|
                        if 0 <= i < c.body@.len() {
                            value_of(*c.body@[i])
                        } else {
                            Value::Nil
                        },
                ),
                env: c.env as nat,
            },
        ),
    }
}

impl View for ObjectKind {
    type V = Value;

    open spec fn view(&self) -> Value {
        value_of(*self)
    }
}

/// The models of a sequence of objects.
pub open spec fn views(s: Seq<Object>) -> Seq<Value> {
    Seq::new(s.len(), |i: int| s[i]@)
}

/// The pair of two values.
pub open spec fn pair(first: Value, rest: Value) -> Value {
    Value::Cons(Box::new(first), Box::new(rest))
}

/// What the text `s` denotes as a symbol: the empty value for `nil`, a
/// symbol of that name otherwise.
pub open spec fn symbol_value(s: Seq<char>) -> Value {
    if s == "nil"@ {
        Value::Nil
    } else {
        Value::Symbol(s)
    }
}

/// The elements of a chain of pairs, first to last. Whatever ends the chain
/// (the empty value, or any other value that is no pair) is not an element.
pub open spec fn items(v: Value) -> Seq<Value>
    decreases v,
{
    match v {
        Value::Cons(first, rest) => seq![*first].add(items(*rest)),
        _ => Seq::empty(),
    }
}

/// The chain of pairs that holds `elems` in order and ends in `tail`.
pub open spec fn chain(elems: Seq<Value>, tail: Value) -> Value
    decreases elems.len(),
{
    if elems.len() == 0 {
        tail
    } else {
        pair(elems[0], chain(elems.drop_first(), tail))
    }
}

/// The proper list of `elems`.
pub open spec fn list(elems: Seq<Value>) -> Value {
    chain(elems, Value::Nil)
}

/// `Rc::clone` of std: a second handle on the same value.
#[verifier::external_body]
pub(crate) fn share(o: &Object) -> (r: Object)
    ensures
        r == *o,
{
    Rc::clone(o)
}

/// `==` between two `str` of std: true exactly when both hold the same text.
#[verifier::external_body]
pub(crate) fn same_text(a: &str, b: &str) -> (r: bool)
    ensures
        r == (a@ == b@),
{
    a == b
}

impl Cons {
    pub fn new(car: Object, cdr: Object) -> (r: Cons)
        ensures
            r.car == car,
            r.cdr == cdr,
    {
        Cons { car, cdr }
    }

    /// The pair as a value.
    pub open spec fn value(&self) -> Value {
        pair(self.car@, self.cdr@)
    }

    /// An iterator over the elements of the chain that starts at this pair.
    pub fn iter(&self) -> (r: ListIter<'_>)
        ensures
            r.remaining() == items(self.value()),
    {
        ListIter { cons: self, is_end: false }
    }
}

/// Walks a chain of pairs and hands out its elements.
pub struct ListIter<'a> {
    cons: &'a Cons,
    is_end: bool,
}

impl<'a> ListIter<'a> {
    /// The elements not yet handed out.
    pub closed spec fn remaining(&self) -> Seq<Value> {
        if self.is_end {
            Seq::empty()
        } else {
            items(self.cons.value())
        }
    }

    /// Hands out the next element, or `None` when the chain is used up.
    pub fn next(&mut self) -> (r: Option<Object>)
        ensures
            old(self).remaining().len() == 0 ==> r is None && final(self).remaining() == old(
                self,
            ).remaining(),
            old(self).remaining().len() > 0 ==> r is Some && r->0@ == old(self).remaining()[0]
                && final(self).remaining() == old(self).remaining().drop_first(),
    {
        if self.is_end {
            return None;
        }
        let cur: &'a Cons = self.cons;
        match &*cur.cdr {
            ObjectKind::Cons(cons) => {
                let result = Some(share(&cur.car));
                self.cons = cons;
                assert(items(cur.value()).drop_first() =~= items(cons.value()));
                result
            },
            _ => {
                self.is_end = true;
                assert(items(cur.cdr@) =~= Seq::<Value>::empty());
                assert(items(cur.value()).drop_first() =~= Seq::<Value>::empty());
                Some(share(&cur.car))
            },
        }
    }

    /// All elements not yet handed out, in order.
    pub fn collect(self) -> (r: Vec<Object>)
        ensures
            views(r@) == self.remaining(),
    {
        let mut it = self;
        let mut out: Vec<Object> = Vec::new();
        loop
            invariant
                views(out@).add(it.remaining()) == self.remaining(),
            ensures
                views(out@) == self.remaining(),
            decreases it.remaining().len(),
        {
            let ghost before = it.remaining();
            let ghost prefix = views(out@);
            match it.next() {
                Some(x) => {
                    out.push(x);
                    assert(views(out@) =~= prefix.push(before[0]));
                    assert(views(out@).add(it.remaining()) =~= prefix.add(before));
                },
                None => {
                    assert(views(out@).add(it.remaining()) =~= views(out@));
                    break ;
                },
            }
        }
        out
    }
}

pub fn nil() -> (r: Object)
    ensures
        r@ == Value::Nil,
{
    Rc::new(ObjectKind::Nil)
}

pub fn fixnum(n: isize) -> (r: Object)
    ensures
        r@ == Value::Fixnum(n as int),
{
    Rc::new(ObjectKind::Fixnum(n))
}

/// The symbol named `s`; the name `nil` gives the empty value.
pub fn symbol(s: &str) -> (r: Object)
    ensures
        r@ == symbol_value(s@),
{
    if same_text(s, "nil") {
        return nil();
    }
    Rc::new(ObjectKind::Symbol(s.to_owned()))
}

pub fn cons(car: Object, cdr: Object) -> (r: Object)
    ensures
        r@ == pair(car@, cdr@),
{
    Rc::new(ObjectKind::Cons(Cons::new(car, cdr)))
}

/// The closure with the given identity, parameters, body and captured scope.
pub fn closure(id: usize, params: Vec<String>, body: Vec<Object>, env: usize) -> (r: Object)
    ensures
        r@ == Value::Closure(
            ClosureView { id: id as nat, params: texts(params@), body: views(body@), env: env as nat },
        ),
{
    let r = Rc::new(ObjectKind::Closure(Closure { id, params, body, env }));
    assert(views(body@) =~= r@->Closure_0.body);
    r
}

} // verus!
