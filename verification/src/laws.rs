//! Laws of the evaluator, stated over the model and proved from it.

use crate::builtin::{native_spec, plus_spec, wrapping_sum};
use crate::env::EnvView;
use crate::equal::{equal_spec, lemma_equal_reflexive};
use crate::error::Failure;
use crate::eval::{
    apply_spec, args_spec, define_spec, eval_spec, if_spec, lambda_spec, quote_spec, set_spec, sym,
};
use crate::object::{chain, items, list, pair, Native, ObjectType, Value};
use crate::scopes::{law_eval_follows, lemma_holder_exists};
use vstd::prelude::*;

verus! {

/// The elements of a chain are those it was built from, whatever ends it,
/// as long as that is no pair.
pub proof fn lemma_items_chain(elems: Seq<Value>, tail: Value)
    requires
        !(tail is Cons),
    ensures
        items(chain(elems, tail)) == elems,
    decreases elems.len(),
{
    if elems.len() > 0 {
        lemma_items_chain(elems.drop_first(), tail);
        assert(seq![elems[0]].add(elems.drop_first()) =~= elems);
    } else {
        assert(items(tail) =~= elems);
    }
}

/// A name of one, three or four characters other than `set!` is the name
/// of no special form.
proof fn lemma_not_special(name: Seq<char>)
    requires
        name.len() == 1 || name.len() == 3 || name.len() == 4,
        name != "set!"@,
    ensures
        name != "quote"@,
        name != "if"@,
        name != "define"@,
        name != "set!"@,
        name != "lambda"@,
{
    reveal_strlit("quote");
    reveal_strlit("if");
    reveal_strlit("define");
    reveal_strlit("lambda");
    assert("quote"@.len() == 5);
    assert("if"@.len() == 2);
    assert("define"@.len() == 6);
    assert("lambda"@.len() == 6);
}

/// A list whose head is the name of a special form is that form, whatever
/// the environment binds the name to: its arguments are handed over as
/// they stand.
pub proof fn law_special_forms(args: Seq<Value>, e: EnvView, depth: nat)
    ensures
        eval_spec(pair(sym("quote"@), list(args)), e, depth + 1) == (quote_spec(args), e),
        eval_spec(pair(sym("if"@), list(args)), e, depth + 1) == if_spec(args, e, depth),
        eval_spec(pair(sym("define"@), list(args)), e, depth + 1) == define_spec(args, e, depth),
        eval_spec(pair(sym("set!"@), list(args)), e, depth + 1) == set_spec(args, e, depth),
        eval_spec(pair(sym("lambda"@), list(args)), e, depth + 1) == lambda_spec(args, e),
{
    reveal_strlit("quote");
    reveal_strlit("if");
    reveal_strlit("define");
    reveal_strlit("set!");
    reveal_strlit("lambda");
    assert("quote"@.len() == 5);
    assert("if"@.len() == 2);
    assert("define"@.len() == 6 && "define"@[0] == 'd');
    assert("set!"@.len() == 4);
    assert("lambda"@.len() == 6 && "lambda"@[0] == 'l');
    lemma_items_chain(args, Value::Nil);
}

/// `if` counts its arguments before it evaluates any: with fewer than two
/// it fails with `TooFewArguments`, with more than three with
/// `TooManyArguments`, whatever the arguments are.
pub proof fn law_if_counts(args: Seq<Value>, e: EnvView, depth: nat)
    requires
        depth >= 1,
    ensures
        args.len() < 2 ==> eval_spec(pair(sym("if"@), list(args)), e, depth) == (
            Err::<Value, Failure>(Failure::TooFewArguments(args.len(), 2)),
            e,
        ),
        args.len() > 3 ==> eval_spec(pair(sym("if"@), list(args)), e, depth) == (
            Err::<Value, Failure>(Failure::TooManyArguments(args.len(), 3)),
            e,
        ),
{
    law_special_forms(args, e, (depth - 1) as nat);
}

/// `(if test yes no)` evaluates `test` and after it one branch only, in
/// the environment that `test` left: `no` where `test` gave the empty
/// value, `yes` where it gave any other value. Where `no` is left out and
/// `test` gave the empty value, the empty value is the result.
pub proof fn law_if_branches(test: Value, yes: Value, no: Value, e: EnvView, depth: nat)
    ensures
        ({
            let (t, e1) = eval_spec(test, e, depth);
            let both = eval_spec(list(seq![sym("if"@), test, yes, no]), e, depth + 1);
            let one = eval_spec(list(seq![sym("if"@), test, yes]), e, depth + 1);
            match t {
                Err(err) => both == (Err::<Value, Failure>(err), e1) && one == both,
                Ok(Value::Nil) => both == eval_spec(no, e1, depth) && one == (
                    Ok::<Value, Failure>(Value::Nil),
                    e1,
                ),
                Ok(_) => both == eval_spec(yes, e1, depth) && one == both,
            }
        }),
{
    let three = seq![test, yes, no];
    let two = seq![test, yes];
    law_special_forms(three, e, depth);
    law_special_forms(two, e, depth);
    assert(seq![sym("if"@), test, yes, no].drop_first() =~= three);
    assert(seq![sym("if"@), test, yes].drop_first() =~= two);
}

/// Where `car` names the native procedure, `(car (quote v))` fails with
/// `MismatchType(v, Cons)` for every `v` that is no pair, and `(cdr (quote
/// v))` does where `cdr` names its procedure.
pub proof fn law_car_of_atom(v: Value, e: EnvView, depth: nat)
    requires
        !(v is Cons),
        depth >= 3,
    ensures
        e.get("car"@) == Some(Value::Func(Native::Car)) ==> eval_spec(
            list(seq![sym("car"@), list(seq![sym("quote"@), v])]),
            e,
            depth,
        ) == (Err::<Value, Failure>(Failure::MismatchType(v, ObjectType::Cons)), e),
        e.get("cdr"@) == Some(Value::Func(Native::Cdr)) ==> eval_spec(
            list(seq![sym("cdr"@), list(seq![sym("quote"@), v])]),
            e,
            depth,
        ) == (Err::<Value, Failure>(Failure::MismatchType(v, ObjectType::Cons)), e),
{
    reveal_strlit("car");
    reveal_strlit("cdr");
    reveal_strlit("set!");
    assert("car"@.len() == 3);
    assert("cdr"@.len() == 3);
    assert("set!"@.len() == 4);
    lemma_not_special("car"@);
    lemma_not_special("cdr"@);
    let d = (depth - 1) as nat;
    let quoted = list(seq![sym("quote"@), v]);
    law_quote(v, e, d);
    let args = seq![quoted];
    let none = Seq::<Value>::empty();
    lemma_items_chain(args, Value::Nil);
    assert(seq![sym("car"@), quoted].drop_first() =~= args);
    assert(seq![sym("cdr"@), quoted].drop_first() =~= args);
    assert(args_spec(args, 1, none.push(v), e, d) == (Ok::<Seq<Value>, Failure>(none.push(v)), e));
    assert(args_spec(args, 0, none, e, d) == args_spec(args, 1, none.push(v), e, d));
    assert(none.push(v)[0] == v);
    if e.get("car"@) == Some(Value::Func(Native::Car)) {
        assert(eval_spec(sym("car"@), e, d) == (Ok::<Value, Failure>(Value::Func(Native::Car)), e));
        assert(apply_spec(sym("car"@), args, e, d) == (
            Err::<Value, Failure>(Failure::MismatchType(v, ObjectType::Cons)),
            e,
        ));
    }
    if e.get("cdr"@) == Some(Value::Func(Native::Cdr)) {
        assert(eval_spec(sym("cdr"@), e, d) == (Ok::<Value, Failure>(Value::Func(Native::Cdr)), e));
        assert(apply_spec(sym("cdr"@), args, e, d) == (
            Err::<Value, Failure>(Failure::MismatchType(v, ObjectType::Cons)),
            e,
        ));
    }
}

/// Where `atom?` names the native procedure, `(atom?)` fails with
/// `WrongNumArgs(0, 1)`.
pub proof fn law_atom_without_argument(e: EnvView, depth: nat)
    requires
        e.get("atom?"@) == Some(Value::Func(Native::IsAtom)),
        depth >= 2,
    ensures
        eval_spec(list(seq![sym("atom?"@)]), e, depth) == (
            Err::<Value, Failure>(Failure::WrongNumArgs(0, 1)),
            e,
        ),
{
    reveal_strlit("atom?");
    reveal_strlit("quote");
    reveal_strlit("if");
    reveal_strlit("define");
    reveal_strlit("set!");
    reveal_strlit("lambda");
    assert("atom?"@.len() == 5 && "atom?"@[0] == 'a');
    assert("quote"@.len() == 5 && "quote"@[0] == 'q');
    assert("if"@.len() == 2);
    assert("define"@.len() == 6);
    assert("set!"@.len() == 4);
    assert("lambda"@.len() == 6);
    let d = (depth - 1) as nat;
    let none = Seq::<Value>::empty();
    lemma_items_chain(none, Value::Nil);
    assert(seq![sym("atom?"@)].drop_first() =~= none);
    assert(eval_spec(sym("atom?"@), e, d) == (
        Ok::<Value, Failure>(Value::Func(Native::IsAtom)),
        e,
    ));
    assert(args_spec(none, 0, none, e, d) == (Ok::<Seq<Value>, Failure>(none), e));
    assert(apply_spec(sym("atom?"@), none, e, d) == (
        Err::<Value, Failure>(Failure::WrongNumArgs(0, 1)),
        e,
    ));
}

/// `(quote v)` evaluates to `v` itself, whatever `v` is and whatever the
/// environment binds; the environment stays as it was.
pub proof fn law_quote(v: Value, e: EnvView, depth: nat)
    requires
        depth >= 1,
    ensures
        eval_spec(list(seq![sym("quote"@), v]), e, depth) == (Ok::<Value, Failure>(v), e),
{
    let form = list(seq![sym("quote"@), v]);
    let rest = chain(seq![sym("quote"@), v].drop_first(), Value::Nil);
    assert(form == pair(sym("quote"@), rest));
    lemma_items_chain(seq![sym("quote"@), v].drop_first(), Value::Nil);
    assert(seq![sym("quote"@), v].drop_first() =~= seq![v]);
    assert(items(rest) == seq![v]);
    assert(quote_spec(seq![v]) == Ok::<Value, Failure>(v));
}

/// A form whose value is itself evaluates to itself at any depth above 0.
proof fn lemma_literal(n: int, e: EnvView, depth: nat)
    requires
        depth >= 1,
    ensures
        eval_spec(Value::Fixnum(n), e, depth) == (Ok::<Value, Failure>(Value::Fixnum(n)), e),
{
}

/// Where `+` names the native sum, as it does in the global environment
/// (`law_global_natives`), `(+ a b)` evaluates to the sum of `a`
/// and `b`, wrapped round where it leaves the range of the machine's
/// integers, and so to `a + b` itself where that is in range; `(+)`
/// evaluates to 0. The environment stays as it was.
pub proof fn law_plus(a: int, b: int, e: EnvView, depth: nat)
    requires
        isize::MIN <= a <= isize::MAX,
        isize::MIN <= b <= isize::MAX,
        e.get("+"@) == Some(Value::Func(Native::Plus)),
        depth >= 2,
    ensures
        eval_spec(list(seq![sym("+"@), Value::Fixnum(a), Value::Fixnum(b)]), e, depth) == (
            Ok::<Value, Failure>(Value::Fixnum(wrapping_sum(a, b))),
            e,
        ),
        isize::MIN <= a + b <= isize::MAX ==> wrapping_sum(a, b) == a + b,
        eval_spec(list(seq![sym("+"@)]), e, depth) == (Ok::<Value, Failure>(Value::Fixnum(0)), e),
{
    reveal_strlit("+");
    reveal_strlit("set!");
    assert("set!"@.len() == 4);
    lemma_not_special("+"@);
    let d = (depth - 1) as nat;
    let plus = sym("+"@);
    assert(eval_spec(plus, e, d) == (Ok::<Value, Failure>(Value::Func(Native::Plus)), e));

    // (+ a b)
    let elems = seq![plus, Value::Fixnum(a), Value::Fixnum(b)];
    let args = seq![Value::Fixnum(a), Value::Fixnum(b)];
    lemma_items_chain(elems.drop_first(), Value::Nil);
    assert(elems.drop_first() =~= args);
    assert(list(elems) == pair(plus, chain(args, Value::Nil)));
    lemma_literal(a, e, d);
    lemma_literal(b, e, d);
    let none = Seq::<Value>::empty();
    assert(args_spec(args, 2, none.push(args[0]).push(args[1]), e, d) == (
        Ok::<Seq<Value>, Failure>(none.push(args[0]).push(args[1])),
        e,
    ));
    assert(args_spec(args, 1, none.push(args[0]), e, d) == args_spec(
        args,
        2,
        none.push(args[0]).push(args[1]),
        e,
        d,
    ));
    assert(args_spec(args, 0, none, e, d) == args_spec(args, 1, none.push(args[0]), e, d));
    assert(none.push(args[0]).push(args[1]) =~= args);
    assert(args.drop_last() =~= seq![Value::Fixnum(a)]);
    assert(seq![Value::Fixnum(a)].drop_last() =~= none);
    assert(plus_spec(none) == Ok::<Value, Failure>(Value::Fixnum(0)));
    assert(plus_spec(seq![Value::Fixnum(a)]) == Ok::<Value, Failure>(Value::Fixnum(a)));
    assert(plus_spec(args) == Ok::<Value, Failure>(Value::Fixnum(wrapping_sum(a, b))));
    assert(apply_spec(plus, args, e, d) == (
        Ok::<Value, Failure>(Value::Fixnum(wrapping_sum(a, b))),
        e,
    ));

    // (+)
    let alone = seq![plus];
    lemma_items_chain(alone.drop_first(), Value::Nil);
    assert(alone.drop_first() =~= none);
    assert(list(alone) == pair(plus, chain(none, Value::Nil)));
    assert(args_spec(none, 0, none, e, d) == (Ok::<Seq<Value>, Failure>(none), e));
    assert(apply_spec(plus, none, e, d) == (Ok::<Value, Failure>(Value::Fixnum(0)), e));
}

/// Where `cons` names the native pair constructor, `(cons (quote x) (quote
/// y))` evaluates to the pair of `x` and `y` and leaves the environment as
/// it was; `car` and `cdr` of that pair give back `x` and `y`, each equal
/// to what went in under structural equality.
pub proof fn law_cons(x: Value, y: Value, e: EnvView, depth: nat)
    requires
        e.get("cons"@) == Some(Value::Func(Native::Cons)),
        depth >= 3,
    ensures
        eval_spec(
            list(seq![sym("cons"@), list(seq![sym("quote"@), x]), list(seq![sym("quote"@), y])]),
            e,
            depth,
        ) == (Ok::<Value, Failure>(pair(x, y)), e),
        native_spec(Native::Car, seq![pair(x, y)]) == Ok::<Value, Failure>(x),
        native_spec(Native::Cdr, seq![pair(x, y)]) == Ok::<Value, Failure>(y),
        equal_spec(x, x),
        equal_spec(y, y),
{
    reveal_strlit("cons");
    reveal_strlit("set!");
    assert("set!"@.len() == 4);
    assert("cons"@[0] == 'c');
    assert("set!"@[0] == 's');
    lemma_not_special("cons"@);
    lemma_equal_reflexive(x);
    lemma_equal_reflexive(y);
    let d = (depth - 1) as nat;
    let cons = sym("cons"@);
    let qx = list(seq![sym("quote"@), x]);
    let qy = list(seq![sym("quote"@), y]);
    law_quote(x, e, d);
    law_quote(y, e, d);
    assert(eval_spec(cons, e, d) == (Ok::<Value, Failure>(Value::Func(Native::Cons)), e));
    let elems = seq![cons, qx, qy];
    let args = seq![qx, qy];
    lemma_items_chain(elems.drop_first(), Value::Nil);
    assert(elems.drop_first() =~= args);
    assert(list(elems) == pair(cons, chain(args, Value::Nil)));
    let none = Seq::<Value>::empty();
    let vals = none.push(x).push(y);
    assert(args_spec(args, 2, vals, e, d) == (Ok::<Seq<Value>, Failure>(vals), e));
    assert(args_spec(args, 1, none.push(x), e, d) == args_spec(args, 2, vals, e, d));
    assert(args_spec(args, 0, none, e, d) == args_spec(args, 1, none.push(x), e, d));
    assert(native_spec(Native::Cons, vals) == Ok::<Value, Failure>(pair(x, y)));
    assert(apply_spec(cons, args, e, d) == (Ok::<Value, Failure>(pair(x, y)), e));
}

/// `(set! name n)` fails with `UnboundVariable(name)` where no enclosing
/// scope binds `name`, and leaves the environment as it was.
pub proof fn law_set_unbound(name: Seq<char>, n: int, e: EnvView, depth: nat)
    requires
        e.get(name) is None,
        depth >= 2,
    ensures
        eval_spec(list(seq![sym("set!"@), sym(name), Value::Fixnum(n)]), e, depth) == (
            Err::<Value, Failure>(Failure::UnboundVariable(name)),
            e,
        ),
{
    reveal_strlit("set!");
    reveal_strlit("quote");
    reveal_strlit("if");
    reveal_strlit("define");
    assert("set!"@.len() == 4);
    assert("quote"@.len() == 5);
    assert("if"@.len() == 2);
    assert("define"@.len() == 6);
    let d = (depth - 1) as nat;
    let elems = seq![sym("set!"@), sym(name), Value::Fixnum(n)];
    let args = seq![sym(name), Value::Fixnum(n)];
    lemma_items_chain(elems.drop_first(), Value::Nil);
    assert(elems.drop_first() =~= args);
    assert(list(elems) == pair(sym("set!"@), chain(args, Value::Nil)));
    lemma_literal(n, e, d);
    assert(set_spec(args, e, d) == (Err::<Value, Failure>(Failure::UnboundVariable(name)), e));
}

/// Binding `name` in a scope leaves the holder of every other name as it
/// was.
proof fn lemma_holder_other(
    e: EnvView,
    s: nat,
    name: Seq<char>,
    value: Value,
    scope: nat,
    other: Seq<char>,
)
    requires
        s < e.scopes.len(),
        other != name,
    ensures
        e.bind_in(s, name, value).holder(scope, other) == e.holder(scope, other),
    decreases scope,
{
    let after = e.bind_in(s, name, value);
    if scope < e.scopes.len() {
        assert(after.scopes[scope as int].table.dom().contains(other)
            == e.scopes[scope as int].table.dom().contains(other));
        if !e.scopes[scope as int].table.dom().contains(other) {
            match e.scopes[scope as int].parent {
                Some(p) => {
                    if p < scope {
                        lemma_holder_other(e, s, name, value, p, other);
                    }
                },
                None => {},
            }
        }
    }
}

/// Binding `name` in a scope that binds it already leaves the holder of
/// `name` as it was.
proof fn lemma_holder_same(e: EnvView, s: nat, name: Seq<char>, value: Value, scope: nat)
    requires
        s < e.scopes.len(),
        e.scopes[s as int].table.dom().contains(name),
    ensures
        e.bind_in(s, name, value).holder(scope, name) == e.holder(scope, name),
    decreases scope,
{
    let after = e.bind_in(s, name, value);
    if scope < e.scopes.len() {
        assert(after.scopes[scope as int].table.dom().contains(name)
            == e.scopes[scope as int].table.dom().contains(name));
        if !e.scopes[scope as int].table.dom().contains(name) {
            match e.scopes[scope as int].parent {
                Some(p) => {
                    if p < scope {
                        lemma_holder_same(e, s, name, value, p);
                    }
                },
                None => {},
            }
        }
    }
}

/// A name has the value it was last bound to in the current scope.
pub proof fn law_insert_get(e: EnvView, name: Seq<char>, value: Value)
    requires
        e.wf(),
    ensures
        e.insert(name, value).get(name) == Some(value),
{
}

/// Binding a name in the current scope changes the value of no other name.
pub proof fn law_insert_get_other(e: EnvView, name: Seq<char>, value: Value, other: Seq<char>)
    requires
        e.wf(),
        other != name,
    ensures
        e.insert(name, value).get(other) == e.get(other),
{
    lemma_holder_other(e, e.current, name, value, e.current, other);
    lemma_holder_exists(e, e.current, other);
}

/// A name can be rebound exactly when it has a value; it then has the
/// value it was rebound to, and every other name has the value it had.
pub proof fn law_set_get(e: EnvView, name: Seq<char>, value: Value, other: Seq<char>)
    requires
        e.wf(),
        other != name,
    ensures
        e.set(name, value) is Some <==> e.get(name) is Some,
        e.set(name, value) matches Some(after) ==> after.get(name) == Some(value) && after.get(
            other,
        ) == e.get(other),
{
    lemma_holder_exists(e, e.current, name);
    lemma_holder_exists(e, e.current, other);
    match e.holder(e.current, name) {
        Some(s) => {
            lemma_holder_same(e, s, name, value, e.current);
            lemma_holder_other(e, s, name, value, e.current, other);
        },
        None => {},
    }
}

/// The environment that binds the native procedures and nothing else is
/// well formed, and gives each of the six names its procedure.
pub proof fn law_global_natives()
    ensures
        EnvView::empty().with_natives().wf(),
        EnvView::empty().with_natives().get("+"@) == Some(Value::Func(Native::Plus)),
        EnvView::empty().with_natives().get("atom?"@) == Some(Value::Func(Native::IsAtom)),
        EnvView::empty().with_natives().get("cons"@) == Some(Value::Func(Native::Cons)),
        EnvView::empty().with_natives().get("car"@) == Some(Value::Func(Native::Car)),
        EnvView::empty().with_natives().get("cdr"@) == Some(Value::Func(Native::Cdr)),
        EnvView::empty().with_natives().get("equal"@) == Some(Value::Func(Native::Equal)),
{
    reveal_strlit("+");
    reveal_strlit("atom?");
    reveal_strlit("cons");
    reveal_strlit("car");
    reveal_strlit("cdr");
    reveal_strlit("equal");
    assert("+"@.len() == 1);
    assert("atom?"@.len() == 5);
    assert("cons"@.len() == 4);
    assert("car"@.len() == 3 && "car"@[1] == 'a');
    assert("cdr"@.len() == 3 && "cdr"@[1] == 'd');
    assert("equal"@.len() == 5 && "equal"@[0] == 'e' && "atom?"@[0] == 'a');
    let e0 = EnvView::empty();
    let e1 = e0.insert("+"@, Value::Func(Native::Plus));
    let e2 = e1.insert("atom?"@, Value::Func(Native::IsAtom));
    let e3 = e2.insert("cons"@, Value::Func(Native::Cons));
    let e4 = e3.insert("car"@, Value::Func(Native::Car));
    let e5 = e4.insert("cdr"@, Value::Func(Native::Cdr));
    let e6 = e5.insert("equal"@, Value::Func(Native::Equal));
    assert(e6 == e0.with_natives());
    assert(e6.scopes[0].table.dom().contains("+"@));
    assert(e6.scopes[0].table["+"@] == Value::Func(Native::Plus));
    assert(e6.scopes[0].table["atom?"@] == Value::Func(Native::IsAtom));
    assert(e6.scopes[0].table["cons"@] == Value::Func(Native::Cons));
    assert(e6.scopes[0].table["car"@] == Value::Func(Native::Car));
    assert(e6.scopes[0].table["cdr"@] == Value::Func(Native::Cdr));
    assert(e6.scopes[0].table["equal"@] == Value::Func(Native::Equal));
}

/// After `(define name form)` gave a value, `name` evaluates to that value.
pub proof fn law_define_then_lookup(name: Seq<char>, form: Value, e: EnvView, depth: nat)
    requires
        e.wf(),
        depth >= 1,
    ensures
        ({
            let (r, after) = eval_spec(
                list(seq![sym("define"@), sym(name), form]),
                e,
                depth + 1,
            );
            r matches Ok(v) ==> eval_spec(sym(name), after, depth) == (Ok::<Value, Failure>(v), after)
        }),
{
    law_special_forms(seq![sym(name), form], e, depth);
    assert(seq![sym("define"@), sym(name), form].drop_first() =~= seq![sym(name), form]);
    law_eval_follows(form, e, depth);
    let (r, e1) = eval_spec(form, e, depth);
    match r {
        Ok(v) => {
            law_insert_get(e1, name, v);
        },
        Err(_) => {},
    }
}

/// After `(set! name form)` gave a value, `name` evaluates to that value.
pub proof fn law_set_then_lookup(name: Seq<char>, form: Value, e: EnvView, depth: nat)
    requires
        e.wf(),
        depth >= 1,
    ensures
        ({
            let (r, after) = eval_spec(list(seq![sym("set!"@), sym(name), form]), e, depth + 1);
            r matches Ok(v) ==> eval_spec(sym(name), after, depth) == (Ok::<Value, Failure>(v), after)
        }),
{
    law_special_forms(seq![sym(name), form], e, depth);
    assert(seq![sym("set!"@), sym(name), form].drop_first() =~= seq![sym(name), form]);
    law_eval_follows(form, e, depth);
    let (r, e1) = eval_spec(form, e, depth);
    match r {
        Ok(v) => {
            lemma_holder_exists(e1, e1.current, name);
            match e1.holder(e1.current, name) {
                Some(s) => {
                    lemma_holder_same(e1, s, name, v, e1.current);
                },
                None => {},
            }
        },
        Err(_) => {},
    }
}

} // verus!
