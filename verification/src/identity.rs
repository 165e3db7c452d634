//! The closures of an environment: each has an identity of its own and a
//! captured scope that exists.
//!
//! A closure is held by an environment when its identity is below the
//! environment's count of closures and its captured scope is a scope of
//! the environment that is no younger than the closure. Evaluation keeps
//! every closure held, for as long as the count does not reach the largest
//! `usize`: so a closure made by `lambda` differs from every closure made
//! before, and no scope is discarded that a closure captured.

use crate::builtin::{native_spec, plus_spec};
use crate::env::EnvView;
use crate::equal::equal_spec;
use crate::error::Failure;
use crate::eval::{
    apply_spec, args_spec, bind_spec, body_spec, closure_spec, define_spec, eval_spec, if_spec,
    lambda_spec, set_spec,
};
use crate::object::{items, ClosureView, Native, Value};
use crate::scopes::{
    grows, law_eval_follows, lemma_args_follows, lemma_bind_params_follows,
    lemma_body_follows, lemma_closure_follows, lemma_holder_exists,
};
use vstd::prelude::*;

verus! {

/// The closure `c` is one of `e`: its identity was given out, its captured
/// scope exists, and that scope was made before the closure was.
pub open spec fn held(c: ClosureView, e: EnvView) -> bool {
    &&& c.id < e.closures
    &&& c.env < e.scopes.len()
    &&& e.scopes[c.env as int].born <= c.id
}

/// Every closure in `v` is held by `e`.
pub open spec fn known(v: Value, e: EnvView) -> bool
    decreases v,
{
    match v {
        Value::Cons(first, rest) => known(*first, e) && known(*rest, e),
        Value::Closure(c) => held(c, e) && forall|i: int|
            0 <= i < c.body.len() ==> known(#[trigger] c.body[i], e),
        _ => true,
    }
}

/// There is no closure in `v`.
pub open spec fn plain(v: Value) -> bool
    decreases v,
{
    match v {
        Value::Cons(first, rest) => plain(*first) && plain(*rest),
        Value::Closure(_) => false,
        _ => true,
    }
}

/// A value without closures is known to every environment.
pub proof fn lemma_plain_known(v: Value, e: EnvView)
    requires
        plain(v),
    ensures
        known(v, e),
    decreases v,
{
    match v {
        Value::Cons(first, rest) => {
            lemma_plain_known(*first, e);
            lemma_plain_known(*rest, e);
        },
        _ => {},
    }
}

/// Every value in `s` is known to `e`.
pub open spec fn all_known(s: Seq<Value>, e: EnvView) -> bool {
    forall|i: int| 0 <= i < s.len() ==> known(#[trigger] s[i], e)
}

/// Every value bound in `e` is known to `e`, and no scope of `e` is
/// younger than its count of closures says.
pub open spec fn env_known(e: EnvView) -> bool {
    &&& forall|s: int, name: Seq<char>|
        0 <= s < e.scopes.len() && e.scopes[s].table.dom().contains(name) ==> known(
            #[trigger] e.scopes[s].table[name],
            e,
        )
    &&& forall|s: int| 0 <= s < e.scopes.len() ==> (#[trigger] e.scopes[s]).born <= e.closures
}

/// A value known to an environment is known to every environment that
/// grows from it.
pub proof fn lemma_known_grows(v: Value, e: EnvView, after: EnvView)
    requires
        known(v, e),
        grows(e, after),
    ensures
        known(v, after),
    decreases v,
{
    match v {
        Value::Cons(first, rest) => {
            lemma_known_grows(*first, e, after);
            lemma_known_grows(*rest, e, after);
        },
        Value::Closure(c) => {
            assert(after.scopes[c.env as int].born == e.scopes[c.env as int].born);
            assert forall|i: int| 0 <= i < c.body.len() implies known(
                #[trigger] c.body[i],
                after,
            ) by {
                lemma_known_grows(c.body[i], e, after);
            }
        },
        _ => {},
    }
}

proof fn lemma_all_known_grows(s: Seq<Value>, e: EnvView, after: EnvView)
    requires
        all_known(s, e),
        grows(e, after),
    ensures
        all_known(s, after),
{
    assert forall|i: int| 0 <= i < s.len() implies known(#[trigger] s[i], after) by {
        lemma_known_grows(s[i], e, after);
    }
}

/// A value known to an environment is known to it without its newest scope,
/// where every closure is older than that scope.
proof fn lemma_known_without_newest(v: Value, e: EnvView, after: EnvView)
    requires
        known(v, e),
        e.scopes.len() > 0,
        e.scopes.last().born >= e.closures,
        after.scopes == e.scopes.drop_last(),
        after.closures == e.closures,
    ensures
        known(v, after),
    decreases v,
{
    match v {
        Value::Cons(first, rest) => {
            lemma_known_without_newest(*first, e, after);
            lemma_known_without_newest(*rest, e, after);
        },
        Value::Closure(c) => {
            assert(e.scopes.last() == e.scopes[e.scopes.len() - 1]);
            assert(c.env < e.scopes.len() - 1);
            assert(after.scopes[c.env as int] == e.scopes[c.env as int]);
            assert forall|i: int| 0 <= i < c.body.len() implies known(
                #[trigger] c.body[i],
                after,
            ) by {
                lemma_known_without_newest(c.body[i], e, after);
            }
        },
        _ => {},
    }
}

/// The elements of a known chain are known.
proof fn lemma_items_known(v: Value, e: EnvView)
    requires
        known(v, e),
    ensures
        all_known(items(v), e),
    decreases v,
{
    match v {
        Value::Cons(first, rest) => {
            lemma_items_known(*rest, e);
            assert forall|i: int| 0 <= i < items(v).len() implies known(
                #[trigger] items(v)[i],
                e,
            ) by {
                if i > 0 {
                    assert(items(v)[i] == items(*rest)[i - 1]);
                }
            }
        },
        _ => {},
    }
}

proof fn lemma_plus_number(args: Seq<Value>)
    ensures
        plus_spec(args) matches Ok(v) ==> v is Fixnum,
    decreases args.len(),
{
    if args.len() > 0 {
        lemma_plus_number(args.drop_last());
    }
}

/// What a native procedure makes of known values is known.
proof fn lemma_native_known(f: Native, args: Seq<Value>, e: EnvView)
    requires
        all_known(args, e),
    ensures
        native_spec(f, args) matches Ok(v) ==> known(v, e),
{
    lemma_plus_number(args);
    if args.len() >= 1 {
        assert(known(args[0], e));
    }
    if args.len() >= 2 {
        assert(known(args[1], e));
    }
}

/// A name's value in a known environment is known.
proof fn lemma_get_known(e: EnvView, name: Seq<char>)
    requires
        env_known(e),
    ensures
        e.get(name) matches Some(v) ==> known(v, e),
{
    lemma_holder_exists(e, e.current, name);
}

/// An environment stays known where its tables are kept or hold known
/// values, and its scopes and count of closures grow.
proof fn lemma_env_known_grows(e: EnvView, after: EnvView)
    requires
        env_known(e),
        grows(e, after),
        forall|s: int, name: Seq<char>|
            0 <= s < after.scopes.len() && after.scopes[s].table.dom().contains(name) ==> (s
                < e.scopes.len() && e.scopes[s].table.dom().contains(name)
                && #[trigger] after.scopes[s].table[name] == e.scopes[s].table[name]) || known(
                after.scopes[s].table[name],
                after,
            ),
        forall|s: int|
            e.scopes.len() <= s < after.scopes.len() ==> (#[trigger] after.scopes[s]).born
                <= after.closures,
    ensures
        env_known(after),
{
    assert forall|s: int, name: Seq<char>|
        0 <= s < after.scopes.len() && after.scopes[s].table.dom().contains(name) implies known(
        #[trigger] after.scopes[s].table[name],
        after,
    ) by {
        if s < e.scopes.len() && e.scopes[s].table.dom().contains(name) && after.scopes[s].table[name]
            == e.scopes[s].table[name] {
            lemma_known_grows(e.scopes[s].table[name], e, after);
        }
    }
    assert forall|s: int| 0 <= s < after.scopes.len() implies (#[trigger] after.scopes[s]).born
        <= after.closures by {
        if s < e.scopes.len() {
            assert(after.scopes[s].born == e.scopes[s].born);
        }
    }
}

/// Binding a known value in a scope of a known environment leaves the
/// environment known.
pub proof fn lemma_bind_known(e: EnvView, scope: nat, name: Seq<char>, value: Value)
    requires
        e.wf(),
        env_known(e),
        scope < e.scopes.len(),
        known(value, e),
    ensures
        env_known(e.bind_in(scope, name, value)),
        grows(e, e.bind_in(scope, name, value)),
{
    let after = e.bind_in(scope, name, value);
    assert(grows(e, after));
    lemma_known_grows(value, e, after);
    assert forall|s: int, other: Seq<char>|
        0 <= s < after.scopes.len() && after.scopes[s].table.dom().contains(other) implies (s
        < e.scopes.len() && e.scopes[s].table.dom().contains(other)
        && #[trigger] after.scopes[s].table[other] == e.scopes[s].table[other]) || known(
        after.scopes[s].table[other],
        after,
    ) by {
        if s == scope && other == name {
        } else {
            assert(e.scopes[s].table.dom().contains(other));
        }
    }
    lemma_env_known_grows(e, after);
}

proof fn lemma_bind_params_known(params: Seq<Seq<char>>, args: Seq<Value>, i: nat, e: EnvView)
    requires
        e.wf(),
        env_known(e),
        all_known(args, e),
        args.len() == params.len(),
    ensures
        env_known(bind_spec(params, args, i, e)),
    decreases params.len() - i,
{
    if i < params.len() {
        assert(known(args[i as int], e));
        let e1 = e.insert(params[i as int], args[i as int]);
        lemma_bind_known(e, e.current, params[i as int], args[i as int]);
        lemma_all_known_grows(args, e, e1);
        lemma_bind_params_known(params, args, i + 1, e1);
    }
}

/// What holds after a step that began in a known environment: unless the
/// count of closures reached the largest `usize`, the environment is known
/// again, and so is the value, if there is one.
pub open spec fn stays_known(r: Result<Value, Failure>, after: EnvView) -> bool {
    after.closures < usize::MAX ==> env_known(after) && (r matches Ok(v) ==> known(v, after))
}

/// Evaluation keeps closures held. Where the environment holds every
/// closure in the form and in its own bindings, the environment afterwards
/// holds every closure in the value and in its bindings, unless the count
/// of closures reached the largest `usize`. So the captured scope of every
/// closure exists: no scope is discarded that a closure captured.
pub proof fn law_eval_known(x: Value, e: EnvView, depth: nat)
    requires
        e.wf(),
        env_known(e),
        known(x, e),
    ensures
        stays_known(eval_spec(x, e, depth).0, eval_spec(x, e, depth).1),
    decreases depth, 0nat, 0nat,
{
    if depth > 0 {
        let d = (depth - 1) as nat;
        match x {
            Value::Symbol(name) => {
                lemma_get_known(e, name);
            },
            Value::Cons(first, rest) => {
                let args = items(*rest);
                lemma_items_known(*rest, e);
                if args.len() >= 1 {
                    assert(known(args[0], e));
                }
                lemma_if_known(args, e, d);
                lemma_define_known(args, e, d);
                lemma_set_known(args, e, d);
                lemma_lambda_known(args, e);
                lemma_apply_known(*first, args, e, d);
            },
            _ => {},
        }
    }
}

/// The closure that `lambda` makes is held by the environment it leaves.
proof fn lemma_lambda_known(args: Seq<Value>, e: EnvView)
    requires
        e.wf(),
        env_known(e),
        all_known(args, e),
    ensures
        stays_known(lambda_spec(args, e).0, lambda_spec(args, e).1),
{
    let (r, after) = lambda_spec(args, e);
    match r {
        Ok(v) => {
            if after.closures < usize::MAX {
                assert(grows(e, after));
                lemma_env_known_grows(e, after);
                let body = args.skip(1);
                assert forall|i: int| 0 <= i < body.len() implies known(
                    #[trigger] body[i],
                    after,
                ) by {
                    assert(body[i] == args[i + 1]);
                    lemma_known_grows(args[i + 1], e, after);
                }
                assert(e.scopes[e.current as int].born <= e.closures);
            }
        },
        Err(_) => {},
    }
}

proof fn lemma_if_known(args: Seq<Value>, e: EnvView, d: nat)
    requires
        e.wf(),
        env_known(e),
        all_known(args, e),
    ensures
        stays_known(if_spec(args, e, d).0, if_spec(args, e, d).1),
    decreases d, 1nat, 0nat,
{
    if args.len() >= 2 && args.len() <= 3 {
        assert(known(args[0], e));
        assert(known(args[1], e));
        law_eval_known(args[0], e, d);
        law_eval_follows(args[0], e, d);
        let e1 = eval_spec(args[0], e, d).1;
        law_eval_follows(args[1], e1, d);
        if args.len() == 3 {
            law_eval_follows(args[2], e1, d);
        }
        if e1.closures < usize::MAX {
            lemma_known_grows(args[1], e, e1);
            law_eval_known(args[1], e1, d);
            if args.len() == 3 {
                assert(known(args[2], e));
                lemma_known_grows(args[2], e, e1);
                law_eval_known(args[2], e1, d);
            }
        }
    }
}

proof fn lemma_define_known(args: Seq<Value>, e: EnvView, d: nat)
    requires
        e.wf(),
        env_known(e),
        all_known(args, e),
    ensures
        stays_known(define_spec(args, e, d).0, define_spec(args, e, d).1),
    decreases d, 1nat, 0nat,
{
    if args.len() == 2 {
        match args[0] {
            Value::Symbol(name) => {
                assert(known(args[1], e));
                law_eval_known(args[1], e, d);
                law_eval_follows(args[1], e, d);
                let (r, e1) = eval_spec(args[1], e, d);
                match r {
                    Ok(v) => {
                        if e1.closures < usize::MAX {
                            lemma_bind_known(e1, e1.current, name, v);
                            lemma_known_grows(v, e1, e1.insert(name, v));
                        }
                    },
                    Err(_) => {},
                }
            },
            _ => {},
        }
    }
}

proof fn lemma_set_known(args: Seq<Value>, e: EnvView, d: nat)
    requires
        e.wf(),
        env_known(e),
        all_known(args, e),
    ensures
        stays_known(set_spec(args, e, d).0, set_spec(args, e, d).1),
    decreases d, 1nat, 0nat,
{
    if args.len() == 2 {
        match args[0] {
            Value::Symbol(name) => {
                assert(known(args[1], e));
                law_eval_known(args[1], e, d);
                law_eval_follows(args[1], e, d);
                let (r, e1) = eval_spec(args[1], e, d);
                match r {
                    Ok(v) => {
                        if e1.closures < usize::MAX {
                            lemma_holder_exists(e1, e1.current, name);
                            match e1.holder(e1.current, name) {
                                Some(s) => {
                                    lemma_bind_known(e1, s, name, v);
                                    lemma_known_grows(v, e1, e1.bind_in(s, name, v));
                                },
                                None => {},
                            }
                        }
                    },
                    Err(_) => {},
                }
            },
            _ => {},
        }
    }
}

/// What holds after the arguments of a call were evaluated.
spec fn args_known(r: Result<Seq<Value>, Failure>, after: EnvView) -> bool {
    after.closures < usize::MAX ==> env_known(after) && (r matches Ok(vs) ==> all_known(vs, after))
}

proof fn lemma_args_known(forms: Seq<Value>, i: nat, acc: Seq<Value>, e: EnvView, d: nat)
    requires
        e.wf(),
        env_known(e),
        all_known(forms, e),
        all_known(acc, e),
    ensures
        args_known(args_spec(forms, i, acc, e, d).0, args_spec(forms, i, acc, e, d).1),
    decreases d, 1nat, forms.len() - i,
{
    if i < forms.len() {
        assert(known(forms[i as int], e));
        law_eval_known(forms[i as int], e, d);
        law_eval_follows(forms[i as int], e, d);
        let (r, e1) = eval_spec(forms[i as int], e, d);
        match r {
            Ok(v) => {
                lemma_args_follows(forms, i + 1, acc.push(v), e1, d);
                if e1.closures < usize::MAX {
                    lemma_all_known_grows(forms, e, e1);
                    lemma_all_known_grows(acc, e, e1);
                    assert forall|k: int| 0 <= k < acc.push(v).len() implies known(
                        #[trigger] acc.push(v)[k],
                        e1,
                    ) by {
                        if k < acc.len() {
                            assert(acc.push(v)[k] == acc[k]);
                        }
                    }
                    lemma_args_known(forms, i + 1, acc.push(v), e1, d);
                }
            },
            Err(_) => {},
        }
    }
}

proof fn lemma_body_known(forms: Seq<Value>, i: nat, last: Value, e: EnvView, d: nat)
    requires
        e.wf(),
        env_known(e),
        all_known(forms, e),
        known(last, e),
    ensures
        stays_known(body_spec(forms, i, last, e, d).0, body_spec(forms, i, last, e, d).1),
    decreases d, 1nat, forms.len() - i,
{
    if i < forms.len() {
        assert(known(forms[i as int], e));
        law_eval_known(forms[i as int], e, d);
        law_eval_follows(forms[i as int], e, d);
        let (r, e1) = eval_spec(forms[i as int], e, d);
        match r {
            Ok(v) => {
                lemma_body_follows(forms, i + 1, v, e1, d);
                if e1.closures < usize::MAX {
                    lemma_all_known_grows(forms, e, e1);
                    lemma_body_known(forms, i + 1, v, e1, d);
                }
            },
            Err(_) => {},
        }
    }
}

/// A call leaves every closure held: the scope it made is discarded only
/// where no closure can have captured it.
proof fn lemma_closure_known(c: ClosureView, args: Seq<Value>, e: EnvView, d: nat)
    requires
        e.wf(),
        env_known(e),
        known(Value::Closure(c), e),
        all_known(args, e),
    ensures
        stays_known(closure_spec(c, args, e, d).0, closure_spec(c, args, e, d).1),
    decreases d, 1nat, c.body.len() + 1,
{
    if args.len() == c.params.len() {
        let n = e.scopes.len();
        let entered = e.child_scope(c.env).switch_to(n);
        assert(grows(e, entered));
        assert(entered.scopes[n as int].table.dom() =~= Set::<Seq<char>>::empty());
        lemma_env_known_grows(e, entered);
        lemma_all_known_grows(args, e, entered);
        lemma_bind_params_known(c.params, args, 0, entered);
        lemma_bind_params_follows(c.params, args, 0, entered);
        let inner = bind_spec(c.params, args, 0, entered);
        assert(all_known(c.body, e));
        lemma_all_known_grows(c.body, e, inner);
        lemma_body_known(c.body, 0, Value::Nil, inner, d);
        lemma_body_follows(c.body, 0, Value::Nil, inner, d);
        let (r, e1) = body_spec(c.body, 0, Value::Nil, inner, d);
        let back = e1.switch_to(e.current);
        let out = back.release(n, e.closures);
        if out.closures < usize::MAX {
            assert(grows(e1, back));
            lemma_env_known_grows(e1, back);
            assert(r matches Ok(v) ==> known(v, back)) by {
                match r {
                    Ok(v) => {
                        assert(grows(e1, back));
                        lemma_known_grows(v, e1, back);
                    },
                    Err(_) => {},
                }
            }
            if out != back {
                assert(back.scopes.last() == back.scopes[n as int]);
                assert(back.scopes[n as int].born == entered.scopes[n as int].born);
                assert forall|s: int, name: Seq<char>|
                    0 <= s < out.scopes.len() && out.scopes[s].table.dom().contains(
                        name,
                    ) implies known(#[trigger] out.scopes[s].table[name], out) by {
                    assert(out.scopes[s] == back.scopes[s]);
                    lemma_known_without_newest(back.scopes[s].table[name], back, out);
                }
                assert forall|s: int| 0 <= s < out.scopes.len() implies (
                #[trigger] out.scopes[s]).born <= out.closures by {
                    assert(out.scopes[s] == back.scopes[s]);
                }
                match r {
                    Ok(v) => {
                        lemma_known_without_newest(v, back, out);
                    },
                    Err(_) => {},
                }
            }
        }
    }
}

proof fn lemma_apply_known(f: Value, args: Seq<Value>, e: EnvView, d: nat)
    requires
        e.wf(),
        env_known(e),
        known(f, e),
        all_known(args, e),
    ensures
        stays_known(apply_spec(f, args, e, d).0, apply_spec(f, args, e, d).1),
    decreases d, 2nat, 0nat,
{
    law_eval_known(f, e, d);
    law_eval_follows(f, e, d);
    let (callee, e1) = eval_spec(f, e, d);
    match callee {
        Ok(proc) => {
            lemma_args_follows(args, 0, Seq::empty(), e1, d);
            let (vals, e2) = args_spec(args, 0, Seq::empty(), e1, d);
            if e1.closures < usize::MAX {
                lemma_all_known_grows(args, e, e1);
                lemma_args_known(args, 0, Seq::empty(), e1, d);
            }
            match vals {
                Ok(vs) => {
                    match proc {
                        Value::Closure(c) => {
                            lemma_closure_follows(c, vs, e2, d);
                        },
                        _ => {},
                    }
                    if e2.closures < usize::MAX {
                        lemma_known_grows(proc, e1, e2);
                        match proc {
                            Value::Func(native) => {
                                lemma_native_known(native, vs, e2);
                            },
                            Value::Closure(c) => {
                                lemma_closure_known(c, vs, e2, d);
                            },
                            _ => {},
                        }
                    }
                },
                Err(_) => {},
            }
        },
        Err(_) => {},
    }
}

/// The environment that binds the native procedures and nothing else holds
/// no closure, so all its values are known.
pub proof fn law_global_known()
    ensures
        env_known(EnvView::empty().with_natives()),
{
    let e0 = EnvView::empty();
    let e1 = e0.insert("+"@, Value::Func(Native::Plus));
    let e2 = e1.insert("atom?"@, Value::Func(Native::IsAtom));
    let e3 = e2.insert("cons"@, Value::Func(Native::Cons));
    let e4 = e3.insert("car"@, Value::Func(Native::Car));
    let e5 = e4.insert("cdr"@, Value::Func(Native::Cdr));
    lemma_bind_known(e0, 0, "+"@, Value::Func(Native::Plus));
    lemma_bind_known(e1, 0, "atom?"@, Value::Func(Native::IsAtom));
    lemma_bind_known(e2, 0, "cons"@, Value::Func(Native::Cons));
    lemma_bind_known(e3, 0, "car"@, Value::Func(Native::Car));
    lemma_bind_known(e4, 0, "cdr"@, Value::Func(Native::Cdr));
    lemma_bind_known(e5, 0, "equal"@, Value::Func(Native::Equal));
}

/// A closure that `lambda` makes is equal to no closure that the
/// environment held before: its identity is new.
pub proof fn law_lambda_is_new(args: Seq<Value>, e: EnvView, v: Value)
    requires
        known(v, e),
        v is Closure,
    ensures
        lambda_spec(args, e).0 matches Ok(made) ==> !equal_spec(made, v) && !equal_spec(v, made),
{
}

} // verus!
