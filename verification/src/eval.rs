//! The evaluator: what a form means in an environment, and the function
//! that computes it.
//!
//! The meaning is given by `eval_spec` and the functions beside it. They
//! take a depth: the number of evaluations that may still be nested inside
//! one another. A form that needs more ends in `RecursionLimit`; any other
//! result is the result at every greater depth (see `depth`).
//!
//! Integers are added as the machine adds them when it does not check:
//! a sum that leaves their range wraps round.

use crate::builtin::{
    call_native, check_num_args, check_num_args_range, count_error, native_spec, range_error,
};
use crate::env::{Env, EnvView};
use crate::error::{outcome, EvalResult, Failure, Outcome, RuntimeError};
use crate::object::{
    closure, items, nil, same_text, share, texts, views, Closure, ClosureView, Object, ObjectKind,
    ObjectType, Value,
};
use crate::identity::{env_known, known, law_eval_known, stays_known};
use crate::scopes::{follows, law_eval_follows};
use vstd::prelude::*;

verus! {

/// How deep `eval` follows nested evaluations: deep enough for ordinary
/// programs, shallow enough for the stack of an ordinary thread.
pub const MAX_DEPTH: usize = 1000;

/// The symbol named `name`.
pub open spec fn sym(name: Seq<char>) -> Value {
    Value::Symbol(name)
}

/// `(quote x)`: `x` itself.
pub open spec fn quote_spec(args: Seq<Value>) -> Outcome {
    match count_error(args.len(), 1) {
        Some(e) => Err(e),
        None => Ok(args[0]),
    }
}

/// The names of a parameter list; the first element that is no symbol is
/// the error.
pub open spec fn params_spec(list: Seq<Value>) -> Result<Seq<Seq<char>>, Failure>
    decreases list.len(),
{
    if list.len() == 0 {
        Ok(Seq::empty())
    } else {
        match params_spec(list.drop_last()) {
            Ok(names) => match list.last() {
                Value::Symbol(name) => Ok(names.push(name)),
                other => Err(Failure::MismatchType(other, ObjectType::Symbol)),
            },
            Err(e) => Err(e),
        }
    }
}

/// `(lambda params body...)`: a new closure over the current scope. The
/// parameters are a chain of symbols or the empty value; the body is taken
/// as it stands.
pub open spec fn lambda_spec(args: Seq<Value>, e: EnvView) -> (Outcome, EnvView) {
    if args.len() == 0 {
        (Err(Failure::TooFewArguments(0, 1)), e)
    } else {
        let names = match args[0] {
            Value::Cons(_, _) => params_spec(items(args[0])),
            Value::Nil => Ok(Seq::empty()),
            other => Err(Failure::MismatchType(other, ObjectType::List)),
        };
        match names {
            Ok(params) => (
                Ok(
                    Value::Closure(
                        ClosureView { id: e.closures, params, body: args.skip(1), env: e.current },
                    ),
                ),
                e.count_closure(),
            ),
            Err(err) => (Err(err), e),
        }
    }
}

/// The environment after the parameters from place `i` on were bound to the
/// arguments at the same places, in order, in the current scope.
pub open spec fn bind_spec(params: Seq<Seq<char>>, args: Seq<Value>, i: nat, e: EnvView) -> EnvView
    decreases params.len() - i,
{
    if i >= params.len() {
        e
    } else {
        bind_spec(params, args, i + 1, e.insert(params[i as int], args[i as int]))
    }
}

/// What `x` evaluates to in `e`, and the environment afterwards.
pub open spec fn eval_spec(x: Value, e: EnvView, depth: nat) -> (Outcome, EnvView)
    decreases depth, 0nat, 0nat,
{
    if depth == 0 {
        (Err(Failure::RecursionLimit), e)
    } else {
        let d = (depth - 1) as nat;
        match x {
            Value::Symbol(name) => (
                match e.get(name) {
                    Some(v) => Ok(v),
                    None => Err(Failure::UnboundVariable(name)),
                },
                e,
            ),
            Value::Cons(first, rest) => {
                let args = items(*rest);
                if *first == sym("quote"@) {
                    (quote_spec(args), e)
                } else if *first == sym("if"@) {
                    if_spec(args, e, d)
                } else if *first == sym("define"@) {
                    define_spec(args, e, d)
                } else if *first == sym("set!"@) {
                    set_spec(args, e, d)
                } else if *first == sym("lambda"@) {
                    lambda_spec(args, e)
                } else {
                    apply_spec(*first, args, e, d)
                }
            },
            _ => (Ok(x), e),
        }
    }
}

/// `(if test then else)`: the `else` branch where the test gives the empty
/// value (the empty value itself where there is no such branch), the `then`
/// branch otherwise.
pub open spec fn if_spec(args: Seq<Value>, e: EnvView, d: nat) -> (Outcome, EnvView)
    decreases d, 1nat, 0nat,
{
    match range_error(args.len(), 2, Some(3nat)) {
        Some(err) => (Err(err), e),
        None => {
            let (test, e1) = eval_spec(args[0], e, d);
            match test {
                Err(err) => (Err(err), e1),
                Ok(Value::Nil) => if args.len() == 3 {
                    eval_spec(args[2], e1, d)
                } else {
                    (Ok(Value::Nil), e1)
                },
                Ok(_) => eval_spec(args[1], e1, d),
            }
        },
    }
}

/// `(define name x)`: binds `name` in the current scope to what `x`
/// evaluates to, and gives that value.
pub open spec fn define_spec(args: Seq<Value>, e: EnvView, d: nat) -> (Outcome, EnvView)
    decreases d, 1nat, 0nat,
{
    match count_error(args.len(), 2) {
        Some(err) => (Err(err), e),
        None => match args[0] {
            Value::Symbol(name) => {
                let (r, e1) = eval_spec(args[1], e, d);
                match r {
                    Ok(v) => (Ok(v), e1.insert(name, v)),
                    Err(err) => (Err(err), e1),
                }
            },
            other => (Err(Failure::MismatchType(other, ObjectType::Symbol)), e),
        },
    }
}

/// `(set! name x)`: rebinds `name`, in the nearest enclosing scope that
/// binds it, to what `x` evaluates to, and gives that value.
pub open spec fn set_spec(args: Seq<Value>, e: EnvView, d: nat) -> (Outcome, EnvView)
    decreases d, 1nat, 0nat,
{
    match count_error(args.len(), 2) {
        Some(err) => (Err(err), e),
        None => match args[0] {
            Value::Symbol(name) => {
                let (r, e1) = eval_spec(args[1], e, d);
                match r {
                    Ok(v) => match e1.set(name, v) {
                        Some(e2) => (Ok(v), e2),
                        None => (Err(Failure::UnboundVariable(name)), e1),
                    },
                    Err(err) => (Err(err), e1),
                }
            },
            other => (Err(Failure::MismatchType(other, ObjectType::Symbol)), e),
        },
    }
}

/// The values of the forms from place `i` on, after those in `acc`, each
/// evaluated in the environment its predecessor left.
pub open spec fn args_spec(forms: Seq<Value>, i: nat, acc: Seq<Value>, e: EnvView, d: nat) -> (
    Result<Seq<Value>, Failure>,
    EnvView,
)
    decreases d, 1nat, forms.len() - i,
{
    if i >= forms.len() {
        (Ok(acc), e)
    } else {
        let (r, e1) = eval_spec(forms[i as int], e, d);
        match r {
            Ok(v) => args_spec(forms, i + 1, acc.push(v), e1, d),
            Err(err) => (Err(err), e1),
        }
    }
}

/// The value of the last of the forms from place `i` on, each evaluated in
/// the environment its predecessor left; `last` where there is none.
pub open spec fn body_spec(forms: Seq<Value>, i: nat, last: Value, e: EnvView, d: nat) -> (
    Outcome,
    EnvView,
)
    decreases d, 1nat, forms.len() - i,
{
    if i >= forms.len() {
        (Ok(last), e)
    } else {
        let (r, e1) = eval_spec(forms[i as int], e, d);
        match r {
            Ok(v) => body_spec(forms, i + 1, v, e1, d),
            Err(err) => (Err(err), e1),
        }
    }
}

/// The call of the closure `c` on `args`: its body evaluated in a new scope
/// under the scope it captured, with its parameters bound to `args`. The
/// scope that was current before the call is current again after it, and
/// the new scope is discarded unless a closure may have captured it.
pub open spec fn closure_spec(c: ClosureView, args: Seq<Value>, e: EnvView, d: nat) -> (
    Outcome,
    EnvView,
)
    decreases d, 1nat, c.body.len() + 1,
{
    if args.len() != c.params.len() {
        (Err(Failure::WrongNumArgs(args.len(), c.params.len())), e)
    } else {
        let inner = bind_spec(
            c.params,
            args,
            0,
            e.child_scope(c.env).switch_to(e.scopes.len()),
        );
        let (r, e1) = body_spec(c.body, 0, Value::Nil, inner, d);
        (r, e1.switch_to(e.current).release(e.scopes.len(), e.closures))
    }
}

/// The call `(f args...)`: `f` is evaluated, then the arguments left to
/// right, then the procedure is called on their values.
pub open spec fn apply_spec(f: Value, args: Seq<Value>, e: EnvView, d: nat) -> (Outcome, EnvView)
    decreases d, 2nat, 0nat,
{
    let (callee, e1) = eval_spec(f, e, d);
    match callee {
        Err(err) => (Err(err), e1),
        Ok(proc) => {
            let (vals, e2) = args_spec(args, 0, Seq::empty(), e1, d);
            match vals {
                Err(err) => (Err(err), e2),
                Ok(vs) => match proc {
                    Value::Func(native) => (native_spec(native, vs), e2),
                    Value::Closure(c) => closure_spec(c, vs, e2, d),
                    other => (Err(Failure::MismatchType(other, ObjectType::Function)), e2),
                },
            }
        },
    }
}

/// The model of a closure.
pub open spec fn closure_view(c: Closure) -> ClosureView {
    ClosureView {
        id: c.id as nat,
        params: texts(c.params@),
        body: views(c.body@),
        env: c.env as nat,
    }
}

proof fn lemma_closure_view(c: Closure)
    ensures
        ObjectKind::Closure(c)@ == Value::Closure(closure_view(c)),
{
    assert(views(c.body@) =~= ObjectKind::Closure(c)@->Closure_0.body);
}

/// An error among the first `k` parameters is the error of the whole list.
proof fn lemma_params_error(list: Seq<Value>, k: int)
    requires
        0 <= k <= list.len(),
        params_spec(list.take(k)) is Err,
    ensures
        params_spec(list) == params_spec(list.take(k)),
    decreases list.len() - k,
{
    if k < list.len() {
        assert(list.take(k + 1).drop_last() =~= list.take(k));
        lemma_params_error(list, k + 1);
    } else {
        assert(list.take(k) =~= list);
    }
}

fn eval_quote(args: &[Object]) -> (r: EvalResult)
    ensures
        outcome(r) == quote_spec(views(args@)),
{
    check_num_args(args, 1)?;
    Ok(share(&args[0]))
}

fn eval_if(args: &[Object], env: &mut Env, depth: usize) -> (r: EvalResult)
    requires
        old(env).wf(),
    ensures
        (outcome(r), final(env)@) == if_spec(views(args@), old(env)@, depth as nat),
        final(env).wf(),
    decreases depth, 1nat, 0nat,
{
    check_num_args_range(args, 2, Some(3))?;
    let test = eval_internal(share(&args[0]), env, depth)?;
    match &*test {
        ObjectKind::Nil => {
            if args.len() == 3 {
                eval_internal(share(&args[2]), env, depth)
            } else {
                Ok(nil())
            }
        },
        _ => eval_internal(share(&args[1]), env, depth),
    }
}

fn eval_define(args: &[Object], env: &mut Env, depth: usize) -> (r: EvalResult)
    requires
        old(env).wf(),
    ensures
        (outcome(r), final(env)@) == define_spec(views(args@), old(env)@, depth as nat),
        final(env).wf(),
    decreases depth, 1nat, 0nat,
{
    check_num_args(args, 2)?;
    let name = match &*args[0] {
        ObjectKind::Symbol(name) => name,
        _ => {
            return Err(RuntimeError::MismatchType(share(&args[0]), ObjectType::Symbol));
        },
    };
    let value = eval_internal(share(&args[1]), env, depth)?;
    env.insert(name.as_str(), share(&value));
    Ok(value)
}

fn eval_set(args: &[Object], env: &mut Env, depth: usize) -> (r: EvalResult)
    requires
        old(env).wf(),
    ensures
        (outcome(r), final(env)@) == set_spec(views(args@), old(env)@, depth as nat),
        final(env).wf(),
    decreases depth, 1nat, 0nat,
{
    check_num_args(args, 2)?;
    let name = match &*args[0] {
        ObjectKind::Symbol(name) => name,
        _ => {
            return Err(RuntimeError::MismatchType(share(&args[0]), ObjectType::Symbol));
        },
    };
    let value = eval_internal(share(&args[1]), env, depth)?;
    if env.set(name.as_str(), share(&value)) {
        Ok(value)
    } else {
        Err(RuntimeError::UnboundVariable(name.clone()))
    }
}

/// The names of a parameter list.
fn param_names(list: &Vec<Object>) -> (r: Result<Vec<String>, RuntimeError>)
    ensures
        match params_spec(views(list@)) {
            Ok(names) => r is Ok && texts(r->Ok_0@) == names,
            Err(e) => r is Err && r->Err_0@ == e,
        },
{
    let mut params: Vec<String> = Vec::new();
    let mut i: usize = 0;
    assert(views(list@).take(0) =~= Seq::<Value>::empty());
    assert(texts(params@) =~= Seq::<Seq<char>>::empty());
    while i < list.len()
        invariant
            i <= list@.len(),
            params_spec(views(list@).take(i as int)) == Ok::<Seq<Seq<char>>, Failure>(
                texts(params@),
            ),
        decreases list@.len() - i,
    {
        let ghost prefix = views(list@).take(i as int + 1);
        let ghost names = texts(params@);
        assert(prefix.drop_last() =~= views(list@).take(i as int));
        assert(prefix.last() == list@[i as int]@);
        match &*list[i] {
            ObjectKind::Symbol(name) => {
                params.push(name.clone());
                assert(texts(params@) =~= names.push(name@));
            },
            _ => {
                proof {
                    lemma_params_error(views(list@), i as int + 1);
                }
                return Err(RuntimeError::MismatchType(share(&list[i]), ObjectType::Symbol));
            },
        }
        i = i + 1;
    }
    assert(views(list@).take(i as int) =~= views(list@));
    Ok(params)
}

fn eval_lambda(args: &[Object], env: &mut Env) -> (r: EvalResult)
    requires
        old(env).wf(),
    ensures
        (outcome(r), final(env)@) == lambda_spec(views(args@), old(env)@),
        final(env).wf(),
{
    if args.len() == 0 {
        return Err(RuntimeError::TooFewArguments(0, 1));
    }
    let list: Vec<Object> = match &*args[0] {
        ObjectKind::Cons(cons) => cons.iter().collect(),
        ObjectKind::Nil => Vec::new(),
        _ => {
            return Err(RuntimeError::MismatchType(share(&args[0]), ObjectType::List));
        },
    };
    assert(args@[0]@ is Cons ==> views(list@) == items(args@[0]@));
    assert(args@[0]@ is Nil ==> views(list@) =~= Seq::<Value>::empty());
    let params = param_names(&list)?;
    let mut body: Vec<Object> = Vec::new();
    let mut i: usize = 1;
    while i < args.len()
        invariant
            1 <= i <= args@.len(),
            views(body@) == views(args@).subrange(1, i as int),
        decreases args@.len() - i,
    {
        let ghost before = views(body@);
        body.push(share(&args[i]));
        assert(views(body@) =~= before.push(args@[i as int]@));
        assert(views(body@) =~= views(args@).subrange(1, i as int + 1));
        i = i + 1;
    }
    assert(views(body@) =~= views(args@).skip(1));
    let id = env.next_closure();
    let scope = env.current();
    Ok(closure(id, params, body, scope))
}

#[verifier::loop_isolation(false)]
fn apply_closure(c: &Closure, args: Vec<Object>, env: &mut Env, depth: usize) -> (r: EvalResult)
    requires
        old(env).wf(),
    ensures
        (outcome(r), final(env)@) == closure_spec(
            closure_view(*c),
            views(args@),
            old(env)@,
            depth as nat,
        ),
        final(env).wf(),
    decreases depth, 1nat, c.body@.len() + 1,
{
    if args.len() != c.params.len() {
        return Err(RuntimeError::WrongNumArgs(args.len(), c.params.len()));
    }
    let ghost cv = closure_view(*c);
    let ghost vals = views(args@);
    let saved = env.current();
    let made = env.closures();
    let scope = env.child_scope(c.env);
    env.switch_to(scope);
    let ghost entered = env@;
    let mut i: usize = 0;
    while i < c.params.len()
        invariant
            env.wf(),
            i <= c.params@.len(),
            args@.len() == c.params@.len(),
            cv == closure_view(*c),
            vals == views(args@),
            bind_spec(cv.params, vals, i as nat, env@) == bind_spec(cv.params, vals, 0, entered),
        decreases c.params@.len() - i,
    {
        env.insert(c.params[i].as_str(), share(&args[i]));
        i = i + 1;
    }
    let ghost inner = env@;
    let mut last = nil();
    let mut j: usize = 0;
    while j < c.body.len()
        invariant
            env.wf(),
            j <= c.body@.len(),
            cv == closure_view(*c),
            body_spec(cv.body, j as nat, last@, env@, depth as nat) == body_spec(
                cv.body,
                0,
                Value::Nil,
                inner,
                depth as nat,
            ),
        decreases c.body@.len() - j,
    {
        match eval_internal(share(&c.body[j]), env, depth) {
            Ok(v) => {
                last = v;
            },
            Err(e) => {
                env.switch_to(saved);
                env.release(scope, made);
                return Err(e);
            },
        }
        j = j + 1;
    }
    env.switch_to(saved);
    env.release(scope, made);
    Ok(last)
}

#[verifier::loop_isolation(false)]
fn apply_function(first: Object, forms: Vec<Object>, env: &mut Env, depth: usize) -> (r:
    EvalResult)
    requires
        old(env).wf(),
    ensures
        (outcome(r), final(env)@) == apply_spec(first@, views(forms@), old(env)@, depth as nat),
        final(env).wf(),
    decreases depth, 2nat, 0nat,
{
    let callee = eval_internal(first, env, depth)?;
    let ghost e1 = env@;
    let mut args: Vec<Object> = Vec::new();
    let mut i: usize = 0;
    assert(views(args@) =~= Seq::<Value>::empty());
    while i < forms.len()
        invariant
            env.wf(),
            i <= forms@.len(),
            args_spec(views(forms@), i as nat, views(args@), env@, depth as nat) == args_spec(
                views(forms@),
                0,
                Seq::empty(),
                e1,
                depth as nat,
            ),
        decreases forms@.len() - i,
    {
        let ghost acc = views(args@);
        let v = eval_internal(share(&forms[i]), env, depth)?;
        args.push(v);
        assert(views(args@) =~= acc.push(v@));
        i = i + 1;
    }
    match &*callee {
        ObjectKind::Func(native) => call_native(*native, args.as_slice()),
        ObjectKind::Closure(c) => {
            proof {
                lemma_closure_view(*c);
            }
            apply_closure(c, args, env, depth)
        },
        _ => Err(RuntimeError::MismatchType(share(&callee), ObjectType::Function)),
    }
}

fn eval_internal(x: Object, env: &mut Env, depth: usize) -> (r: EvalResult)
    requires
        old(env).wf(),
    ensures
        (outcome(r), final(env)@) == eval_spec(x@, old(env)@, depth as nat),
        final(env).wf(),
    decreases depth, 0nat, 0nat,
{
    if depth == 0 {
        return Err(RuntimeError::RecursionLimit);
    }
    let d = depth - 1;
    match &*x {
        ObjectKind::Symbol(name) => match env.get(name.as_str()) {
            Some(v) => Ok(v),
            None => Err(RuntimeError::UnboundVariable(name.clone())),
        },
        ObjectKind::Cons(list) => {
            let first = share(&list.car);
            let args: Vec<Object> = match &*list.cdr {
                ObjectKind::Cons(rest) => rest.iter().collect(),
                _ => Vec::new(),
            };
            assert(x@ == list.value());
            assert(views(args@) =~= items(list.cdr@));
            if let ObjectKind::Symbol(name) = &*first {
                if same_text(name.as_str(), "quote") {
                    return eval_quote(args.as_slice());
                }
                if same_text(name.as_str(), "if") {
                    return eval_if(args.as_slice(), env, d);
                }
                if same_text(name.as_str(), "define") {
                    return eval_define(args.as_slice(), env, d);
                }
                if same_text(name.as_str(), "set!") {
                    return eval_set(args.as_slice(), env, d);
                }
                if same_text(name.as_str(), "lambda") {
                    return eval_lambda(args.as_slice(), env);
                }
            }
            apply_function(first, args, env, d)
        },
        _ => Ok(share(&x)),
    }
}

/// Evaluates `x` in `env`. However the evaluation ends, the scope that
/// was current is current again afterwards, and no scope that existed was
/// removed. Where the environment held every closure in `x` and in its
/// bindings, it holds every closure in the value and in its bindings
/// afterwards, unless the count of closures reached the largest `usize`.
pub fn eval(x: Object, env: &mut Env) -> (r: EvalResult)
    requires
        old(env).wf(),
    ensures
        (outcome(r), final(env)@) == eval_spec(x@, old(env)@, MAX_DEPTH as nat),
        follows(old(env)@, final(env)@),
        env_known(old(env)@) && known(x@, old(env)@) ==> stays_known(outcome(r), final(env)@),
        final(env).wf(),
{
    proof {
        law_eval_follows(x@, env@, MAX_DEPTH as nat);
        if env_known(env@) && known(x@, env@) {
            law_eval_known(x@, env@, MAX_DEPTH as nat);
        }
    }
    eval_internal(x, env, MAX_DEPTH)
}

} // verus!
