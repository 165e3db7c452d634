//! What every evaluation keeps of the environment it runs in: the
//! environment stays well formed, the scope that was current is current
//! again, no scope that existed is removed or given another parent, and
//! the count of closures does not go down.

use crate::env::EnvView;
use crate::eval::{
    apply_spec, args_spec, bind_spec, body_spec, closure_spec, define_spec, eval_spec, if_spec,
    lambda_spec, set_spec,
};
use crate::object::{ClosureView, Value};
use vstd::prelude::*;

verus! {

/// `after` is well formed and holds every scope of `before`, each under the
/// parent it had and made when it was; its count of closures is no less.
pub open spec fn grows(before: EnvView, after: EnvView) -> bool {
    &&& after.wf()
    &&& after.closures >= before.closures
    &&& after.scopes.len() >= before.scopes.len()
    &&& forall|i: int|
        0 <= i < before.scopes.len() ==> (#[trigger] after.scopes[i]).parent
            == before.scopes[i].parent && after.scopes[i].born == before.scopes[i].born
}

/// `after` grows from `before` and has the same current scope.
pub open spec fn follows(before: EnvView, after: EnvView) -> bool {
    grows(before, after) && after.current == before.current
}

/// The scope that holds a name is a scope of the environment.
pub proof fn lemma_holder_exists(e: EnvView, scope: nat, name: Seq<char>)
    ensures
        e.holder(scope, name) matches Some(s) ==> s < e.scopes.len() && s <= scope
            && e.scopes[s as int].table.dom().contains(name),
    decreases scope,
{
    if scope < e.scopes.len() && !e.scopes[scope as int].table.dom().contains(name) {
        match e.scopes[scope as int].parent {
            Some(p) => {
                if p < scope {
                    lemma_holder_exists(e, p, name);
                }
            },
            None => {},
        }
    }
}

/// Binding a name in a scope that exists changes no scope's parent.
pub proof fn lemma_bind_follows(e: EnvView, scope: nat, name: Seq<char>, value: Value)
    requires
        e.wf(),
        scope < e.scopes.len(),
    ensures
        follows(e, e.bind_in(scope, name, value)),
{
}

/// Rebinding a name changes no scope's parent.
pub proof fn lemma_set_follows(e: EnvView, name: Seq<char>, value: Value)
    requires
        e.wf(),
    ensures
        e.set(name, value) matches Some(after) ==> follows(e, after),
{
    lemma_holder_exists(e, e.current, name);
}

/// Binding parameters in the current scope changes no scope's parent.
pub proof fn lemma_bind_params_follows(params: Seq<Seq<char>>, args: Seq<Value>, i: nat, e: EnvView)
    requires
        e.wf(),
    ensures
        follows(e, bind_spec(params, args, i, e)),
    decreases params.len() - i,
{
    if i < params.len() {
        let e1 = e.insert(params[i as int], args[i as int]);
        lemma_bind_follows(e, e.current, params[i as int], args[i as int]);
        lemma_bind_params_follows(params, args, i + 1, e1);
    }
}

/// Whatever `x` is and however its evaluation ends, the environment after
/// it is well formed, has the current scope it had, holds every scope it
/// held, each under the parent it had, and counts no fewer closures.
pub proof fn law_eval_follows(x: Value, e: EnvView, depth: nat)
    requires
        e.wf(),
    ensures
        follows(e, eval_spec(x, e, depth).1),
    decreases depth, 0nat, 0nat,
{
    if depth > 0 {
        let d = (depth - 1) as nat;
        match x {
            Value::Cons(first, rest) => {
                let args = crate::object::items(*rest);
                lemma_if_follows(args, e, d);
                lemma_define_follows(args, e, d);
                lemma_set_form_follows(args, e, d);
                lemma_lambda_follows(args, e);
                lemma_apply_follows(*first, args, e, d);
            },
            _ => {},
        }
    }
}

proof fn lemma_lambda_follows(args: Seq<Value>, e: EnvView)
    requires
        e.wf(),
    ensures
        follows(e, lambda_spec(args, e).1),
{
}

proof fn lemma_if_follows(args: Seq<Value>, e: EnvView, d: nat)
    requires
        e.wf(),
    ensures
        follows(e, if_spec(args, e, d).1),
    decreases d, 1nat, 0nat,
{
    if args.len() >= 2 && args.len() <= 3 {
        law_eval_follows(args[0], e, d);
        let e1 = eval_spec(args[0], e, d).1;
        law_eval_follows(args[1], e1, d);
        if args.len() == 3 {
            law_eval_follows(args[2], e1, d);
        }
    }
}

proof fn lemma_define_follows(args: Seq<Value>, e: EnvView, d: nat)
    requires
        e.wf(),
    ensures
        follows(e, define_spec(args, e, d).1),
    decreases d, 1nat, 0nat,
{
    if args.len() == 2 {
        match args[0] {
            Value::Symbol(name) => {
                law_eval_follows(args[1], e, d);
                let (r, e1) = eval_spec(args[1], e, d);
                match r {
                    Ok(v) => {
                        lemma_bind_follows(e1, e1.current, name, v);
                    },
                    Err(_) => {},
                }
            },
            _ => {},
        }
    }
}

proof fn lemma_set_form_follows(args: Seq<Value>, e: EnvView, d: nat)
    requires
        e.wf(),
    ensures
        follows(e, set_spec(args, e, d).1),
    decreases d, 1nat, 0nat,
{
    if args.len() == 2 {
        match args[0] {
            Value::Symbol(name) => {
                law_eval_follows(args[1], e, d);
                let (r, e1) = eval_spec(args[1], e, d);
                match r {
                    Ok(v) => {
                        lemma_set_follows(e1, name, v);
                    },
                    Err(_) => {},
                }
            },
            _ => {},
        }
    }
}

/// The arguments of a call leave the environment as every evaluation does.
pub proof fn lemma_args_follows(forms: Seq<Value>, i: nat, acc: Seq<Value>, e: EnvView, d: nat)
    requires
        e.wf(),
    ensures
        follows(e, args_spec(forms, i, acc, e, d).1),
    decreases d, 1nat, forms.len() - i,
{
    if i < forms.len() {
        law_eval_follows(forms[i as int], e, d);
        let (r, e1) = eval_spec(forms[i as int], e, d);
        match r {
            Ok(v) => {
                lemma_args_follows(forms, i + 1, acc.push(v), e1, d);
            },
            Err(_) => {},
        }
    }
}

/// The forms of a body leave the environment as every evaluation does.
pub proof fn lemma_body_follows(forms: Seq<Value>, i: nat, last: Value, e: EnvView, d: nat)
    requires
        e.wf(),
    ensures
        follows(e, body_spec(forms, i, last, e, d).1),
    decreases d, 1nat, forms.len() - i,
{
    if i < forms.len() {
        law_eval_follows(forms[i as int], e, d);
        let (r, e1) = eval_spec(forms[i as int], e, d);
        match r {
            Ok(v) => {
                lemma_body_follows(forms, i + 1, v, e1, d);
            },
            Err(_) => {},
        }
    }
}

/// The call of a closure leaves the environment as every evaluation does.
pub proof fn lemma_closure_follows(c: ClosureView, args: Seq<Value>, e: EnvView, d: nat)
    requires
        e.wf(),
    ensures
        follows(e, closure_spec(c, args, e, d).1),
    decreases d, 1nat, c.body.len() + 1,
{
    if args.len() == c.params.len() {
        let entered = e.child_scope(c.env).switch_to(e.scopes.len());
        assert(grows(e, entered));
        assert(entered.current == e.scopes.len());
        let inner = bind_spec(c.params, args, 0, entered);
        lemma_bind_params_follows(c.params, args, 0, entered);
        lemma_body_follows(c.body, 0, Value::Nil, inner, d);
        let e1 = body_spec(c.body, 0, Value::Nil, inner, d).1;
        assert(grows(e, e1));
        let back = e1.switch_to(e.current);
        assert(follows(e, back));
        let out = back.release(e.scopes.len(), e.closures);
        assert(follows(e, out));
    }
}

proof fn lemma_apply_follows(f: Value, args: Seq<Value>, e: EnvView, d: nat)
    requires
        e.wf(),
    ensures
        follows(e, apply_spec(f, args, e, d).1),
    decreases d, 2nat, 0nat,
{
    law_eval_follows(f, e, d);
    let (callee, e1) = eval_spec(f, e, d);
    match callee {
        Ok(proc) => {
            lemma_args_follows(args, 0, Seq::empty(), e1, d);
            let (vals, e2) = args_spec(args, 0, Seq::empty(), e1, d);
            match vals {
                Ok(vs) => match proc {
                    Value::Closure(c) => {
                        lemma_closure_follows(c, vs, e2, d);
                    },
                    _ => {},
                },
                Err(_) => {},
            }
        },
        Err(_) => {},
    }
}

} // verus!
