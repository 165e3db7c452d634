//! The depth of evaluation only cuts evaluations short: a result other
//! than `RecursionLimit` is the result at every greater depth too.

use crate::builtin::{native_spec, plus_spec};
use crate::env::EnvView;
use crate::error::Failure;
use crate::eval::{
    apply_spec, args_spec, bind_spec, body_spec, closure_spec, define_spec, eval_spec, if_spec,
    set_spec, sym,
};
use crate::object::{items, ClosureView, Native, Value};
use vstd::prelude::*;

verus! {

/// The result is no `RecursionLimit`.
pub open spec fn within<T>(r: Result<T, Failure>) -> bool {
    r != Err::<T, Failure>(Failure::RecursionLimit)
}

proof fn lemma_plus_within(args: Seq<Value>)
    ensures
        within(plus_spec(args)),
    decreases args.len(),
{
    if args.len() > 0 {
        lemma_plus_within(args.drop_last());
    }
}

/// No native procedure ends in `RecursionLimit`.
proof fn lemma_native_within(f: Native, args: Seq<Value>)
    ensures
        within(native_spec(f, args)),
{
    lemma_plus_within(args);
}

/// An evaluation that did not end in `RecursionLimit` ends in the same
/// way, and leaves the same environment, when one more level is allowed.
pub proof fn law_eval_deeper(x: Value, e: EnvView, depth: nat)
    requires
        within(eval_spec(x, e, depth).0),
    ensures
        eval_spec(x, e, depth + 1) == eval_spec(x, e, depth),
    decreases depth, 0nat, 0nat,
{
    if depth > 0 {
        let d = (depth - 1) as nat;
        match x {
            Value::Cons(first, rest) => {
                let args = items(*rest);
                if *first == sym("quote"@) {
                } else if *first == sym("if"@) {
                    lemma_if_deeper(args, e, d);
                } else if *first == sym("define"@) {
                    lemma_define_deeper(args, e, d);
                } else if *first == sym("set!"@) {
                    lemma_set_deeper(args, e, d);
                } else if *first == sym("lambda"@) {
                } else {
                    lemma_apply_deeper(*first, args, e, d);
                }
            },
            _ => {},
        }
    }
}

/// An evaluation that did not end in `RecursionLimit` ends in the same
/// way, and leaves the same environment, at every greater depth.
pub proof fn law_eval_at_any_depth(x: Value, e: EnvView, depth: nat, more: nat)
    requires
        within(eval_spec(x, e, depth).0),
    ensures
        eval_spec(x, e, depth + more) == eval_spec(x, e, depth),
    decreases more,
{
    if more > 0 {
        law_eval_at_any_depth(x, e, depth, (more - 1) as nat);
        law_eval_deeper(x, e, (depth + more - 1) as nat);
    }
}

proof fn lemma_if_deeper(args: Seq<Value>, e: EnvView, d: nat)
    requires
        within(if_spec(args, e, d).0),
    ensures
        if_spec(args, e, d + 1) == if_spec(args, e, d),
    decreases d, 1nat, 0nat,
{
    if args.len() >= 2 && args.len() <= 3 {
        law_eval_deeper(args[0], e, d);
        let (test, e1) = eval_spec(args[0], e, d);
        match test {
            Err(_) => {},
            Ok(Value::Nil) => {
                if args.len() == 3 {
                    law_eval_deeper(args[2], e1, d);
                }
            },
            Ok(_) => {
                law_eval_deeper(args[1], e1, d);
            },
        }
    }
}

proof fn lemma_define_deeper(args: Seq<Value>, e: EnvView, d: nat)
    requires
        within(define_spec(args, e, d).0),
    ensures
        define_spec(args, e, d + 1) == define_spec(args, e, d),
    decreases d, 1nat, 0nat,
{
    if args.len() == 2 && args[0] is Symbol {
        law_eval_deeper(args[1], e, d);
    }
}

proof fn lemma_set_deeper(args: Seq<Value>, e: EnvView, d: nat)
    requires
        within(set_spec(args, e, d).0),
    ensures
        set_spec(args, e, d + 1) == set_spec(args, e, d),
    decreases d, 1nat, 0nat,
{
    if args.len() == 2 && args[0] is Symbol {
        law_eval_deeper(args[1], e, d);
    }
}

proof fn lemma_args_deeper(forms: Seq<Value>, i: nat, acc: Seq<Value>, e: EnvView, d: nat)
    requires
        within(args_spec(forms, i, acc, e, d).0),
    ensures
        args_spec(forms, i, acc, e, d + 1) == args_spec(forms, i, acc, e, d),
    decreases d, 1nat, forms.len() - i,
{
    if i < forms.len() {
        law_eval_deeper(forms[i as int], e, d);
        let (r, e1) = eval_spec(forms[i as int], e, d);
        match r {
            Ok(v) => {
                lemma_args_deeper(forms, i + 1, acc.push(v), e1, d);
            },
            Err(_) => {},
        }
    }
}

proof fn lemma_body_deeper(forms: Seq<Value>, i: nat, last: Value, e: EnvView, d: nat)
    requires
        within(body_spec(forms, i, last, e, d).0),
    ensures
        body_spec(forms, i, last, e, d + 1) == body_spec(forms, i, last, e, d),
    decreases d, 1nat, forms.len() - i,
{
    if i < forms.len() {
        law_eval_deeper(forms[i as int], e, d);
        let (r, e1) = eval_spec(forms[i as int], e, d);
        match r {
            Ok(v) => {
                lemma_body_deeper(forms, i + 1, v, e1, d);
            },
            Err(_) => {},
        }
    }
}

proof fn lemma_closure_deeper(c: ClosureView, args: Seq<Value>, e: EnvView, d: nat)
    requires
        within(closure_spec(c, args, e, d).0),
    ensures
        closure_spec(c, args, e, d + 1) == closure_spec(c, args, e, d),
    decreases d, 1nat, c.body.len() + 1,
{
    if args.len() == c.params.len() {
        let inner = bind_spec(
            c.params,
            args,
            0,
            e.child_scope(c.env).switch_to(e.scopes.len()),
        );
        lemma_body_deeper(c.body, 0, Value::Nil, inner, d);
    }
}

proof fn lemma_apply_deeper(f: Value, args: Seq<Value>, e: EnvView, d: nat)
    requires
        within(apply_spec(f, args, e, d).0),
    ensures
        apply_spec(f, args, e, d + 1) == apply_spec(f, args, e, d),
    decreases d, 2nat, 0nat,
{
    law_eval_deeper(f, e, d);
    let (callee, e1) = eval_spec(f, e, d);
    match callee {
        Ok(proc) => {
            lemma_args_deeper(args, 0, Seq::empty(), e1, d);
            let (vals, e2) = args_spec(args, 0, Seq::empty(), e1, d);
            match vals {
                Ok(vs) => match proc {
                    Value::Closure(c) => {
                        lemma_closure_deeper(c, vs, e2, d);
                    },
                    _ => {},
                },
                Err(_) => {},
            }
        },
        Err(_) => {},
    }
}

} // verus!
