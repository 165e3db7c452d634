use lisp::builtin::{call_native, check_num_args, check_num_args_range, plus};
use lisp::env::Env;
use lisp::equal::equal;
use lisp::error::{EvalResult, RuntimeError};
use lisp::eval::{eval, MAX_DEPTH};
use lisp::object::{closure, cons, fixnum, nil, symbol, Native, Object, ObjectType};
use lisp::reader::read_from_string;

fn run(input: &str, env: &mut Env) -> EvalResult {
    let (x, _) = read_from_string(input).unwrap();
    eval(x, env)
}

fn run_fresh(input: &str) -> EvalResult {
    run(input, &mut Env::global_env())
}

fn shows(input: &str, expected: &str) {
    assert_eq!(run_fresh(input).unwrap().to_string(), expected);
}

#[test]
fn atoms_evaluate_to_themselves() {
    shows("12", "12");
    shows("nil", "nil");
    shows("()", "nil");
    shows("car", "<Fn>");
    let mut env = Env::global_env();
    let c = closure(5, vec![], vec![], 0);
    let r = eval(c.clone(), &mut env).unwrap();
    assert!(equal(r, c));
}

#[test]
fn plus_sums_and_wraps_round() {
    shows("(+ 40 2)", "42");
    shows("(+ -5 5)", "0");
    shows("(+ 1 (+ 2 3) 4)", "10");
    let max = format!("(+ {} 1)", isize::MAX);
    assert!(equal(run_fresh(&max).unwrap(), fixnum(isize::MIN)));
    let min = format!("(+ {} -1)", isize::MIN);
    assert!(equal(run_fresh(&min).unwrap(), fixnum(isize::MAX)));
    assert!(equal(
        plus(&[fixnum(isize::MAX), fixnum(isize::MAX)]).unwrap(),
        fixnum(-2)
    ));
}

#[test]
fn plus_names_the_first_argument_that_is_no_integer() {
    match run_fresh("(+ 1 'a 'b)") {
        Err(RuntimeError::MismatchType(v, ObjectType::Number)) => assert!(equal(v, symbol("a"))),
        _ => panic!(),
    }
    match run_fresh("(+ (cons 1 2) 1)") {
        Err(RuntimeError::MismatchType(v, ObjectType::Number)) => {
            assert_eq!(v.to_string(), "(1 . 2)")
        }
        _ => panic!(),
    }
}

#[test]
fn cons_car_cdr_round_trip() {
    shows("(cons '(a b) 'c)", "((a b) . c)");
    shows("(car (cons '(a b) 'c))", "(a b)");
    shows("(cdr (cons '(a b) 'c))", "c");
    shows("(equal (car (cons 'x 'y)) 'x)", "t");
    shows("(equal (cdr (cons 'x 'y)) 'y)", "t");
    shows("(equal (car (cons car 'y)) car)", "t");
    let x = cons(fixnum(1), symbol("k"));
    let y = symbol("z");
    let p = call_native(Native::Cons, &[x.clone(), y.clone()]).unwrap();
    assert!(equal(call_native(Native::Car, &[p.clone()]).unwrap(), x));
    assert!(equal(call_native(Native::Cdr, &[p]).unwrap(), y));
}

#[test]
fn quote_leaves_its_argument_alone() {
    shows("(quote (a b c))", "(a b c)");
    shows("'(car (undefined))", "(car (undefined))");
    shows("''a", "(quote a)");
    assert!(matches!(
        run_fresh("(quote a b)"),
        Err(RuntimeError::WrongNumArgs(2, 1))
    ));
}

#[test]
fn if_takes_every_value_but_nil_for_true() {
    shows("(if nil 'true)", "nil");
    shows("(if nil 'true 'false)", "false");
    shows("(if 0 'true 'false)", "true");
    shows("(if 'a 'true 'false)", "true");
    shows("(if (cons 1 2) 'true 'false)", "true");
    shows("(if (quote t) 1 (undefined))", "1");
    shows("(if nil (undefined) 2)", "2");
    assert!(matches!(
        run_fresh("(if (undefined) 1 2)"),
        Err(RuntimeError::UnboundVariable(_))
    ));
}

#[test]
fn truth_is_the_symbol_t() {
    shows("(equal 1 1)", "t");
    shows("(equal 1 2)", "nil");
    shows("(equal '(1 (2)) '(1 (2)))", "t");
    shows("(equal '(1 (2)) '(1 (3)))", "nil");
    shows("(atom? nil)", "t");
    shows("(atom? car)", "t");
    shows("(atom? '(1))", "nil");
    assert!(matches!(
        run_fresh("(equal 1)"),
        Err(RuntimeError::WrongNumArgs(1, 2))
    ));
    assert!(matches!(
        run_fresh("(atom? 1 2)"),
        Err(RuntimeError::WrongNumArgs(2, 1))
    ));
}

#[test]
fn procedures_are_equal_by_identity() {
    let mut env = Env::global_env();
    run("(define f (lambda () 1))", &mut env).unwrap();
    run("(define g (lambda () 1))", &mut env).unwrap();
    assert_eq!(run("(equal f f)", &mut env).unwrap().to_string(), "t");
    assert_eq!(run("(equal f g)", &mut env).unwrap().to_string(), "nil");
    assert_eq!(
        run("(equal (lambda () 1) (lambda () 1))", &mut env).unwrap().to_string(),
        "nil"
    );
    assert_eq!(run("(equal car car)", &mut env).unwrap().to_string(), "t");
    assert_eq!(run("(equal car cdr)", &mut env).unwrap().to_string(), "nil");
    assert_eq!(run("(equal car f)", &mut env).unwrap().to_string(), "nil");
}

#[test]
fn symbols_are_looked_up() {
    match run_fresh("undefined-name") {
        Err(RuntimeError::UnboundVariable(name)) => assert_eq!(name, "undefined-name"),
        _ => panic!(),
    }
    let mut env = Env::global_env();
    run("(define x 5)", &mut env).unwrap();
    assert_eq!(run("x", &mut env).unwrap().to_string(), "5");
    assert_eq!(run("(define x 1 2)", &mut env).unwrap_err().to_string(),
        "Wrong number of arguments: expected = 2, actual = 3");
    match run("(define 1 2)", &mut env) {
        Err(RuntimeError::MismatchType(v, ObjectType::Symbol)) => assert!(equal(v, fixnum(1))),
        _ => panic!(),
    }
    assert!(matches!(
        run("(define nil 2)", &mut env),
        Err(RuntimeError::MismatchType(_, ObjectType::Symbol))
    ));
    assert!(matches!(
        run("(define y (undefined))", &mut env),
        Err(RuntimeError::UnboundVariable(_))
    ));
    assert!(matches!(run("y", &mut env), Err(RuntimeError::UnboundVariable(_))));
}

#[test]
fn set_needs_a_binding() {
    match run_fresh("(set! undefined-name 0)") {
        Err(RuntimeError::UnboundVariable(name)) => assert_eq!(name, "undefined-name"),
        _ => panic!(),
    }
    assert!(matches!(
        run_fresh("(set! x)"),
        Err(RuntimeError::WrongNumArgs(1, 2))
    ));
    assert!(matches!(
        run_fresh("(set! 1 2)"),
        Err(RuntimeError::MismatchType(_, ObjectType::Symbol))
    ));
    let mut env = Env::global_env();
    run("(define x 1)", &mut env).unwrap();
    run("(define bump (lambda () (set! x (+ x 1))))", &mut env).unwrap();
    assert_eq!(run("(bump)", &mut env).unwrap().to_string(), "2");
    assert_eq!(run("(bump)", &mut env).unwrap().to_string(), "3");
    assert_eq!(run("x", &mut env).unwrap().to_string(), "3");
}

#[test]
fn define_inside_a_call_stays_inside() {
    let mut env = Env::global_env();
    run("(define x 1)", &mut env).unwrap();
    run("(define f (lambda () (define x 10) x))", &mut env).unwrap();
    assert_eq!(run("(f)", &mut env).unwrap().to_string(), "10");
    assert_eq!(run("x", &mut env).unwrap().to_string(), "1");
}

#[test]
fn lambda_checks_its_parameters() {
    assert!(matches!(
        run_fresh("(lambda)"),
        Err(RuntimeError::TooFewArguments(0, 1))
    ));
    match run_fresh("(lambda 1 2)") {
        Err(RuntimeError::MismatchType(v, ObjectType::List)) => assert!(equal(v, fixnum(1))),
        _ => panic!(),
    }
    match run_fresh("(lambda (a 2 3) a)") {
        Err(RuntimeError::MismatchType(v, ObjectType::Symbol)) => assert!(equal(v, fixnum(2))),
        _ => panic!(),
    }
    shows("(lambda (a b) (undefined))", "<Closure>");
    shows("((lambda () ))", "nil");
    shows("((lambda nil 7))", "7");
    shows("((lambda (a b) a b) 1 2)", "2");
    shows("((lambda (a a) a) 1 2)", "2");
}

#[test]
fn calls_check_the_number_of_arguments() {
    assert!(matches!(
        run_fresh("((lambda (a b) a) 1)"),
        Err(RuntimeError::WrongNumArgs(1, 2))
    ));
    assert!(matches!(
        run_fresh("((lambda () 1) 1 2 3)"),
        Err(RuntimeError::WrongNumArgs(3, 0))
    ));
}

#[test]
fn only_procedures_can_be_called() {
    match run_fresh("(1 2 3)") {
        Err(RuntimeError::MismatchType(v, ObjectType::Function)) => assert!(equal(v, fixnum(1))),
        _ => panic!(),
    }
    match run_fresh("('a)") {
        Err(RuntimeError::MismatchType(v, ObjectType::Function)) => assert!(equal(v, symbol("a"))),
        _ => panic!(),
    }
    assert!(matches!(
        run_fresh("(nil)"),
        Err(RuntimeError::MismatchType(_, ObjectType::Function))
    ));
    assert!(matches!(
        run_fresh("(1 (undefined))"),
        Err(RuntimeError::UnboundVariable(_))
    ));
}

#[test]
fn arguments_are_evaluated_left_to_right() {
    let mut env = Env::global_env();
    run("(define x 0)", &mut env).unwrap();
    assert_eq!(
        run("(cons (set! x (+ x 1)) (set! x (+ x 10)))", &mut env).unwrap().to_string(),
        "(1 . 11)"
    );
    assert!(run("(cons (define a 1) (undefined))", &mut env).is_err());
    assert_eq!(run("a", &mut env).unwrap().to_string(), "1");
}

#[test]
fn closures_keep_their_scope() {
    let mut env = Env::global_env();
    run("(define adder (lambda (n) (lambda (m) (+ n m))))", &mut env).unwrap();
    run("(define add2 (adder 2))", &mut env).unwrap();
    run("(define add5 (adder 5))", &mut env).unwrap();
    assert_eq!(run("(add2 1)", &mut env).unwrap().to_string(), "3");
    assert_eq!(run("(add5 1)", &mut env).unwrap().to_string(), "6");
    assert_eq!(run("(add2 (add5 0))", &mut env).unwrap().to_string(), "7");
    assert!(matches!(run("n", &mut env), Err(RuntimeError::UnboundVariable(_))));
}

#[test]
fn two_counters_count_apart() {
    let mut env = Env::global_env();
    run("(define mkcounter (lambda () (define counter 0) (lambda () (set! counter (+ counter 1)) counter)))", &mut env).unwrap();
    run("(define c (mkcounter))", &mut env).unwrap();
    run("(define d (mkcounter))", &mut env).unwrap();
    assert_eq!(run("(c)", &mut env).unwrap().to_string(), "1");
    assert_eq!(run("(c)", &mut env).unwrap().to_string(), "2");
    assert_eq!(run("(d)", &mut env).unwrap().to_string(), "1");
    assert_eq!(run("(c)", &mut env).unwrap().to_string(), "3");
}

#[test]
fn recursion_within_the_limit() {
    let mut env = Env::global_env();
    run(
        "(define count (lambda (n acc) (if (equal n 0) acc (count (+ n -1) (+ acc 2)))))",
        &mut env,
    )
    .unwrap();
    assert_eq!(run("(count 50 0)", &mut env).unwrap().to_string(), "100");
}

#[test]
fn endless_recursion_ends_in_an_error() {
    let mut env = Env::global_env();
    run("(define loop (lambda () (loop)))", &mut env).unwrap();
    assert!(matches!(run("(loop)", &mut env), Err(RuntimeError::RecursionLimit)));
    assert_eq!(run("(+ 1 2)", &mut env).unwrap().to_string(), "3");
    run("(define x 1)", &mut env).unwrap();
    run("(define deep (lambda () (define x 2) (deep)))", &mut env).unwrap();
    assert!(matches!(run("(deep)", &mut env), Err(RuntimeError::RecursionLimit)));
    assert_eq!(run("x", &mut env).unwrap().to_string(), "1");
}

#[test]
fn nesting_up_to_the_limit() {
    let mut inside = fixnum(1);
    for _ in 0..(MAX_DEPTH - 1) / 2 {
        inside = cons(symbol("+"), cons(inside, nil()));
    }
    let mut env = Env::global_env();
    assert!(equal(eval(inside.clone(), &mut env).unwrap(), fixnum(1)));
    let mut deeper = inside;
    for _ in 0..MAX_DEPTH {
        deeper = cons(symbol("+"), cons(deeper, nil()));
    }
    assert!(matches!(eval(deeper, &mut env), Err(RuntimeError::RecursionLimit)));
}

#[test]
fn special_forms_go_by_name_whatever_is_bound() {
    let mut env = Env::global_env();
    env.insert("quote", fixnum(1));
    env.insert("if", fixnum(2));
    assert_eq!(run("(quote a)", &mut env).unwrap().to_string(), "a");
    assert_eq!(run("(if nil 1 2)", &mut env).unwrap().to_string(), "2");
    assert_eq!(run("quote", &mut env).unwrap().to_string(), "1");
}

#[test]
fn argument_count_checks() {
    let two = [fixnum(1), fixnum(2)];
    assert!(check_num_args(&two, 2).is_ok());
    assert!(matches!(
        check_num_args(&two, 3),
        Err(RuntimeError::WrongNumArgs(2, 3))
    ));
    assert!(check_num_args_range(&two, 2, Some(3)).is_ok());
    assert!(check_num_args_range(&two, 0, None).is_ok());
    assert!(check_num_args_range(&two, 2, Some(2)).is_ok());
    assert!(matches!(
        check_num_args_range(&two, 3, None),
        Err(RuntimeError::TooFewArguments(2, 3))
    ));
    assert!(matches!(
        check_num_args_range(&two, 0, Some(1)),
        Err(RuntimeError::TooManyArguments(2, 1))
    ));
}

#[test]
fn a_closure_of_an_unknown_scope_sees_no_bindings() {
    let mut env = Env::global_env();
    let c: Object = closure(0, vec!["a".to_string()], vec![symbol("a")], 1000);
    env.insert("f", c.clone());
    assert_eq!(run("(f 4)", &mut env).unwrap().to_string(), "4");
    let d: Object = closure(1, vec![], vec![symbol("car")], 1000);
    env.insert("g", d);
    assert!(matches!(run("(g)", &mut env), Err(RuntimeError::UnboundVariable(_))));
}

#[test]
fn calls_leave_no_scope_behind_unless_a_closure_was_made() {
    let mut env = Env::global_env();
    run(
        "(define count (lambda (n acc) (if (equal n 0) acc (count (+ n -1) (+ acc 2)))))",
        &mut env,
    )
    .unwrap();
    assert_eq!(env.scope_count(), 1);
    assert_eq!(run("(count 40 0)", &mut env).unwrap().to_string(), "80");
    assert_eq!(env.scope_count(), 1);
    assert!(run("(count 40)", &mut env).is_err());
    assert!(run("(count 'a 0)", &mut env).is_err());
    assert_eq!(env.scope_count(), 1);
    run("(define adder (lambda (n) (lambda (m) (+ n m))))", &mut env).unwrap();
    run("(define add2 (adder 2))", &mut env).unwrap();
    assert_eq!(env.scope_count(), 2);
    assert_eq!(run("(add2 1)", &mut env).unwrap().to_string(), "3");
    assert_eq!(run("(add2 5)", &mut env).unwrap().to_string(), "7");
    assert_eq!(env.scope_count(), 2);
    assert_eq!(env.current(), 0);
}

#[test]
fn scopes_under_a_captured_scope_stay() {
    let mut env = Env::global_env();
    run("(define keep nil)", &mut env).unwrap();
    run(
        "(define outer (lambda (a) ((lambda (b) (set! keep (lambda () (+ a b)))) 10)))",
        &mut env,
    )
    .unwrap();
    run("(outer 1)", &mut env).unwrap();
    assert_eq!(env.scope_count(), 3);
    assert_eq!(run("(keep)", &mut env).unwrap().to_string(), "11");
    assert_eq!(env.scope_count(), 3);
    run("(outer 5)", &mut env).unwrap();
    assert_eq!(run("(keep)", &mut env).unwrap().to_string(), "15");
    assert_eq!(env.current(), 0);
}
