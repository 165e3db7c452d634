use lisp::env::Env;
use lisp::error::RuntimeError;
use lisp::eval::eval;
use lisp::object::{closure, cons, fixnum, nil, symbol, Cons, Native, ObjectKind, ObjectType};
use lisp::reader::{read_from_string, ReadError};
use std::rc::Rc;

#[test]
fn object_display_fixnum_test() {
    let s = fixnum(123).to_string();
    assert_eq!(s, "123");
}

#[test]
fn object_display_symbol_test() {
    let s = symbol("car").to_string();
    assert_eq!(s, "car");
}

#[test]
fn object_display_cons_test() {
    let obj = cons(fixnum(1), fixnum(2));
    let s = obj.to_string();
    assert_eq!(s, "(1 . 2)");

    let obj = cons(fixnum(1), cons(fixnum(2), fixnum(3)));
    let s = obj.to_string();
    assert_eq!(s, "(1 2 . 3)");

    let obj = cons(cons(fixnum(1), fixnum(2)), cons(fixnum(3), fixnum(4)));
    let s = obj.to_string();
    assert_eq!(s, "((1 . 2) 3 . 4)");

    let obj = cons(symbol("+"), cons(fixnum(123), cons(fixnum(456), nil())));
    let s = obj.to_string();
    assert_eq!(s, "(+ 123 456)");
}

#[test]
fn display_nil_and_numbers() {
    assert_eq!(nil().to_string(), "nil");
    assert_eq!(fixnum(0).to_string(), "0");
    assert_eq!(fixnum(7).to_string(), "7");
    assert_eq!(fixnum(10).to_string(), "10");
    assert_eq!(fixnum(-1).to_string(), "-1");
    assert_eq!(fixnum(-1200).to_string(), "-1200");
    assert_eq!(fixnum(9876543210).to_string(), "9876543210");
    assert_eq!(fixnum(isize::MAX).to_string(), format!("{}", isize::MAX));
    assert_eq!(fixnum(isize::MIN).to_string(), format!("{}", isize::MIN));
}

#[test]
fn display_procedures() {
    let native = Rc::new(ObjectKind::Func(Native::Car));
    assert_eq!(native.to_string(), "<Fn>");
    let c = closure(0, vec!["x".to_string()], vec![symbol("x")], 0);
    assert_eq!(c.to_string(), "<Closure>");
    assert_eq!(cons(native, cons(c, nil())).to_string(), "(<Fn> <Closure>)");
}

#[test]
fn display_nested_lists() {
    let obj = cons(nil(), cons(cons(symbol("a"), nil()), nil()));
    assert_eq!(obj.to_string(), "(nil (a))");
    let pair = Cons::new(fixnum(1), nil());
    assert_eq!(pair.to_string(), "(1)");
}

#[test]
fn list_iter_hands_out_elements_in_order() {
    let list = Cons::new(fixnum(1), cons(fixnum(2), cons(fixnum(3), fixnum(4))));
    let mut it = list.iter();
    assert_eq!(it.next().unwrap().to_string(), "1");
    assert_eq!(it.next().unwrap().to_string(), "2");
    assert_eq!(it.next().unwrap().to_string(), "3");
    assert!(it.next().is_none());
    assert!(it.next().is_none());
    let all = list.iter().collect();
    assert_eq!(all.len(), 3);
    assert_eq!(all[2].to_string(), "3");
}

#[test]
fn runtime_error_messages() {
    assert_eq!(
        RuntimeError::UnboundVariable("foo".to_string()).to_string(),
        "Unbound variable: foo"
    );
    assert_eq!(
        RuntimeError::MismatchType(cons(fixnum(1), fixnum(2)), ObjectType::Number).to_string(),
        "The value (1 . 2) is not of type Number"
    );
    assert_eq!(
        RuntimeError::MismatchType(symbol("a"), ObjectType::Cons).to_string(),
        "The value a is not of type Cons"
    );
    assert_eq!(
        RuntimeError::MismatchType(fixnum(1), ObjectType::Function).to_string(),
        "The value 1 is not of type Function"
    );
    assert_eq!(
        RuntimeError::MismatchType(fixnum(1), ObjectType::Symbol).to_string(),
        "The value 1 is not of type Symbol"
    );
    assert_eq!(
        RuntimeError::MismatchType(fixnum(1), ObjectType::List).to_string(),
        "The value 1 is not of type List"
    );
    assert_eq!(
        RuntimeError::WrongNumArgs(0, 12).to_string(),
        "Wrong number of arguments: expected = 12, actual = 0"
    );
    assert_eq!(
        RuntimeError::TooFewArguments(1, 2).to_string(),
        "Too few arguments (1 arguments provided, at least 2 required)"
    );
    assert_eq!(
        RuntimeError::TooManyArguments(4, 3).to_string(),
        "Too many arguments (4 arguments provided, at most 3 required)"
    );
    assert_eq!(RuntimeError::RecursionLimit.to_string(), "Recursion limit exceeded");
}

#[test]
fn read_error_messages() {
    assert_eq!(ReadError::EndOfFile.to_string(), "End of file");
    assert_eq!(
        ReadError::UnmatchedClosedParen.to_string(),
        "Unmatched closed parenthesis"
    );
    assert_eq!(
        ReadError::UnexpectedChar('c', ')').to_string(),
        "Expecting character ')', but it's character 'c'"
    );
    assert_eq!(
        ReadError::UnexpectedChar('\n', ')').to_string(),
        "Expecting character ')', but it's character '\\n'"
    );
    assert_eq!(ReadError::InvalidUtf8.to_string(), "Invalid UTF-8 in a name");
}

#[test]
fn printed_values_read_back() {
    let texts = ["(1 . 2)", "(1 2 . 3)", "((1 . 2) 3 . 4)", "(+ 123 456)", "nil", "-42", "(a (b (c)) d)"];
    for text in texts {
        let (x, used) = read_from_string(text).unwrap();
        assert_eq!(x.to_string(), text);
        assert_eq!(used, text.len());
    }
}

#[test]
fn error_values_print_after_evaluation() {
    let mut env = Env::global_env();
    let (x, _) = read_from_string("(car 'a)").unwrap();
    let e = eval(x, &mut env).unwrap_err();
    assert_eq!(e.to_string(), "The value a is not of type Cons");
}

#[test]
fn printed_integers_read_back() {
    for n in [0, 1, -1, 9, 10, -10, 1234567890, isize::MAX, isize::MIN, isize::MIN + 1] {
        let text = fixnum(n).to_string();
        let (x, used) = read_from_string(&text).unwrap();
        assert!(lisp::equal::equal(x, fixnum(n)));
        assert_eq!(used, text.len());
    }
}
