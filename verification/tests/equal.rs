use lisp::equal::equal;
use lisp::object::{cons, fixnum, nil, symbol};

#[test]
fn nil_test() {
    assert!(equal(nil(), nil()));
    assert!(!equal(nil(), fixnum(1)));
}

#[test]
fn fixnum_test() {
    assert!(equal(fixnum(1), fixnum(1)));
    assert!(!equal(fixnum(1), fixnum(2)));
    assert!(!equal(fixnum(1), nil()));
}

#[test]
fn symbol_test() {
    assert!(equal(symbol("foo"), symbol("foo")));
    assert!(!equal(symbol("foo"), symbol("bar")));
    assert!(!equal(symbol("foo"), nil()));
    assert!(!equal(symbol("foo"), fixnum(1)));
}

#[test]
fn equal_cons_test() {
    assert!(equal(
        cons(fixnum(1), fixnum(2)),
        cons(fixnum(1), fixnum(2)),
    ));
    assert!(!equal(
        cons(fixnum(1), fixnum(2)),
        cons(fixnum(1), fixnum(3)),
    ));
    assert!(!equal(
        cons(fixnum(1), fixnum(2)),
        cons(fixnum(3), fixnum(2)),
    ));

    assert!(!equal(
        cons(symbol("+"), nil()),
        fixnum(100)
    ));
}

#[test]
fn equal_is_reflexive_on_nested_pairs() {
    let x = cons(cons(fixnum(1), symbol("a")), cons(nil(), fixnum(-7)));
    let y = cons(cons(fixnum(1), symbol("a")), cons(nil(), fixnum(-7)));
    assert!(equal(x.clone(), x.clone()));
    assert!(equal(x.clone(), y.clone()));
    assert!(equal(y, x));
}

#[test]
fn symbol_nil_is_the_empty_value() {
    assert!(equal(symbol("nil"), nil()));
    assert!(!equal(symbol("nix"), nil()));
    assert!(!equal(symbol("ni"), nil()));
}
