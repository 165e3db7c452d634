use lisp::object::{cons, fixnum, nil, symbol};

#[test]
fn display_fixnum_test() {
    let s = fixnum(123).to_string();
    assert_eq!(s, "123");
}

#[test]
fn display_symbol_test() {
    let s = symbol("car").to_string();
    assert_eq!(s, "car");
}

#[test]
fn display_cons_test() {
    let obj = cons(fixnum(1), fixnum(2));
    let s = obj.to_string();
    assert_eq!(s, "(1 . 2)");

    let obj = cons(fixnum(1), cons(fixnum(2), fixnum(3)));
    let s = obj.to_string();
    assert_eq!(s, "(1 2 . 3)");

    let obj = cons(cons(fixnum(1), fixnum(2)), cons(fixnum(3), fixnum(4)));
    let s = obj.to_string();
    assert_eq!(s, "((1 . 2) 3 . 4)");

    let obj = cons(symbol("+"), cons(fixnum(123), cons(fixnum(456), nil())));
    let s = obj.to_string();
    assert_eq!(s, "(+ 123 456)");
}
