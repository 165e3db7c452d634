use lisp::equal::equal;
use lisp::object::{cons, fixnum, nil, symbol, Object};
use lisp::reader::{
    is_delimiter, parse_fixnum, read_ahead, read_from_string, vec_to_cons, ReadError, Reader,
    StringStream,
};

#[test]
fn string_stream() {
    let mut s = StringStream::new("abc");
    assert_eq!(s.next_char(), Ok(b'a'));
    assert_eq!(s.next_char(), Ok(b'b'));
    assert_eq!(s.next_char(), Ok(b'c'));
    assert_eq!(s.next_char(), Err(ReadError::EndOfFile));
    s.update("xyz".as_bytes().to_vec());
    assert_eq!(s.next_char(), Ok(b'x'));
    assert_eq!(s.next_char(), Ok(b'y'));
    assert_eq!(s.next_char(), Ok(b'z'));
    assert_eq!(s.next_char(), Err(ReadError::EndOfFile));
}

fn verify_read(input: &str, expected: Object) {
    assert!(match read_from_string(input) {
        Ok((x, _)) => {
            println!("!!!result: {}", x.to_string());
            equal(x, expected)
        }
        _ => {
            println!("error: {}", input);
            false
        }
    });
}

fn run_read_cases() {
    verify_read("a", symbol("a"));
    verify_read("  a", symbol("a"));
    verify_read("123", fixnum(123));
    verify_read("-123", fixnum(-123));
    verify_read("+123", fixnum(123));
    verify_read("()", nil());
    verify_read("nil", nil());
    verify_read("(+)", cons(symbol("+"), nil()));
    verify_read(
        "(a b c)",
        cons(symbol("a"), cons(symbol("b"), cons(symbol("c"), nil()))),
    );
    verify_read("(a . b)", cons(symbol("a"), symbol("b")));
    verify_read("'foo", cons(symbol("quote"), cons(symbol("foo"), nil())));
    verify_read(
        "'(a b)",
        cons(
            symbol("quote"),
            cons(cons(symbol("a"), cons(symbol("b"), nil())), nil()),
        ),
    );
    verify_read("(() 1)", cons(nil(), cons(fixnum(1), nil())));
}

#[test]
fn read_test() {
    run_read_cases();
}

#[test]
fn reader_test() {
    run_read_cases();
}

#[test]
fn read_reports_bytes_taken() {
    assert_eq!(read_from_string("abc def").unwrap().1, 3);
    assert_eq!(read_from_string("  (a b) c").unwrap().1, 7);
    assert_eq!(read_from_string("(a . b) c").unwrap().1, 7);
    assert_eq!(read_from_string("'x y").unwrap().1, 2);
    assert_eq!(read_from_string("12)").unwrap().1, 2);
}

#[test]
fn read_errors() {
    assert_eq!(read_from_string("").unwrap_err(), ReadError::EndOfFile);
    assert_eq!(read_from_string("   \n\t").unwrap_err(), ReadError::EndOfFile);
    assert_eq!(read_from_string("(a b").unwrap_err(), ReadError::EndOfFile);
    assert_eq!(read_from_string("(a . ").unwrap_err(), ReadError::EndOfFile);
    assert_eq!(read_from_string("(a . b").unwrap_err(), ReadError::EndOfFile);
    assert_eq!(read_from_string("'").unwrap_err(), ReadError::EndOfFile);
    assert_eq!(read_from_string(")").unwrap_err(), ReadError::UnmatchedClosedParen);
    assert_eq!(read_from_string("  ) a").unwrap_err(), ReadError::UnmatchedClosedParen);
    assert_eq!(
        read_from_string("(a . b c)").unwrap_err(),
        ReadError::UnexpectedChar('c', ')')
    );
}

#[test]
fn unmatched_parenthesis_empties_the_source() {
    let mut s = StringStream::new(") a b");
    assert_eq!(read_ahead(&mut s).unwrap_err(), ReadError::UnmatchedClosedParen);
    assert_eq!(s.pos(), 0);
    assert_eq!(s.remaining(), 0);
    assert_eq!(s.peek_char(), Err(ReadError::EndOfFile));
}

#[test]
fn invalid_utf8_in_a_name() {
    let mut s = StringStream::new("");
    s.update(vec![b'a', 0xff, b' ']);
    assert_eq!(read_ahead(&mut s).unwrap_err(), ReadError::InvalidUtf8);
}

#[test]
fn names_outside_ascii() {
    let (x, used) = read_from_string("(λ été)").unwrap();
    assert_eq!(x.to_string(), "(λ été)");
    assert_eq!(used, "(λ été)".len());
    assert!(equal(x, cons(symbol("λ"), cons(symbol("été"), nil()))));
}

#[test]
fn several_forms_from_one_source() {
    let mut s = StringStream::new("1 (2 3)\n'x");
    assert!(equal(read_ahead(&mut s).unwrap(), fixnum(1)));
    assert_eq!(s.pos(), 1);
    assert_eq!(read_ahead(&mut s).unwrap().to_string(), "(2 3)");
    assert_eq!(read_ahead(&mut s).unwrap().to_string(), "(quote x)");
    assert_eq!(read_ahead(&mut s).unwrap_err(), ReadError::EndOfFile);
    s.skip_spaces();
    assert_eq!(s.remaining(), 0);
}

#[test]
fn atoms_and_numbers() {
    assert_eq!(parse_fixnum(b"0"), Some(0));
    assert_eq!(parse_fixnum(b"-0"), Some(0));
    assert_eq!(parse_fixnum(b"007"), Some(7));
    assert_eq!(parse_fixnum(b"+"), None);
    assert_eq!(parse_fixnum(b"-"), None);
    assert_eq!(parse_fixnum(b""), None);
    assert_eq!(parse_fixnum(b"+-1"), None);
    assert_eq!(parse_fixnum(b"12a"), None);
    assert_eq!(parse_fixnum(b"1.5"), None);
    assert_eq!(parse_fixnum(format!("{}", isize::MAX).as_bytes()), Some(isize::MAX));
    assert_eq!(parse_fixnum(format!("{}", isize::MIN).as_bytes()), Some(isize::MIN));
    assert_eq!(parse_fixnum(b"9223372036854775808"), None);
    assert_eq!(parse_fixnum(b"-9223372036854775809"), None);
    assert_eq!(parse_fixnum(b"123456789012345678901234567890"), None);
    let (x, _) = read_from_string("123456789012345678901234567890").unwrap();
    assert!(equal(x, symbol("123456789012345678901234567890")));
    let (x, _) = read_from_string("a.b").unwrap();
    assert!(equal(x, symbol("a.b")));
    let (x, _) = read_from_string("(a .5)").unwrap();
    assert!(equal(x, cons(symbol("a"), fixnum(5))));
}

#[test]
fn delimiters() {
    for b in [b'(', b')', b'\'', b' ', b'\t', b'\n', b'\r', 0x0cu8] {
        assert!(is_delimiter(b));
    }
    for b in [b'a', b'.', b'0', b'"', 0x0bu8, 0xffu8] {
        assert!(!is_delimiter(b));
    }
}

#[test]
fn vec_to_cons_builds_chains() {
    assert_eq!(vec_to_cons(vec![], nil()).to_string(), "nil");
    assert_eq!(vec_to_cons(vec![], fixnum(3)).to_string(), "3");
    assert_eq!(
        vec_to_cons(vec![fixnum(1), fixnum(2)], nil()).to_string(),
        "(1 2)"
    );
    assert_eq!(
        vec_to_cons(vec![fixnum(1), fixnum(2)], fixnum(3)).to_string(),
        "(1 2 . 3)"
    );
}
