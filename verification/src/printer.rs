//! The printed form of values and of errors.
//!
//! A proper list prints as `(a b c)`, a chain that ends in another value as
//! `(a b . c)`, the empty value as `nil`, integers in decimal, symbols as
//! their names, and procedures as a placeholder.

use crate::error::{Failure, RuntimeError};
use crate::object::{Cons, ObjectKind, ObjectType, Value};
use vstd::prelude::*;
use vstd::string::StringExecFns;

verus! {

/// The character of the decimal digit `d`.
pub open spec fn digit_char(d: int) -> char {
    if d == 0 {
        '0'
    } else if d == 1 {
        '1'
    } else if d == 2 {
        '2'
    } else if d == 3 {
        '3'
    } else if d == 4 {
        '4'
    } else if d == 5 {
        '5'
    } else if d == 6 {
        '6'
    } else if d == 7 {
        '7'
    } else if d == 8 {
        '8'
    } else {
        '9'
    }
}

/// The decimal digits of `n`, without leading zeros.
pub open spec fn digits(n: nat) -> Seq<char>
    decreases n,
{
    if n < 10 {
        seq![digit_char(n as int)]
    } else {
        digits(n / 10).push(digit_char((n % 10) as int))
    }
}

/// `n` in decimal, with a minus sign where it is negative.
pub open spec fn decimal(n: int) -> Seq<char> {
    if n < 0 {
        seq!['-'].add(digits((-n) as nat))
    } else {
        digits(n as nat)
    }
}

/// The printed form of a value.
pub open spec fn print_spec(v: Value) -> Seq<char>
    decreases v, 0nat,
{
    match v {
        Value::Nil => "nil"@,
        Value::Fixnum(n) => decimal(n),
        Value::Symbol(name) => name,
        Value::Cons(first, rest) => "("@.add(print_spec(*first)).add(tail_spec(*rest)),
        Value::Func(_) => "<Fn>"@,
        Value::Closure(_) => "<Closure>"@,
    }
}

/// The printed form of what follows an element of a chain: the other
/// elements, then what ends the chain, then the closing parenthesis.
pub open spec fn tail_spec(rest: Value) -> Seq<char>
    decreases rest, 1nat,
{
    match rest {
        Value::Cons(first, more) => " "@.add(print_spec(*first)).add(tail_spec(*more)),
        Value::Nil => ")"@,
        other => " . "@.add(print_spec(other)).add(")"@),
    }
}

/// The name of a kind of value.
pub open spec fn kind_name(t: ObjectType) -> Seq<char> {
    match t {
        ObjectType::Number => "Number"@,
        ObjectType::Function => "Function"@,
        ObjectType::Cons => "Cons"@,
        ObjectType::Symbol => "Symbol"@,
        ObjectType::List => "List"@,
    }
}

/// The message of an error.
pub open spec fn message_spec(f: Failure) -> Seq<char> {
    match f {
        Failure::UnboundVariable(name) => "Unbound variable: "@.add(name),
        Failure::MismatchType(value, expected) => "The value "@.add(print_spec(value)).add(
            " is not of type "@,
        ).add(kind_name(expected)),
        Failure::WrongNumArgs(actual, expected) => "Wrong number of arguments: expected = "@.add(
            decimal(expected as int),
        ).add(", actual = "@).add(decimal(actual as int)),
        Failure::TooFewArguments(actual, min) => "Too few arguments ("@.add(
            decimal(actual as int),
        ).add(" arguments provided, at least "@).add(decimal(min as int)).add(" required)"@),
        Failure::TooManyArguments(actual, max) => "Too many arguments ("@.add(
            decimal(actual as int),
        ).add(" arguments provided, at most "@).add(decimal(max as int)).add(" required)"@),
        Failure::RecursionLimit => "Recursion limit exceeded"@,
    }
}

/// The text of one decimal digit.
fn digit_str(d: u8) -> (r: &'static str)
    requires
        d < 10,
    ensures
        r@ == seq![digit_char(d as int)],
{
    proof {
        reveal_strlit("0");
        reveal_strlit("1");
        reveal_strlit("2");
        reveal_strlit("3");
        reveal_strlit("4");
        reveal_strlit("5");
        reveal_strlit("6");
        reveal_strlit("7");
        reveal_strlit("8");
        reveal_strlit("9");
    }
    let r = if d == 0 {
        "0"
    } else if d == 1 {
        "1"
    } else if d == 2 {
        "2"
    } else if d == 3 {
        "3"
    } else if d == 4 {
        "4"
    } else if d == 5 {
        "5"
    } else if d == 6 {
        "6"
    } else if d == 7 {
        "7"
    } else if d == 8 {
        "8"
    } else {
        "9"
    };
    assert(r@ =~= seq![digit_char(d as int)]);
    r
}

/// The characters of the digits in `low`, last to first.
spec fn low_digits(low: Seq<u8>) -> Seq<char>
    decreases low.len(),
{
    if low.len() == 0 {
        Seq::empty()
    } else {
        seq![digit_char(low.last() as int)].add(low_digits(low.drop_last()))
    }
}

/// Appends the decimal digits of `n` to `out`.
pub fn write_natural(n: u128, out: &mut String)
    ensures
        final(out)@ == old(out)@.add(digits(n as nat)),
{
    let mut low: Vec<u8> = Vec::new();
    let mut m: u128 = n;
    assert(digits(n as nat).add(low_digits(low@)) =~= digits(n as nat));
    while m >= 10
        invariant
            digits(n as nat) == digits(m as nat).add(low_digits(low@)),
            forall|k: int| 0 <= k < low@.len() ==> low@[k] < 10,
        decreases m,
    {
        let ghost before = low@;
        let d: u8 = (m % 10) as u8;
        low.push(d);
        assert(low@.drop_last() =~= before);
        assert(digits(m as nat).add(low_digits(before)) =~= digits((m / 10) as nat).add(
            low_digits(low@),
        ));
        m = m / 10;
    }
    out.append(digit_str(m as u8));
    let mut i: usize = low.len();
    assert(low@.take(i as int) =~= low@);
    assert(out@.add(low_digits(low@)) =~= old(out)@.add(digits(n as nat)));
    while i > 0
        invariant
            i <= low@.len(),
            forall|k: int| 0 <= k < low@.len() ==> low@[k] < 10,
            out@.add(low_digits(low@.take(i as int))) == old(out)@.add(digits(n as nat)),
        decreases i,
    {
        i = i - 1;
        let ghost text = out@;
        assert(low@.take(i as int + 1).drop_last() =~= low@.take(i as int));
        assert(low@.take(i as int + 1).last() == low@[i as int]);
        out.append(digit_str(low[i]));
        assert(out@.add(low_digits(low@.take(i as int))) =~= text.add(
            low_digits(low@.take(i as int + 1)),
        ));
    }
    assert(low@.take(0) =~= Seq::<u8>::empty());
    assert(out@.add(low_digits(low@.take(0))) =~= out@);
}

/// Appends `n` in decimal to `out`.
pub fn write_decimal(n: isize, out: &mut String)
    ensures
        final(out)@ == old(out)@.add(decimal(n as int)),
{
    if n < 0 {
        proof {
            reveal_strlit("-");
        }
        out.append("-");
        assert(out@ =~= old(out)@.add(seq!['-']));
        let m: u128 = (-(n as i128)) as u128;
        write_natural(m, out);
        assert(out@ =~= old(out)@.add(decimal(n as int)));
    } else {
        write_natural(n as u128, out);
    }
}

/// The name of a kind of value.
fn kind_str(t: ObjectType) -> (r: &'static str)
    ensures
        r@ == kind_name(t),
{
    match t {
        ObjectType::Number => "Number",
        ObjectType::Function => "Function",
        ObjectType::Cons => "Cons",
        ObjectType::Symbol => "Symbol",
        ObjectType::List => "List",
    }
}

impl ObjectKind {
    /// Appends the printed form of this value to `out`.
    pub fn write(&self, out: &mut String)
        ensures
            final(out)@ == old(out)@.add(print_spec(self@)),
        decreases self, 0nat,
    {
        match self {
            ObjectKind::Nil => out.append("nil"),
            ObjectKind::Fixnum(n) => write_decimal(*n, out),
            ObjectKind::Symbol(name) => out.append(name.as_str()),
            ObjectKind::Cons(cons) => cons.write(out),
            ObjectKind::Func(_) => out.append("<Fn>"),
            ObjectKind::Closure(_) => out.append("<Closure>"),
        }
    }

    /// The printed form of this value.
    pub fn to_string(&self) -> (r: String)
        ensures
            r@ == print_spec(self@),
    {
        let mut out = String::new();
        self.write(&mut out);
        assert(out@ =~= print_spec(self@));
        out
    }
}

impl Cons {
    /// Appends the printed form of the chain that starts at this pair to
    /// `out`.
    pub fn write(&self, out: &mut String)
        ensures
            final(out)@ == old(out)@.add(print_spec(self.value())),
        decreases self, 1nat,
    {
        out.append("(");
        let mut cur: &Cons = self;
        loop
            invariant_except_break
                out@.add(print_spec(cur.car@)).add(tail_spec(cur.cdr@)) == old(out)@.add(
                    print_spec(self.value()),
                ),
            invariant
                cur == self || decreases_to!(self => cur),
            ensures
                out@ == old(out)@.add(print_spec(self.value())),
            decreases cur,
        {
            let ghost text = out@;
            cur.car.write(out);
            match &*cur.cdr {
                ObjectKind::Cons(next) => {
                    out.append(" ");
                    assert(out@.add(print_spec(next.car@)).add(tail_spec(next.cdr@)) =~= text.add(
                        print_spec(cur.car@),
                    ).add(tail_spec(cur.cdr@)));
                    cur = next;
                },
                ObjectKind::Nil => {
                    out.append(")");
                    assert(out@ =~= text.add(print_spec(cur.car@)).add(tail_spec(cur.cdr@)));
                    break ;
                },
                other => {
                    out.append(" . ");
                    other.write(out);
                    out.append(")");
                    assert(out@ =~= text.add(print_spec(cur.car@)).add(tail_spec(cur.cdr@)));
                    break ;
                },
            }
        }
    }

    /// The printed form of the chain that starts at this pair.
    pub fn to_string(&self) -> (r: String)
        ensures
            r@ == print_spec(self.value()),
    {
        let mut out = String::new();
        self.write(&mut out);
        assert(out@ =~= print_spec(self.value()));
        out
    }
}

impl RuntimeError {
    /// The message of this error.
    pub fn to_string(&self) -> (r: String)
        ensures
            r@ == message_spec(self@),
    {
        let mut out = String::new();
        match self {
            RuntimeError::UnboundVariable(name) => {
                out.append("Unbound variable: ");
                out.append(name.as_str());
            },
            RuntimeError::MismatchType(value, expected) => {
                out.append("The value ");
                value.write(&mut out);
                out.append(" is not of type ");
                out.append(kind_str(*expected));
            },
            RuntimeError::WrongNumArgs(actual, expected) => {
                out.append("Wrong number of arguments: expected = ");
                write_natural(*expected as u128, &mut out);
                out.append(", actual = ");
                write_natural(*actual as u128, &mut out);
            },
            RuntimeError::TooFewArguments(actual, min) => {
                out.append("Too few arguments (");
                write_natural(*actual as u128, &mut out);
                out.append(" arguments provided, at least ");
                write_natural(*min as u128, &mut out);
                out.append(" required)");
            },
            RuntimeError::TooManyArguments(actual, max) => {
                out.append("Too many arguments (");
                write_natural(*actual as u128, &mut out);
                out.append(" arguments provided, at most ");
                write_natural(*max as u128, &mut out);
                out.append(" required)");
            },
            RuntimeError::RecursionLimit => {
                out.append("Recursion limit exceeded");
            },
        }
        assert(out@ =~= message_spec(self@));
        out
    }
}

} // verus!
