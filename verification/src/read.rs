//! The grammar of the reader: what a text denotes, and the errors of
//! reading.
//!
//! The grammar is given by `read_spec` and the functions beside it, over
//! the bytes of a text. A form is an atom (an integer or a name), a list in
//! parentheses, which a dot and one more form may end, or a quote mark in
//! front of a form.

use crate::identity::plain;
use crate::object::{chain, pair, symbol_value, Object, Value};
use crate::printer::{decimal, digit_char, digits};
use vstd::prelude::*;
use vstd::string::StringExecFns;
use vstd::utf8::{
    decode_utf8, encode_utf8, is_ascii_chars, is_ascii_chars_encode_utf8,
    is_char_boundary_iff_not_is_continuation_byte, is_char_boundary_start_end_of_seq,
    pop_first_scalar, valid_utf8, valid_utf8_split,
};

verus! {

/// What can go wrong while a text is read.
#[derive(Debug, Copy, Clone, PartialEq, Eq)]
pub enum ReadError {
    /// The text ended inside a form, or before one began.
    EndOfFile,
    /// A closing parenthesis that closes nothing.
    UnmatchedClosedParen,
    /// The character that was found, and the one that was required.
    UnexpectedChar(char, char),
    /// A name whose bytes are no UTF-8 text.
    InvalidUtf8,
}

pub type ReadResult = Result<Object, ReadError>;

/// The model of a reader's result.
pub open spec fn parsed(r: ReadResult) -> Result<Value, ReadError> {
    match r {
        Ok(x) => Ok(x@),
        Err(e) => Err(e),
    }
}

/// Space, tab, line feed, form feed or carriage return.
pub open spec fn is_space_spec(b: u8) -> bool {
    b == 0x20 || b == 0x09 || b == 0x0a || b == 0x0c || b == 0x0d
}

/// A byte that ends a name or a number: a parenthesis, a quote mark or a
/// space.
pub open spec fn is_delimiter_spec(b: u8) -> bool {
    b == 0x28 || b == 0x29 || b == 0x27 || is_space_spec(b)
}

pub open spec fn is_digit(b: u8) -> bool {
    0x30 <= b <= 0x39
}

/// `s` without the spaces it begins with.
pub open spec fn skip_spaces_spec(s: Seq<u8>) -> Seq<u8>
    decreases s.len(),
{
    if s.len() > 0 && is_space_spec(s[0]) {
        skip_spaces_spec(s.drop_first())
    } else {
        s
    }
}

/// The number of bytes in front of the first delimiter of `s`.
pub open spec fn atom_len(s: Seq<u8>) -> nat
    decreases s.len(),
{
    if s.len() == 0 || is_delimiter_spec(s[0]) {
        0
    } else {
        1 + atom_len(s.drop_first())
    }
}

/// The number that a text of decimal digits denotes.
pub open spec fn digits_value(s: Seq<u8>) -> nat
    decreases s.len(),
{
    if s.len() == 0 {
        0
    } else {
        digits_value(s.drop_last()) * 10 + (s.last() - 0x30) as nat
    }
}

pub open spec fn all_digits(s: Seq<u8>) -> bool {
    forall|i: int| 0 <= i < s.len() ==> is_digit(#[trigger] s[i])
}

/// The integer that `s` denotes: an optional sign, then one decimal digit
/// or more, of a number in the range of the machine's integers.
pub open spec fn fixnum_spec(s: Seq<u8>) -> Option<int> {
    let signed = s.len() > 0 && (s[0] == 0x2b || s[0] == 0x2d);
    let body = if signed {
        s.drop_first()
    } else {
        s
    };
    let value = if signed && s[0] == 0x2d {
        -(digits_value(body) as int)
    } else {
        digits_value(body) as int
    };
    if body.len() > 0 && all_digits(body) && isize::MIN <= value <= isize::MAX {
        Some(value)
    } else {
        None
    }
}

/// What the bytes of an atom denote: an integer where they spell one, else
/// the symbol of that name.
pub open spec fn atom_spec(s: Seq<u8>) -> Result<Value, ReadError> {
    match fixnum_spec(s) {
        Some(n) => Ok(Value::Fixnum(n)),
        None => if valid_utf8(s) {
            Ok(symbol_value(decode_utf8(s)))
        } else {
            Err(ReadError::InvalidUtf8)
        },
    }
}

/// The form `(quote v)`.
pub open spec fn quoted(v: Value) -> Value {
    pair(Value::Symbol("quote"@), pair(v, Value::Nil))
}

/// Skipping spaces never lengthens a text.
pub proof fn lemma_skip_shorter(s: Seq<u8>)
    ensures
        skip_spaces_spec(s).len() <= s.len(),
    decreases s.len(),
{
    if s.len() > 0 && is_space_spec(s[0]) {
        lemma_skip_shorter(s.drop_first());
    }
}

/// The first form in `s`, and the bytes that follow it. After an unmatched
/// closing parenthesis nothing follows: the source is emptied.
pub open spec fn read_spec(s: Seq<u8>) -> (Result<Value, ReadError>, Seq<u8>)
    decreases s.len(), 1nat,
{
    let t = skip_spaces_spec(s);
    if t.len() == 0 {
        (Err(ReadError::EndOfFile), t)
    } else if t[0] == 0x29 {
        (Err(ReadError::UnmatchedClosedParen), Seq::empty())
    } else if t[0] == 0x28 {
        proof {
            lemma_skip_shorter(s);
        }
        list_spec(t.drop_first())
    } else if t[0] == 0x27 {
        proof {
            lemma_skip_shorter(s);
        }
        let (r, rest) = read_spec(t.drop_first());
        match r {
            Ok(v) => (Ok(quoted(v)), rest),
            Err(e) => (Err(e), rest),
        }
    } else {
        (atom_spec(t.take(atom_len(t) as int)), t.skip(atom_len(t) as int))
    }
}

/// The list whose opening parenthesis was read and whose elements and
/// closing parenthesis `s` begins with, and the bytes that follow it.
pub open spec fn list_spec(s: Seq<u8>) -> (Result<Value, ReadError>, Seq<u8>)
    decreases s.len(), 3nat,
{
    let t = skip_spaces_spec(s);
    if t.len() == 0 {
        (Err(ReadError::EndOfFile), t)
    } else if t[0] == 0x29 {
        (Ok(Value::Nil), t.drop_first())
    } else {
        proof {
            lemma_skip_shorter(s);
        }
        elems_spec(t, Seq::empty())
    }
}

/// The list that holds `acc` and then the elements that `s` begins with,
/// up to its closing parenthesis, and the bytes that follow it. A dot
/// after an element announces the value that ends the chain. (The test on
/// the two lengths makes the definition well founded and never holds: see
/// `law_read_consumes`.)
pub open spec fn elems_spec(s: Seq<u8>, acc: Seq<Value>) -> (Result<Value, ReadError>, Seq<u8>)
    decreases s.len(), 2nat,
{
    let (r, rest) = read_spec(s);
    match r {
        Err(e) => (Err(e), rest),
        Ok(v) => {
            let u = skip_spaces_spec(rest);
            if rest.len() >= s.len() || u.len() == 0 {
                (Err(ReadError::EndOfFile), u)
            } else if u[0] == 0x2e {
                proof {
                    lemma_skip_shorter(rest);
                }
                let (r2, rest2) = read_spec(u.drop_first());
                match r2 {
                    Err(e) => (Err(e), rest2),
                    Ok(last) => {
                        let w = skip_spaces_spec(rest2);
                        if w.len() == 0 {
                            (Err(ReadError::EndOfFile), w)
                        } else if w[0] == 0x29 {
                            (Ok(chain(acc.push(v), last)), w.drop_first())
                        } else {
                            (Err(ReadError::UnexpectedChar(w[0] as char, ')')), w)
                        }
                    },
                }
            } else if u[0] == 0x29 {
                (Ok(chain(acc.push(v), Value::Nil)), u.drop_first())
            } else {
                proof {
                    lemma_skip_shorter(rest);
                }
                elems_spec(u, acc.push(v))
            }
        },
    }
}

/// What is left after the spaces were skipped begins with no space.
pub proof fn lemma_skip_stops(s: Seq<u8>)
    ensures
        skip_spaces_spec(s).len() > 0 ==> !is_space_spec(skip_spaces_spec(s)[0]),
    decreases s.len(),
{
    if s.len() > 0 && is_space_spec(s[0]) {
        lemma_skip_stops(s.drop_first());
    }
}

/// Reading never lengthens a text, and a form that was read took at least
/// one byte of it.
pub proof fn law_read_consumes(s: Seq<u8>)
    ensures
        read_spec(s).1.len() <= s.len(),
        read_spec(s).0 is Ok ==> read_spec(s).1.len() < s.len(),
    decreases s.len(), 1nat,
{
    let t = skip_spaces_spec(s);
    lemma_skip_shorter(s);
    lemma_skip_stops(s);
    if t.len() > 0 {
        if t[0] == 0x28 {
            lemma_list_consumes(t.drop_first());
        } else if t[0] == 0x27 {
            law_read_consumes(t.drop_first());
        } else if t[0] != 0x29 {
            lemma_atom_end(t);
            assert(atom_len(t) >= 1);
        }
    }
}

proof fn lemma_list_consumes(s: Seq<u8>)
    ensures
        list_spec(s).1.len() <= s.len(),
        list_spec(s).0 is Ok ==> list_spec(s).1.len() < s.len(),
    decreases s.len(), 3nat,
{
    let t = skip_spaces_spec(s);
    lemma_skip_shorter(s);
    if t.len() > 0 && t[0] != 0x29 {
        lemma_elems_consumes(t, Seq::empty());
    }
}

proof fn lemma_elems_consumes(s: Seq<u8>, acc: Seq<Value>)
    ensures
        elems_spec(s, acc).1.len() <= s.len(),
        elems_spec(s, acc).0 is Ok ==> elems_spec(s, acc).1.len() < s.len(),
    decreases s.len(), 2nat,
{
    law_read_consumes(s);
    let (r, rest) = read_spec(s);
    match r {
        Err(_) => {},
        Ok(v) => {
            let u = skip_spaces_spec(rest);
            lemma_skip_shorter(rest);
            if u.len() > 0 {
                if u[0] == 0x2e {
                    law_read_consumes(u.drop_first());
                    let rest2 = read_spec(u.drop_first()).1;
                    lemma_skip_shorter(rest2);
                } else if u[0] != 0x29 {
                    lemma_elems_consumes(u, acc.push(v));
                }
            }
        },
    }
}

/// An atom ends where its text ends, or in front of a delimiter.
pub proof fn lemma_atom_end(s: Seq<u8>)
    ensures
        atom_len(s) <= s.len(),
        atom_len(s) < s.len() ==> is_delimiter_spec(s[atom_len(s) as int]),
    decreases s.len(),
{
    if s.len() > 0 && !is_delimiter_spec(s[0]) {
        lemma_atom_end(s.drop_first());
    }
}

/// A text in UTF-8 that begins with a byte of ASCII is a text in UTF-8
/// without that byte.
proof fn lemma_valid_after_ascii(s: Seq<u8>)
    requires
        valid_utf8(s),
        s.len() > 0,
        s[0] < 0x80,
    ensures
        valid_utf8(s.drop_first()),
{
    assert(pop_first_scalar(s) =~= s.drop_first());
}

proof fn lemma_skip_valid(s: Seq<u8>)
    requires
        valid_utf8(s),
    ensures
        valid_utf8(skip_spaces_spec(s)),
    decreases s.len(),
{
    if s.len() > 0 && is_space_spec(s[0]) {
        lemma_valid_after_ascii(s);
        lemma_skip_valid(s.drop_first());
    }
}

/// In a text in UTF-8, an atom and what follows it are texts in UTF-8.
proof fn lemma_atom_valid(s: Seq<u8>)
    requires
        valid_utf8(s),
    ensures
        valid_utf8(s.take(atom_len(s) as int)),
        valid_utf8(s.skip(atom_len(s) as int)),
{
    let k = atom_len(s) as int;
    lemma_atom_end(s);
    if k < s.len() {
        is_char_boundary_iff_not_is_continuation_byte(s, k);
    } else {
        is_char_boundary_start_end_of_seq(s);
    }
    valid_utf8_split(s, k);
    assert(s.take(k) =~= s.subrange(0, k));
    assert(s.skip(k) =~= s.subrange(k, s.len() as int));
}

/// Reading a text in UTF-8 never ends in `InvalidUtf8`, and what follows
/// the form is a text in UTF-8 again.
pub proof fn law_read_text(s: Seq<u8>)
    requires
        valid_utf8(s),
    ensures
        read_spec(s).0 != Err::<Value, ReadError>(ReadError::InvalidUtf8),
        valid_utf8(read_spec(s).1),
    decreases s.len(), 1nat,
{
    let t = skip_spaces_spec(s);
    lemma_skip_shorter(s);
    lemma_skip_valid(s);
    if t.len() > 0 {
        if t[0] == 0x28 {
            lemma_valid_after_ascii(t);
            lemma_list_text(t.drop_first());
        } else if t[0] == 0x27 {
            lemma_valid_after_ascii(t);
            law_read_text(t.drop_first());
        } else if t[0] != 0x29 {
            lemma_atom_valid(t);
        }
    }
}

proof fn lemma_list_text(s: Seq<u8>)
    requires
        valid_utf8(s),
    ensures
        list_spec(s).0 != Err::<Value, ReadError>(ReadError::InvalidUtf8),
        valid_utf8(list_spec(s).1),
    decreases s.len(), 3nat,
{
    let t = skip_spaces_spec(s);
    lemma_skip_shorter(s);
    lemma_skip_valid(s);
    if t.len() > 0 {
        if t[0] == 0x29 {
            lemma_valid_after_ascii(t);
        } else {
            lemma_elems_text(t, Seq::empty());
        }
    }
}

proof fn lemma_elems_text(s: Seq<u8>, acc: Seq<Value>)
    requires
        valid_utf8(s),
    ensures
        elems_spec(s, acc).0 != Err::<Value, ReadError>(ReadError::InvalidUtf8),
        valid_utf8(elems_spec(s, acc).1),
    decreases s.len(), 2nat,
{
    law_read_text(s);
    law_read_consumes(s);
    let (r, rest) = read_spec(s);
    match r {
        Err(_) => {},
        Ok(v) => {
            let u = skip_spaces_spec(rest);
            lemma_skip_shorter(rest);
            lemma_skip_valid(rest);
            if u.len() > 0 {
                if u[0] == 0x2e {
                    lemma_valid_after_ascii(u);
                    law_read_text(u.drop_first());
                    let rest2 = read_spec(u.drop_first()).1;
                    let w = skip_spaces_spec(rest2);
                    lemma_skip_valid(rest2);
                    if w.len() > 0 && w[0] == 0x29 {
                        lemma_valid_after_ascii(w);
                    }
                } else if u[0] == 0x29 {
                    lemma_valid_after_ascii(u);
                } else {
                    lemma_elems_text(u, acc.push(v));
                }
            }
        },
    }
}

proof fn lemma_chain_plain(elems: Seq<Value>, tail: Value)
    requires
        forall|i: int| 0 <= i < elems.len() ==> plain(#[trigger] elems[i]),
        plain(tail),
    ensures
        plain(chain(elems, tail)),
    decreases elems.len(),
{
    if elems.len() > 0 {
        assert(plain(elems[0]));
        assert forall|i: int| 0 <= i < elems.drop_first().len() implies plain(
            #[trigger] elems.drop_first()[i],
        ) by {
            assert(elems.drop_first()[i] == elems[i + 1]);
        }
        lemma_chain_plain(elems.drop_first(), tail);
    }
}

/// What is read holds no closure.
pub proof fn law_read_plain(s: Seq<u8>)
    ensures
        read_spec(s).0 matches Ok(v) ==> plain(v),
    decreases s.len(), 1nat,
{
    let t = skip_spaces_spec(s);
    lemma_skip_shorter(s);
    if t.len() > 0 {
        if t[0] == 0x28 {
            lemma_list_plain(t.drop_first());
        } else if t[0] == 0x27 {
            law_read_plain(t.drop_first());
            match read_spec(t.drop_first()).0 {
                Ok(v) => {
                    assert(plain(Value::Nil));
                    assert(plain(pair(v, Value::Nil)));
                    assert(plain(Value::Symbol("quote"@)));
                    assert(plain(quoted(v)));
                },
                Err(_) => {},
            }
        } else if t[0] != 0x29 {
            let name = decode_utf8(t.take(atom_len(t) as int));
            assert(plain(Value::Nil));
            assert(plain(Value::Symbol(name)));
        }
    }
}

proof fn lemma_list_plain(s: Seq<u8>)
    ensures
        list_spec(s).0 matches Ok(v) ==> plain(v),
    decreases s.len(), 3nat,
{
    let t = skip_spaces_spec(s);
    lemma_skip_shorter(s);
    if t.len() > 0 && t[0] != 0x29 {
        lemma_elems_plain(t, Seq::empty());
    }
}

proof fn lemma_elems_plain(s: Seq<u8>, acc: Seq<Value>)
    requires
        forall|i: int| 0 <= i < acc.len() ==> plain(#[trigger] acc[i]),
    ensures
        elems_spec(s, acc).0 matches Ok(v) ==> plain(v),
    decreases s.len(), 2nat,
{
    law_read_plain(s);
    let (r, rest) = read_spec(s);
    match r {
        Err(_) => {},
        Ok(v) => {
            let u = skip_spaces_spec(rest);
            lemma_skip_shorter(rest);
            let more = acc.push(v);
            assert forall|i: int| 0 <= i < more.len() implies plain(#[trigger] more[i]) by {
                if i < acc.len() {
                    assert(more[i] == acc[i]);
                }
            }
            if rest.len() < s.len() && u.len() > 0 {
                if u[0] == 0x2e {
                    law_read_plain(u.drop_first());
                    match read_spec(u.drop_first()).0 {
                        Ok(last) => {
                            lemma_chain_plain(more, last);
                        },
                        Err(_) => {},
                    }
                } else if u[0] == 0x29 {
                    lemma_chain_plain(more, Value::Nil);
                } else {
                    lemma_elems_plain(u, more);
                }
            }
        },
    }
}

/// The bytes of a text of ASCII characters.
pub open spec fn ascii_bytes(s: Seq<char>) -> Seq<u8> {
    Seq::new(s.len(), |i: int| s[i] as u8)
}

/// The decimal digits of a number are digits, and denote the number.
proof fn lemma_digits_denote(n: nat)
    ensures
        digits(n).len() > 0,
        all_digits(ascii_bytes(digits(n))),
        is_ascii_chars(digits(n)),
        digits_value(ascii_bytes(digits(n))) == n,
    decreases n,
{
    let d = (n % 10) as int;
    let last = digit_char(d);
    assert(is_digit(last as u8) && last as u8 == 0x30 + d && last <= '\u{7f}');
    if n < 10 {
        let b = ascii_bytes(digits(n));
        assert(b =~= seq![last as u8]);
        assert(b.drop_last() =~= Seq::<u8>::empty());
        assert(digits_value(b.drop_last()) == 0);
    } else {
        lemma_digits_denote(n / 10);
        let front = digits(n / 10);
        let b = ascii_bytes(digits(n));
        assert(digits(n) == front.push(last));
        assert(b.drop_last() =~= ascii_bytes(front));
        assert(b.last() == last as u8);
        assert forall|i: int| 0 <= i < b.len() implies is_digit(#[trigger] b[i]) by {
            if i < front.len() {
                assert(b[i] == ascii_bytes(front)[i]);
            }
        }
        assert forall|i: int| 0 <= i < digits(n).len() implies '\0' <= #[trigger] digits(n)[i]
            <= '\u{7f}' by {
            if i < front.len() {
                assert(digits(n)[i] == front[i]);
            }
        }
    }
}

/// An integer of the machine's range, written in decimal, reads back as
/// itself.
pub proof fn law_decimal_reads_back(n: int)
    requires
        isize::MIN <= n <= isize::MAX,
    ensures
        fixnum_spec(encode_utf8(decimal(n))) == Some(n),
        atom_spec(encode_utf8(decimal(n))) == Ok::<Value, ReadError>(Value::Fixnum(n)),
{
    let text = decimal(n);
    if n < 0 {
        let m = (-n) as nat;
        lemma_digits_denote(m);
        assert forall|i: int| 0 <= i < text.len() implies '\0' <= #[trigger] text[i]
            <= '\u{7f}' by {
            if i > 0 {
                assert(text[i] == digits(m)[i - 1]);
            }
        }
        is_ascii_chars_encode_utf8(text);
        let b = encode_utf8(text);
        assert(b[0] == text[0] as u8);
        assert(b[0] == 0x2d);
        assert(b.drop_first() =~= ascii_bytes(digits(m))) by {
            assert forall|i: int| 0 <= i < b.len() - 1 implies b.drop_first()[i] == ascii_bytes(
                digits(m),
            )[i] by {
                assert(b[i + 1] == text[i + 1] as u8);
                assert(text[i + 1] == digits(m)[i]);
            }
        }
    } else {
        lemma_digits_denote(n as nat);
        is_ascii_chars_encode_utf8(text);
        let b = encode_utf8(text);
        assert(b =~= ascii_bytes(text)) by {
            assert forall|i: int| 0 <= i < b.len() implies b[i] == ascii_bytes(text)[i] by {
                assert(b[i] == text[i] as u8);
            }
        }
        assert(is_digit(b[0]));
    }
}

/// How std's `Debug` writes the character `c`: between single quotes,
/// escaped where it would not show as itself.
pub uninterp spec fn char_debug(c: char) -> Seq<char>;

/// `Debug` for `char` of std, through `format!`.
#[verifier::external_body]
fn char_debug_text(c: char) -> (r: String)
    ensures
        r@ == char_debug(c),
{
    format!("{:?}", c)
}

/// The message for a character that was found where another was required,
/// each given as it is to be shown.
pub open spec fn unexpected_spec(actual: Seq<char>, expected: Seq<char>) -> Seq<char> {
    "Expecting character "@.add(expected).add(", but it's character "@).add(actual)
}

/// The message of an error of the reader.
pub open spec fn read_message_spec(e: ReadError) -> Seq<char> {
    match e {
        ReadError::EndOfFile => "End of file"@,
        ReadError::UnmatchedClosedParen => "Unmatched closed parenthesis"@,
        ReadError::UnexpectedChar(actual, expected) => unexpected_spec(
            char_debug(actual),
            char_debug(expected),
        ),
        ReadError::InvalidUtf8 => "Invalid UTF-8 in a name"@,
    }
}

/// The message for a character that was found where another was required,
/// each given as it is to be shown.
pub fn unexpected_message(actual: &str, expected: &str) -> (r: String)
    ensures
        r@ == unexpected_spec(actual@, expected@),
{
    let mut out = String::new();
    out.append("Expecting character ");
    out.append(expected);
    out.append(", but it's character ");
    out.append(actual);
    assert(out@ =~= unexpected_spec(actual@, expected@));
    out
}

impl ReadError {
    /// The message of this error.
    pub fn to_string(&self) -> (r: String)
        ensures
            r@ == read_message_spec(*self),
    {
        match self {
            ReadError::EndOfFile => String::from_str("End of file"),
            ReadError::UnmatchedClosedParen => String::from_str("Unmatched closed parenthesis"),
            ReadError::UnexpectedChar(actual, expected) => {
                let a = char_debug_text(*actual);
                let e = char_debug_text(*expected);
                unexpected_message(a.as_str(), e.as_str())
            },
            ReadError::InvalidUtf8 => String::from_str("Invalid UTF-8 in a name"),
        }
    }
}

} // verus!
