//! What is printed reads back: the printed form of a value without
//! procedures, whose names are names the reader takes for names, denotes
//! that value again.

use crate::object::{chain, pair, Value};
use crate::printer::{decimal, digit_char, digits, print_spec, tail_spec};
use crate::read::{
    atom_len, atom_spec, elems_spec, fixnum_spec, is_delimiter_spec, is_digit, is_space_spec,
    law_decimal_reads_back, list_spec, read_spec, skip_spaces_spec, ReadError,
};
use vstd::prelude::*;
use vstd::utf8::{encode_scalar, encode_utf8, encode_utf8_decode_utf8, encode_utf8_valid_utf8};

verus! {

/// A character of ASCII whose byte is a delimiter: a parenthesis, a quote
/// mark or a space.
pub open spec fn is_delimiter_char(c: char) -> bool {
    c as u32 <= 0x7f && is_delimiter_spec(c as u8)
}

/// The character is a dot.
pub open spec fn is_dot(c: char) -> bool {
    c as u32 == 0x2e
}

/// No character of `text` is a delimiter.
pub open spec fn no_delimiter(text: Seq<char>) -> bool {
    forall|i: int| 0 <= i < text.len() ==> !is_delimiter_char(#[trigger] text[i])
}

/// A name that the reader takes for the name it is: it is not empty, holds
/// no delimiter, does not begin with a dot, is not `nil`, and spells no
/// integer.
pub open spec fn readable_name(name: Seq<char>) -> bool {
    &&& name.len() > 0
    &&& no_delimiter(name)
    &&& !is_dot(name[0])
    &&& name != "nil"@
    &&& fixnum_spec(encode_utf8(name)) is None
}

/// A value that can be written down: no procedure is in it, its integers
/// are of the machine's range, and its names are readable.
pub open spec fn readable(v: Value) -> bool
    decreases v,
{
    match v {
        Value::Nil => true,
        Value::Fixnum(n) => isize::MIN <= n <= isize::MAX,
        Value::Symbol(name) => readable_name(name),
        Value::Cons(first, rest) => readable(*first) && readable(*rest),
        _ => false,
    }
}

/// The number of values in `v`, itself counted.
pub open spec fn size(v: Value) -> nat
    decreases v,
{
    match v {
        Value::Cons(first, rest) => 1 + size(*first) + size(*rest),
        _ => 1,
    }
}

/// The bytes of two texts, one after the other, are the bytes of the one
/// after the bytes of the other.
pub proof fn lemma_encode_concat(a: Seq<char>, b: Seq<char>)
    ensures
        encode_utf8(a.add(b)) == encode_utf8(a).add(encode_utf8(b)),
    decreases a.len(),
{
    if a.len() == 0 {
        assert(a.add(b) =~= b);
        assert(encode_utf8(a).add(encode_utf8(b)) =~= encode_utf8(b));
    } else {
        lemma_encode_concat(a.drop_first(), b);
        assert(a.add(b).drop_first() =~= a.drop_first().add(b));
        assert(a.add(b)[0] == a[0]);
        assert(encode_utf8(a.add(b)) =~= encode_utf8(a).add(encode_utf8(b)));
    }
}

/// Every byte of a character's encoding is the character itself, where it
/// is of ASCII, or a byte outside ASCII.
proof fn lemma_scalar_bytes(c: char)
    ensures
        encode_scalar(c as u32).len() >= 1,
        c as u32 <= 0x7f ==> encode_scalar(c as u32) == seq![c as u8],
        c as u32 > 0x7f ==> forall|i: int|
            0 <= i < encode_scalar(c as u32).len() ==> (#[trigger] encode_scalar(c as u32)[i])
                >= 0x80,
{
    let v = c as u32;
    if v <= 0x7f {
        assert((v & 0x7F) as u8 == v as u8) by (bit_vector)
            requires
                v <= 0x7f,
        ;
        assert(encode_scalar(v) =~= seq![c as u8]);
    } else {
        let b2 = ((v >> 6) & 0x1F) as u8;
        let b3 = ((v >> 12) & 0x0F) as u8;
        let b4 = ((v >> 18) & 0x7) as u8;
        let c1 = (v & 0x3F) as u8;
        let c2 = ((v >> 6) & 0x3F) as u8;
        let c3 = ((v >> 12) & 0x3F) as u8;
        assert(0xC0u8 | b2 >= 0x80) by (bit_vector);
        assert(0xE0u8 | b3 >= 0x80) by (bit_vector);
        assert(0xF0u8 | b4 >= 0x80) by (bit_vector);
        assert(0x80u8 | c1 >= 0x80) by (bit_vector);
        assert(0x80u8 | c2 >= 0x80) by (bit_vector);
        assert(0x80u8 | c3 >= 0x80) by (bit_vector);
    }
}

/// The bytes of a text without delimiters hold no delimiter; a text that
/// is not empty has bytes, and the first is that of its first character or
/// a byte outside ASCII.
proof fn lemma_text_bytes(text: Seq<char>)
    requires
        no_delimiter(text),
    ensures
        forall|i: int|
            0 <= i < encode_utf8(text).len() ==> !is_delimiter_spec(#[trigger] encode_utf8(text)[i]),
        text.len() > 0 ==> encode_utf8(text).len() > 0 && (if text[0] as u32 <= 0x7f {
            encode_utf8(text)[0] == text[0] as u8
        } else {
            encode_utf8(text)[0] >= 0x80
        }),
    decreases text.len(),
{
    if text.len() > 0 {
        let head = encode_scalar(text[0] as u32);
        let rest = encode_utf8(text.drop_first());
        lemma_scalar_bytes(text[0]);
        assert(!is_delimiter_char(text[0]));
        assert forall|i: int| 0 <= i < text.drop_first().len() implies !is_delimiter_char(
            #[trigger] text.drop_first()[i],
        ) by {
            assert(text.drop_first()[i] == text[i + 1]);
        }
        lemma_text_bytes(text.drop_first());
        assert(encode_utf8(text) == head.add(rest));
        assert forall|i: int| 0 <= i < encode_utf8(text).len() implies !is_delimiter_spec(
            #[trigger] encode_utf8(text)[i],
        ) by {
            if i < head.len() {
                assert(encode_utf8(text)[i] == head[i]);
                if text[0] as u32 <= 0x7f {
                    assert(head[i] == text[0] as u8);
                    assert(!is_delimiter_spec(text[0] as u8));
                } else {
                    assert(head[i] >= 0x80);
                }
            } else {
                assert(encode_utf8(text)[i] == rest[i - head.len()]);
                assert(!is_delimiter_spec(rest[i - head.len()]));
            }
        }
        assert(encode_utf8(text)[0] == head[0]);
    }
}

/// Bytes without a delimiter, in front of a delimiter or of nothing, are
/// one atom.
proof fn lemma_atom_whole(b: Seq<u8>, k: Seq<u8>)
    requires
        forall|i: int| 0 <= i < b.len() ==> !is_delimiter_spec(#[trigger] b[i]),
        k.len() == 0 || is_delimiter_spec(k[0]),
    ensures
        atom_len(b.add(k)) == b.len(),
    decreases b.len(),
{
    if b.len() == 0 {
        assert(b.add(k) =~= k);
    } else {
        assert(b.add(k)[0] == b[0]);
        assert(b.add(k).drop_first() =~= b.drop_first().add(k));
        assert forall|i: int| 0 <= i < b.drop_first().len() implies !is_delimiter_spec(
            #[trigger] b.drop_first()[i],
        ) by {
            assert(b.drop_first()[i] == b[i + 1]);
        }
        lemma_atom_whole(b.drop_first(), k);
    }
}

/// A text without delimiters, in front of a delimiter or of nothing, is
/// read as the atom that its bytes spell.
proof fn lemma_atom_reads(text: Seq<char>, k: Seq<u8>)
    requires
        text.len() > 0,
        no_delimiter(text),
        k.len() == 0 || is_delimiter_spec(k[0]),
    ensures
        read_spec(encode_utf8(text).add(k)) == (atom_spec(encode_utf8(text)), k),
{
    let b = encode_utf8(text);
    let s = b.add(k);
    lemma_text_bytes(text);
    lemma_atom_whole(b, k);
    assert(s[0] == b[0]);
    assert(!is_delimiter_spec(b[0]));
    assert(skip_spaces_spec(s) == s);
    assert(s.take(b.len() as int) =~= b);
    assert(s.skip(b.len() as int) =~= k);
}

/// The printed form of an atom that can be written down holds no
/// delimiter, is not empty and begins with no dot; its bytes spell the
/// atom.
proof fn lemma_atom_printed(v: Value)
    requires
        readable(v),
        !(v is Cons),
    ensures
        print_spec(v).len() > 0,
        no_delimiter(print_spec(v)),
        !is_dot(print_spec(v)[0]),
        atom_spec(encode_utf8(print_spec(v))) == Ok::<Value, ReadError>(v),
{
    match v {
        Value::Nil => {
            reveal_strlit("nil");
            let text = "nil"@;
            assert(text.len() == 3 && text[0] == 'n' && text[1] == 'i' && text[2] == 'l');
            lemma_text_bytes(text);
            encode_utf8_valid_utf8(text);
            encode_utf8_decode_utf8(text);
            let b = encode_utf8(text);
            assert(b[0] == 0x6e);
            assert(!is_digit(b[0]));
            assert(fixnum_spec(b) is None);
        },
        Value::Fixnum(n) => {
            law_decimal_reads_back(n);
            lemma_decimal_chars(n);
        },
        Value::Symbol(name) => {
            encode_utf8_valid_utf8(name);
            encode_utf8_decode_utf8(name);
        },
        _ => {},
    }
}

/// The digits of a number are digits.
proof fn lemma_digit_chars(n: nat)
    ensures
        digits(n).len() > 0,
        forall|i: int| 0 <= i < digits(n).len() ==> '0' <= (#[trigger] digits(n)[i]) <= '9',
    decreases n,
{
    let last = digit_char((n % 10) as int);
    assert('0' <= last <= '9');
    if n >= 10 {
        lemma_digit_chars(n / 10);
        let front = digits(n / 10);
        assert forall|i: int| 0 <= i < digits(n).len() implies '0' <= (#[trigger] digits(n)[i])
            <= '9' by {
            if i < front.len() {
                assert(digits(n)[i] == front[i]);
            }
        }
    }
}

/// An integer in decimal holds no delimiter, is not empty and begins with
/// no dot.
proof fn lemma_decimal_chars(n: int)
    ensures
        decimal(n).len() > 0,
        no_delimiter(decimal(n)),
        !is_dot(decimal(n)[0]),
{
    if n < 0 {
        let m = (-n) as nat;
        lemma_digit_chars(m);
        assert forall|i: int| 0 <= i < decimal(n).len() implies !is_delimiter_char(
            #[trigger] decimal(n)[i],
        ) by {
            if i > 0 {
                assert(decimal(n)[i] == digits(m)[i - 1]);
            }
        }
    } else {
        lemma_digit_chars(n as nat);
    }
}

/// The printed form of a value that can be written down is not empty, and
/// begins with no space, no closing parenthesis and no dot.
proof fn lemma_printed_start(v: Value)
    requires
        readable(v),
    ensures
        encode_utf8(print_spec(v)).len() > 0,
        !is_space_spec(encode_utf8(print_spec(v))[0]),
        encode_utf8(print_spec(v))[0] != 0x29,
        encode_utf8(print_spec(v))[0] != 0x2e,
{
    match v {
        Value::Cons(first, rest) => {
            reveal_strlit("(");
            let open = "("@;
            assert(open.len() == 1 && open[0] == '(');
            let more = print_spec(*first).add(tail_spec(*rest));
            assert(print_spec(v) =~= open.add(more));
            assert(open =~= seq!['(']);
            lemma_encode_concat(open, more);
            lemma_one_byte('(');
        },
        _ => {
            lemma_atom_printed(v);
            lemma_text_bytes(print_spec(v));
        },
    }
}

/// A chain that ends in a pair is the chain with one element more.
proof fn lemma_chain_push(acc: Seq<Value>, a: Value, tail: Value)
    ensures
        chain(acc.push(a), tail) == chain(acc, pair(a, tail)),
    decreases acc.len(),
{
    if acc.len() == 0 {
        assert(acc.push(a).drop_first() =~= acc);
        assert(chain(acc.push(a).drop_first(), tail) == tail);
    } else {
        assert(acc.push(a).drop_first() =~= acc.drop_first().push(a));
        lemma_chain_push(acc.drop_first(), a, tail);
    }
}

/// The bytes of one character of ASCII.
proof fn lemma_one_byte(c: char)
    requires
        c as u32 <= 0x7f,
    ensures
        encode_utf8(seq![c]) == seq![c as u8],
{
    lemma_scalar_bytes(c);
    assert(seq![c][0] == c);
    assert(seq![c].drop_first() =~= Seq::<char>::empty());
    assert(encode_utf8(Seq::<char>::empty()) =~= Seq::<u8>::empty());
    assert(encode_utf8(seq![c]) =~= seq![c as u8]);
}

/// The printed form of a value that can be written down, in front of a
/// delimiter or of nothing, is read as that value, and what followed it is
/// left.
pub proof fn law_printed_reads_back(v: Value, k: Seq<u8>)
    requires
        readable(v),
        k.len() == 0 || is_delimiter_spec(k[0]),
    ensures
        read_spec(encode_utf8(print_spec(v)).add(k)) == (Ok::<Value, ReadError>(v), k),
    decreases size(v), 1nat,
{
    match v {
        Value::Cons(first, rest) => {
            reveal_strlit("(");
            let open = "("@;
            assert(open =~= seq!['(']);
            let inner = print_spec(*first).add(tail_spec(*rest));
            assert(print_spec(v) =~= open.add(inner));
            lemma_encode_concat(open, inner);
            lemma_encode_concat(print_spec(*first), tail_spec(*rest));
            lemma_one_byte('(');
            let body = encode_utf8(print_spec(*first)).add(encode_utf8(tail_spec(*rest))).add(k);
            let s = encode_utf8(print_spec(v)).add(k);
            assert(s =~= seq![0x28u8].add(body));
            assert(s[0] == 0x28);
            assert(skip_spaces_spec(s) == s);
            assert(s.drop_first() =~= body);
            lemma_printed_start(*first);
            assert(body[0] == encode_utf8(print_spec(*first))[0]);
            assert(skip_spaces_spec(body) == body);
            lemma_elems_read(*first, *rest, Seq::empty(), k);
            assert(chain(Seq::<Value>::empty(), pair(*first, *rest)) == pair(*first, *rest));
            assert(pair(*first, *rest) == v);
            assert(list_spec(body) == elems_spec(body, Seq::empty()));
            assert(read_spec(s) == list_spec(body));
        },
        _ => {
            lemma_atom_printed(v);
            lemma_atom_reads(print_spec(v), k);
        },
    }
}

/// The printed form of a value that can be written down is read as that
/// value, and nothing is left of it.
pub proof fn law_print_then_read(v: Value)
    requires
        readable(v),
    ensures
        read_spec(encode_utf8(print_spec(v))) == (Ok::<Value, ReadError>(v), Seq::<u8>::empty()),
{
    law_printed_reads_back(v, Seq::empty());
    assert(encode_utf8(print_spec(v)).add(Seq::<u8>::empty()) =~= encode_utf8(print_spec(v)));
}

/// The elements of a printed list read back one by one.
proof fn lemma_elems_read(a: Value, b: Value, acc: Seq<Value>, k: Seq<u8>)
    requires
        readable(a),
        readable(b),
        k.len() == 0 || is_delimiter_spec(k[0]),
    ensures
        elems_spec(
            encode_utf8(print_spec(a)).add(encode_utf8(tail_spec(b))).add(k),
            acc,
        ) == (Ok::<Value, ReadError>(chain(acc, pair(a, b))), k),
    decreases size(pair(a, b)), 0nat,
{
    let pa = encode_utf8(print_spec(a));
    let tb = encode_utf8(tail_spec(b));
    let s = pa.add(tb).add(k);
    let after = tb.add(k);
    assert(s =~= pa.add(after));
    lemma_printed_start(a);
    lemma_chain_push(acc, a, b);
    reveal_strlit(" ");
    reveal_strlit(")");
    reveal_strlit(" . ");
    lemma_one_byte(' ');
    lemma_one_byte(')');
    lemma_one_byte('.');
    match b {
        Value::Cons(a2, b2) => {
            let space = " "@;
            assert(space =~= seq![' ']);
            let inner = print_spec(*a2).add(tail_spec(*b2));
            assert(tail_spec(b) =~= space.add(inner));
            lemma_encode_concat(space, inner);
            lemma_encode_concat(print_spec(*a2), tail_spec(*b2));
            let next = encode_utf8(print_spec(*a2)).add(encode_utf8(tail_spec(*b2))).add(k);
            assert(after =~= seq![0x20u8].add(next));
            assert(after[0] == 0x20);
            law_printed_reads_back(a, after);
            lemma_printed_start(*a2);
            assert(next[0] == encode_utf8(print_spec(*a2))[0]);
            assert(after.drop_first() =~= next);
            assert(skip_spaces_spec(next) == next);
            assert(skip_spaces_spec(after) == next);
            lemma_elems_read(*a2, *b2, acc.push(a), k);
        },
        Value::Nil => {
            let close = ")"@;
            assert(close =~= seq![')']);
            assert(tail_spec(b) == close);
            assert(after =~= seq![0x29u8].add(k));
            assert(after[0] == 0x29);
            law_printed_reads_back(a, after);
            assert(skip_spaces_spec(after) == after);
            assert(after.drop_first() =~= k);
        },
        _ => {
            let dot = " . "@;
            let close = ")"@;
            assert(dot =~= seq![' ', '.', ' ']);
            assert(close =~= seq![')']);
            assert(tail_spec(b) == dot.add(print_spec(b)).add(close));
            lemma_encode_concat(dot.add(print_spec(b)), close);
            lemma_encode_concat(dot, print_spec(b));
            assert(dot =~= seq![' '].add(seq!['.']).add(seq![' ']));
            lemma_encode_concat(seq![' '].add(seq!['.']), seq![' ']);
            lemma_encode_concat(seq![' '], seq!['.']);
            let pb = encode_utf8(print_spec(b));
            let end = seq![0x29u8].add(k);
            assert(encode_utf8(dot) =~= seq![0x20u8, 0x2eu8, 0x20u8]);
            assert(after =~= seq![0x20u8, 0x2eu8, 0x20u8].add(pb).add(end));
            assert(after[0] == 0x20);
            law_printed_reads_back(a, after);
            // the dot
            let u = seq![0x2eu8, 0x20u8].add(pb).add(end);
            assert(after.drop_first() =~= u);
            assert(u[0] == 0x2e);
            assert(skip_spaces_spec(u) == u);
            assert(skip_spaces_spec(after) == u);
            // the value that ends the chain
            let w = seq![0x20u8].add(pb).add(end);
            assert(u.drop_first() =~= w);
            lemma_atom_printed(b);
            lemma_text_bytes(print_spec(b));
            let t = pb.add(end);
            assert(w.drop_first() =~= t);
            assert(t[0] == pb[0]);
            assert(skip_spaces_spec(t) == t);
            assert(skip_spaces_spec(w) == t);
            assert(end[0] == 0x29);
            lemma_atom_reads(print_spec(b), end);
            assert(read_spec(t) == (Ok::<Value, ReadError>(b), end));
            assert(read_spec(w) == read_spec(t)) by {
                assert(skip_spaces_spec(w) == skip_spaces_spec(t));
            }
            assert(skip_spaces_spec(end) == end);
            assert(end.drop_first() =~= k);
        },
    }
}

} // verus!
