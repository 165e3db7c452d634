//! The reader: from the bytes of a source to the value they denote, as
//! the grammar of `read` says.
//!
//! The functions that read take any source of bytes; `StringStream` is the
//! source over a buffer in memory.

pub use crate::read::{ReadError, ReadResult};

use crate::identity::plain;
use crate::object::{chain, cons, fixnum, nil, share, symbol, views, Object, Value};
use crate::read::{
    all_digits, atom_len, atom_spec, digits_value, elems_spec, fixnum_spec, is_delimiter_spec,
    is_digit, is_space_spec, law_read_consumes, law_read_plain, law_read_text, list_spec, parsed,
    quoted, read_spec, skip_spaces_spec,
};
use vstd::prelude::*;
use vstd::slice::slice_to_vec;
use vstd::utf8::{decode_utf8, encode_utf8, encode_utf8_valid_utf8, valid_utf8};

verus! {

/// The list of the values in `vec`, ended by `last`.
pub fn vec_to_cons(vec: Vec<Object>, last: Object) -> (r: Object)
    ensures
        r@ == chain(views(vec@), last@),
{
    let mut head = last;
    let mut i: usize = vec.len();
    assert(views(vec@).skip(i as int) =~= Seq::<Value>::empty());
    while i > 0
        invariant
            i <= vec@.len(),
            head@ == chain(views(vec@).skip(i as int), last@),
        decreases i,
    {
        i = i - 1;
        assert(views(vec@).skip(i as int).drop_first() =~= views(vec@).skip(i as int + 1));
        head = cons(share(&vec[i]), head);
    }
    assert(views(vec@).skip(0) =~= views(vec@));
    head
}

pub fn is_space(b: u8) -> (r: bool)
    ensures
        r == is_space_spec(b),
{
    b == 0x20 || b == 0x09 || b == 0x0a || b == 0x0c || b == 0x0d
}

pub fn is_delimiter(b: u8) -> (r: bool)
    ensures
        r == is_delimiter_spec(b),
{
    b == 0x28 || b == 0x29 || b == 0x27 || is_space(b)
}

/// `String::from_utf8` of std: the text that `bytes` encode in UTF-8,
/// `None` exactly when they encode none.
#[verifier::external_body]
fn utf8_text(bytes: Vec<u8>) -> (r: Option<String>)
    ensures
        match r {
            Some(s) => valid_utf8(bytes@) && s@ == decode_utf8(bytes@),
            None => !valid_utf8(bytes@),
        },
{
    String::from_utf8(bytes).ok()
}

proof fn lemma_digits_grow(s: Seq<u8>, k: int)
    requires
        0 <= k <= s.len(),
        all_digits(s),
    ensures
        digits_value(s.take(k)) <= digits_value(s),
    decreases s.len() - k,
{
    if k < s.len() {
        assert(s.take(k + 1).drop_last() =~= s.take(k));
        assert(s.take(k + 1).last() == s[k]);
        lemma_digits_grow(s, k + 1);
    } else {
        assert(s.take(k) =~= s);
    }
}

/// The integer that `bytes` spell, if they spell one.
#[verifier::loop_isolation(false)]
pub fn parse_fixnum(bytes: &[u8]) -> (r: Option<isize>)
    ensures
        match fixnum_spec(bytes@) {
            Some(n) => r == Some(n as isize) && n == r->0,
            None => r is None,
        },
{
    let n = bytes.len();
    if n == 0 {
        return None;
    }
    let signed = bytes[0] == 0x2b || bytes[0] == 0x2d;
    let negative = bytes[0] == 0x2d;
    let start: usize = if signed {
        1
    } else {
        0
    };
    if start == n {
        return None;
    }
    let ghost body = bytes@.skip(start as int);
    assert(signed ==> body =~= bytes@.drop_first());
    assert(!signed ==> body =~= bytes@);
    let limit: u128 = if negative {
        isize::MAX as u128 + 1
    } else {
        isize::MAX as u128
    };
    let mut acc: u128 = 0;
    let mut i: usize = start;
    assert(body.take(0) =~= Seq::<u8>::empty());
    while i < n
        invariant
            start <= i <= n,
            n == bytes@.len(),
            body == bytes@.skip(start as int),
            acc == digits_value(body.take(i - start)),
            acc <= limit,
            limit <= isize::MAX as u128 + 1,
            forall|k: int| 0 <= k < i - start ==> is_digit(#[trigger] body[k]),
        decreases n - i,
    {
        let b = bytes[i];
        assert(b == body[i - start]);
        if b < 0x30 || b > 0x39 {
            assert(!is_digit(body[i - start]));
            return None;
        }
        let ghost prefix = body.take(i - start + 1);
        assert(prefix.drop_last() =~= body.take(i - start));
        assert(prefix.last() == b);
        let next: u128 = acc * 10 + (b - 0x30) as u128;
        if next > limit {
            proof {
                if all_digits(body) {
                    lemma_digits_grow(body, i - start + 1);
                }
            }
            return None;
        }
        acc = next;
        i = i + 1;
    }
    assert(body.take(n - start) =~= body);
    if negative {
        Some((-(acc as i128)) as isize)
    } else {
        Some(acc as isize)
    }
}

/// The value that the bytes of an atom denote.
pub fn atom_object(bytes: Vec<u8>) -> (r: ReadResult)
    ensures
        parsed(r) == atom_spec(bytes@),
{
    match parse_fixnum(bytes.as_slice()) {
        Some(n) => Ok(fixnum(n)),
        None => match utf8_text(bytes) {
            Some(name) => Ok(symbol(name.as_str())),
            None => Err(ReadError::InvalidUtf8),
        },
    }
}

/// A source of bytes that can be looked at one byte ahead.
pub trait Reader {
    /// The bytes not yet taken.
    spec fn rest(&self) -> Seq<u8>;

    /// The next byte, which stays in the source.
    fn peek_char(&mut self) -> (r: Result<u8, ReadError>)
        ensures
            final(self).rest() == old(self).rest(),
            r == (if old(self).rest().len() > 0 {
                Ok::<u8, ReadError>(old(self).rest()[0])
            } else {
                Err::<u8, ReadError>(ReadError::EndOfFile)
            }),
    ;

    /// Takes the next byte out of the source.
    fn next_char(&mut self) -> (r: Result<u8, ReadError>)
        ensures
            r == (if old(self).rest().len() > 0 {
                Ok::<u8, ReadError>(old(self).rest()[0])
            } else {
                Err::<u8, ReadError>(ReadError::EndOfFile)
            }),
            final(self).rest() == (if old(self).rest().len() > 0 {
                old(self).rest().drop_first()
            } else {
                old(self).rest()
            }),
    ;

    /// Drops all bytes not yet taken.
    fn clear(&mut self)
        ensures
            final(self).rest() == Seq::<u8>::empty(),
    ;

    /// Takes the spaces that the source begins with.
    fn skip_spaces(&mut self)
        ensures
            final(self).rest() == skip_spaces_spec(old(self).rest()),
            final(self).rest().len() <= old(self).rest().len(),
            final(self).rest().len() > 0 ==> !is_space_spec(final(self).rest()[0]),
    {
        loop
            invariant
                skip_spaces_spec(self.rest()) == skip_spaces_spec(old(self).rest()),
                self.rest().len() <= old(self).rest().len(),
            ensures
                self.rest() == skip_spaces_spec(old(self).rest()),
                self.rest().len() <= old(self).rest().len(),
                self.rest().len() > 0 ==> !is_space_spec(self.rest()[0]),
            decreases self.rest().len(),
        {
            match self.peek_char() {
                Ok(c) => {
                    if is_space(c) {
                        let _ = self.next_char();
                    } else {
                        break ;
                    }
                },
                Err(_) => {
                    break ;
                },
            }
        }
    }

    /// Takes the bytes up to the next delimiter and gives the atom they
    /// spell.
    fn read_atom(&mut self) -> (r: ReadResult)
        ensures
            parsed(r) == atom_spec(old(self).rest().take(atom_len(old(self).rest()) as int)),
            final(self).rest() == old(self).rest().skip(atom_len(old(self).rest()) as int),
            atom_len(old(self).rest()) <= old(self).rest().len(),
    {
        let mut v: Vec<u8> = Vec::new();
        let ghost all = self.rest();
        assert(all.take(0) =~= v@);
        assert(all.skip(0) =~= all);
        loop
            invariant
                all == old(self).rest(),
                v@.len() <= all.len(),
                v@ == all.take(v@.len() as int),
                self.rest() == all.skip(v@.len() as int),
                atom_len(all) == v@.len() + atom_len(self.rest()),
            ensures
                v@ == all.take(atom_len(all) as int),
                self.rest() == all.skip(atom_len(all) as int),
                atom_len(all) <= all.len(),
            decreases self.rest().len(),
        {
            match self.peek_char() {
                Ok(c) => {
                    if is_delimiter(c) {
                        break ;
                    }
                    let ghost before = v@;
                    v.push(c);
                    let _ = self.next_char();
                    assert(v@ =~= all.take(v@.len() as int));
                    assert(self.rest() =~= all.skip(v@.len() as int));
                },
                Err(_) => {
                    break ;
                },
            }
        }
        atom_object(v)
    }
}

/// Reads `(quote x)` for the form `x` that the source begins with.
pub fn read_quote<R: Reader>(r: &mut R) -> (res: ReadResult)
    ensures
        match read_spec(old(r).rest()) {
            (Ok(v), rest) => parsed(res) == Ok::<Value, ReadError>(quoted(v)) && final(r).rest()
                == rest,
            (Err(e), rest) => parsed(res) == Err::<Value, ReadError>(e) && final(r).rest() == rest,
        },
        final(r).rest().len() <= old(r).rest().len(),
        res is Ok ==> final(r).rest().len() < old(r).rest().len(),
    decreases old(r).rest().len(), 2nat,
{
    let obj = read_ahead(r)?;
    proof {
        reveal_strlit("quote");
        reveal_strlit("nil");
        assert("quote"@.len() != "nil"@.len());
    }
    Ok(cons(symbol("quote"), cons(obj, nil())))
}

/// Reads the elements of a list, whose opening parenthesis was taken, up
/// to its closing parenthesis.
#[verifier::loop_isolation(false)]
pub fn read_list<R: Reader>(r: &mut R) -> (res: ReadResult)
    ensures
        (parsed(res), final(r).rest()) == list_spec(old(r).rest()),
        final(r).rest().len() <= old(r).rest().len(),
        res is Ok ==> final(r).rest().len() < old(r).rest().len(),
    decreases old(r).rest().len(), 3nat,
{
    let mut list: Vec<Object> = Vec::new();
    r.skip_spaces();
    if r.peek_char()? == 0x29 {
        let _ = r.next_char();
        return Ok(nil());
    }
    let ghost start = r.rest();
    assert(views(list@) =~= Seq::<Value>::empty());
    loop
        invariant
            r.rest().len() <= start.len(),
            r.rest().len() > 0,
            elems_spec(r.rest(), views(list@)) == elems_spec(start, Seq::empty()),
        decreases r.rest().len(),
    {
        let ghost acc = views(list@);
        let obj = read_ahead(r)?;
        r.skip_spaces();
        list.push(obj);
        assert(views(list@) =~= acc.push(obj@));
        let c = r.peek_char()?;
        if c == 0x2e {
            let _ = r.next_char();
            let last = read_ahead(r)?;
            r.skip_spaces();
            let b = r.peek_char()?;
            if b == 0x29 {
                let _ = r.next_char();
                return Ok(vec_to_cons(list, last));
            }
            return Err(ReadError::UnexpectedChar(b as char, ')'));
        }
        if c == 0x29 {
            let _ = r.next_char();
            return Ok(vec_to_cons(list, nil()));
        }
    }
}

/// Reads the first form that the source begins with.
pub fn read_ahead<R: Reader>(r: &mut R) -> (res: ReadResult)
    ensures
        (parsed(res), final(r).rest()) == read_spec(old(r).rest()),
        final(r).rest().len() <= old(r).rest().len(),
        res is Ok ==> final(r).rest().len() < old(r).rest().len(),
    decreases old(r).rest().len(), 1nat,
{
    r.skip_spaces();
    let c = r.peek_char()?;
    if c == 0x29 {
        r.clear();
        Err(ReadError::UnmatchedClosedParen)
    } else if c == 0x28 {
        let _ = r.next_char();
        read_list(r)
    } else if c == 0x27 {
        let _ = r.next_char();
        read_quote(r)
    } else {
        assert(atom_len(r.rest()) >= 1);
        r.read_atom()
    }
}

/// A source of bytes over a buffer in memory.
pub struct StringStream {
    buffer: Vec<u8>,
    pos: usize,
}

impl StringStream {
    /// A source over the bytes of `str`.
    pub fn new(str: &str) -> (r: StringStream)
        ensures
            r.rest() == encode_utf8(str@),
            r.position() == 0,
    {
        let r = StringStream { buffer: slice_to_vec(str.as_bytes()), pos: 0 };
        assert(r.buffer@.skip(0) =~= r.buffer@);
        r
    }

    /// Replaces the buffer by `buffer`, of which nothing is taken yet.
    pub fn update(&mut self, buffer: Vec<u8>)
        ensures
            final(self).rest() == buffer@,
            final(self).position() == 0,
    {
        self.buffer = buffer;
        self.pos = 0;
        assert(self.buffer@.skip(0) =~= self.buffer@);
    }

    /// The number of bytes taken from the buffer.
    pub closed spec fn position(&self) -> nat {
        self.pos as nat
    }

    /// The number of bytes taken from the buffer.
    pub fn pos(&self) -> (r: usize)
        ensures
            r == self.position(),
    {
        self.pos
    }

    /// The number of bytes not yet taken.
    pub fn remaining(&self) -> (r: usize)
        ensures
            r == self.rest().len(),
    {
        if self.pos <= self.buffer.len() {
            self.buffer.len() - self.pos
        } else {
            0
        }
    }
}

impl Reader for StringStream {
    closed spec fn rest(&self) -> Seq<u8> {
        if self.pos <= self.buffer@.len() {
            self.buffer@.skip(self.pos as int)
        } else {
            Seq::empty()
        }
    }

    fn peek_char(&mut self) -> (r: Result<u8, ReadError>)
        ensures
            final(self).position() == old(self).position(),
    {
        if self.pos < self.buffer.len() {
            Ok(self.buffer[self.pos])
        } else {
            Err(ReadError::EndOfFile)
        }
    }

    fn next_char(&mut self) -> (r: Result<u8, ReadError>)
        ensures
            final(self).position() == old(self).position() + (if r is Ok {
                1nat
            } else {
                0nat
            }),
    {
        if self.pos < self.buffer.len() {
            let c = self.buffer[self.pos];
            self.pos = self.pos + 1;
            assert(self.rest() =~= old(self).rest().drop_first());
            Ok(c)
        } else {
            Err(ReadError::EndOfFile)
        }
    }

    fn clear(&mut self)
        ensures
            final(self).position() == 0,
    {
        self.buffer.clear();
        self.pos = 0;
    }
}

/// Reads the first form of `input`, and says how many bytes it took.
pub fn read_from_string(input: &str) -> (r: Result<(Object, usize), ReadError>)
    ensures
        match read_spec(encode_utf8(input@)) {
            (Ok(v), rest) => r is Ok && r->Ok_0.0@ == v && r->Ok_0.1 == encode_utf8(input@).len()
                - rest.len(),
            (Err(e), _) => r == Err::<(Object, usize), ReadError>(e),
        },
        r != Err::<(Object, usize), ReadError>(ReadError::InvalidUtf8),
        r matches Ok(read) ==> plain(read.0@) && read.1 > 0,
{
    proof {
        encode_utf8_valid_utf8(input@);
        law_read_text(encode_utf8(input@));
        law_read_plain(encode_utf8(input@));
        law_read_consumes(encode_utf8(input@));
    }
    let mut s = StringStream::new(input);
    let total = s.remaining();
    match read_ahead(&mut s) {
        Ok(x) => Ok((x, total - s.remaining())),
        Err(e) => Err(e),
    }
}

} // verus!
