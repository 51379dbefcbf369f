//! Little-endian reads from a byte slice, and the GGUF metadata grammar.
//!
//! Each read is a function of the bytes and a position: it gives the value and
//! the position after it, or the error. [`Cursor`] is the running form.

use crate::gguf::{Array, ArrayView, Error, ErrorView, Value, ValueView};
use crate::text;
use vstd::prelude::*;
use vstd::utf8::{decode_utf8, valid_utf8};

verus! {

/// A value and the position after it, or the error.
pub type Read<T> = Result<(T, int), ErrorView>;

/// `n` bytes from `pos` on.
pub open spec fn read_bytes(b: Seq<u8>, pos: int, n: int) -> Read<Seq<u8>> {
    if pos + n > b.len() {
        Err(ErrorView::Eof(pos))
    } else {
        Ok((b.subrange(pos, pos + n), pos + n))
    }
}

pub open spec fn le16(b: Seq<u8>) -> u16 {
    (b[0] + b[1] * 0x100) as u16
}

pub open spec fn le32(b: Seq<u8>) -> u32 {
    (b[0] + b[1] * 0x100 + b[2] * 0x1_0000 + b[3] * 0x100_0000) as u32
}

pub open spec fn le64(b: Seq<u8>) -> u64 {
    (b[0] + b[1] * 0x100 + b[2] * 0x1_0000 + b[3] * 0x100_0000 + b[4] * 0x1_0000_0000 + b[5]
        * 0x100_0000_0000 + b[6] * 0x1_0000_0000_0000 + b[7] * 0x100_0000_0000_0000) as u64
}

pub open spec fn read_u8(b: Seq<u8>, pos: int) -> Read<u8> {
    match read_bytes(b, pos, 1) {
        Ok((s, p)) => Ok((s[0], p)),
        Err(e) => Err(e),
    }
}

pub open spec fn read_u16(b: Seq<u8>, pos: int) -> Read<u16> {
    match read_bytes(b, pos, 2) {
        Ok((s, p)) => Ok((le16(s), p)),
        Err(e) => Err(e),
    }
}

pub open spec fn read_u32(b: Seq<u8>, pos: int) -> Read<u32> {
    match read_bytes(b, pos, 4) {
        Ok((s, p)) => Ok((le32(s), p)),
        Err(e) => Err(e),
    }
}

pub open spec fn read_u64(b: Seq<u8>, pos: int) -> Read<u64> {
    match read_bytes(b, pos, 8) {
        Ok((s, p)) => Ok((le64(s), p)),
        Err(e) => Err(e),
    }
}

/// The characters that arbitrary bytes stand for when ill-formed stretches are
/// replaced.
pub uninterp spec fn utf8_lossy(bytes: Seq<u8>) -> Seq<char>;

/// `String::from_utf8_lossy`: the characters of well-formed bytes; what it puts
/// in place of ill-formed stretches is only named.
#[verifier::external_body]
pub(crate) fn lossy_string(bytes: &[u8]) -> (s: String)
    ensures
        s@ == utf8_lossy(bytes@),
        valid_utf8(bytes@) ==> s@ == decode_utf8(bytes@),
{
    String::from_utf8_lossy(bytes).into_owned()
}

/// A string is its length in bytes, then the bytes. Tokenizer vocabularies hold
/// byte-fallback tokens that are not UTF-8 on their own, so they are read lossily.
pub open spec fn read_string(b: Seq<u8>, pos: int) -> Read<Seq<char>> {
    match read_u64(b, pos) {
        Err(e) => Err(e),
        Ok((n, p)) => match read_bytes(b, p, (n as usize) as int) {
            Err(e) => Err(e),
            Ok((s, q)) => Ok((utf8_lossy(s), q)),
        },
    }
}

/// `n` strings, behind those in `acc`.
pub open spec fn read_strings(b: Seq<u8>, pos: int, n: nat, acc: Seq<Seq<char>>) -> Read<
    Seq<Seq<char>>,
>
    decreases n,
{
    if n == 0 {
        Ok((acc, pos))
    } else {
        match read_string(b, pos) {
            Err(e) => Err(e),
            Ok((s, p)) => read_strings(b, p, (n - 1) as nat, acc.push(s)),
        }
    }
}

/// The `i`-th run of `w` bytes.
pub open spec fn chunk(b: Seq<u8>, i: int, w: int) -> Seq<u8> {
    b.subrange(i * w, i * w + w)
}

/// An array is its element type, its length, then the elements. An empty array
/// carries a placeholder element type.
pub open spec fn read_array(b: Seq<u8>, pos: int) -> Read<ArrayView> {
    match read_u32(b, pos) {
        Err(e) => Err(e),
        Ok((ty, p)) => match read_u64(b, p) {
            Err(e) => Err(e),
            Ok((n64, q)) => {
                let n = n64 as usize;
                if ty == 8 {
                    match read_strings(b, q, n as nat, Seq::empty()) {
                        Err(e) => Err(e),
                        Ok((v, r)) => Ok((ArrayView::String(v), r)),
                    }
                } else {
                    match elem_width(ty) {
                        Some(w) => match read_bytes(b, q, n * w) {
                            Err(e) => Err(e),
                            Ok((s, r)) => Ok((elems(ty, s, n as nat), r)),
                        },
                        None => if n == 0 {
                            Ok((ArrayView::Empty, q))
                        } else {
                            Err(ErrorView::BadValueType(ty))
                        },
                    }
                }
            },
        },
    }
}

/// Bytes per element of the fixed-width array types.
pub open spec fn elem_width(ty: u32) -> Option<int> {
    if ty == 0 || ty == 1 || ty == 7 {
        Some(1)
    } else if ty == 2 || ty == 3 {
        Some(2)
    } else if ty == 4 || ty == 5 || ty == 6 {
        Some(4)
    } else if ty == 10 || ty == 11 || ty == 12 {
        Some(8)
    } else {
        None
    }
}

/// The `n` fixed-width elements stored in `s`.
pub open spec fn elems(ty: u32, s: Seq<u8>, n: nat) -> ArrayView {
    if ty == 0 {
        ArrayView::U8(s)
    } else if ty == 1 {
        ArrayView::I8(s.map_values(|x: u8| x as i8))
    } else if ty == 2 {
        ArrayView::U16(Seq::new(n, |i: int| le16(chunk(s, i, 2))))
    } else if ty == 3 {
        ArrayView::I16(Seq::new(n, |i: int| le16(chunk(s, i, 2)) as i16))
    } else if ty == 4 {
        ArrayView::U32(Seq::new(n, |i: int| le32(chunk(s, i, 4))))
    } else if ty == 5 {
        ArrayView::I32(Seq::new(n, |i: int| le32(chunk(s, i, 4)) as i32))
    } else if ty == 6 {
        ArrayView::F32(Seq::new(n, |i: int| le32(chunk(s, i, 4))))
    } else if ty == 7 {
        ArrayView::Bool(s.map_values(|x: u8| x != 0))
    } else if ty == 10 {
        ArrayView::U64(Seq::new(n, |i: int| le64(chunk(s, i, 8))))
    } else if ty == 11 {
        ArrayView::I64(Seq::new(n, |i: int| le64(chunk(s, i, 8)) as i64))
    } else {
        ArrayView::F64(Seq::new(n, |i: int| le64(chunk(s, i, 8))))
    }
}

/// `f` on the value, where there is one.
pub open spec fn then_value<T>(r: Read<T>, f: spec_fn(T) -> ValueView) -> Read<ValueView> {
    match r {
        Ok((v, p)) => Ok((f(v), p)),
        Err(e) => Err(e),
    }
}

/// A value of the numbered type.
pub open spec fn read_value(b: Seq<u8>, pos: int, ty: u32) -> Read<ValueView> {
    if ty == 0 {
        then_value(read_u8(b, pos), |v: u8| ValueView::U8(v))
    } else if ty == 1 {
        then_value(read_u8(b, pos), |v: u8| ValueView::I8(v as i8))
    } else if ty == 2 {
        then_value(read_u16(b, pos), |v: u16| ValueView::U16(v))
    } else if ty == 3 {
        then_value(read_u16(b, pos), |v: u16| ValueView::I16(v as i16))
    } else if ty == 4 {
        then_value(read_u32(b, pos), |v: u32| ValueView::U32(v))
    } else if ty == 5 {
        then_value(read_u32(b, pos), |v: u32| ValueView::I32(v as i32))
    } else if ty == 6 {
        then_value(read_u32(b, pos), |v: u32| ValueView::F32(v))
    } else if ty == 7 {
        then_value(read_u8(b, pos), |v: u8| ValueView::Bool(v != 0))
    } else if ty == 8 {
        then_value(read_string(b, pos), |v: Seq<char>| ValueView::String(v))
    } else if ty == 9 {
        then_value(read_array(b, pos), |v: ArrayView| ValueView::Array(v))
    } else if ty == 10 {
        then_value(read_u64(b, pos), |v: u64| ValueView::U64(v))
    } else if ty == 11 {
        then_value(read_u64(b, pos), |v: u64| ValueView::I64(v as i64))
    } else if ty == 12 {
        then_value(read_u64(b, pos), |v: u64| ValueView::F64(v))
    } else {
        Err(ErrorView::BadValueType(ty))
    }
}

/// A position in a byte slice.
pub struct Cursor<'a> {
    pub buf: &'a [u8],
    pub pos: usize,
}

/// What a read did: the value and the advance, or the error.
pub open spec fn did<T>(before: Cursor, after: Cursor, r: Result<T, Error>, want: Read<T>) -> bool {
    &&& after.buf == before.buf
    &&& match (r, want) {
        (Ok(v), Ok((w, p))) => v == w && after.pos == p,
        (Err(e), Err(f)) => e@ == f,
        _ => false,
    }
}

/// As `did`, for a value that is known by its view.
pub open spec fn did_view<T: View>(
    before: Cursor,
    after: Cursor,
    r: Result<T, Error>,
    want: Read<T::V>,
) -> bool {
    &&& after.buf == before.buf
    &&& match (r, want) {
        (Ok(v), Ok((w, p))) => v@ == w && after.pos == p,
        (Err(e), Err(f)) => e@ == f,
        _ => false,
    }
}

impl<'a> Cursor<'a> {
    pub fn new(buf: &'a [u8]) -> (c: Self)
        ensures
            c.buf == buf,
            c.pos == 0,
    {
        Cursor { buf, pos: 0 }
    }

    pub fn take(&mut self, n: usize) -> (r: Result<&'a [u8], Error>)
        ensures
            final(self).buf == old(self).buf,
            match (r, read_bytes(old(self).buf@, old(self).pos as int, n as int)) {
                (Ok(s), Ok((t, p))) => s@ == t && final(self).pos == p,
                (Err(e), Err(f)) => e@ == f && final(self).pos == old(self).pos,
                _ => false,
            },
    {
        let len: usize = self.buf.len();
        if self.pos > len || n > len - self.pos {
            return Err(Error::Eof(self.pos));
        }
        let end: usize = self.pos + n;
        let s = vstd::slice::slice_subrange(self.buf, self.pos, end);
        self.pos = end;
        Ok(s)
    }

    pub fn u8(&mut self) -> (r: Result<u8, Error>)
        ensures
            did(*old(self), *final(self), r, read_u8(old(self).buf@, old(self).pos as int)),
    {
        let s = self.take(1)?;
        Ok(s[0])
    }

    pub fn u16(&mut self) -> (r: Result<u16, Error>)
        ensures
            did(*old(self), *final(self), r, read_u16(old(self).buf@, old(self).pos as int)),
    {
        let s = self.take(2)?;
        Ok(get16(s, 0))
    }

    pub fn u32(&mut self) -> (r: Result<u32, Error>)
        ensures
            did(*old(self), *final(self), r, read_u32(old(self).buf@, old(self).pos as int)),
    {
        let s = self.take(4)?;
        Ok(get32(s, 0))
    }

    pub fn u64(&mut self) -> (r: Result<u64, Error>)
        ensures
            did(*old(self), *final(self), r, read_u64(old(self).buf@, old(self).pos as int)),
    {
        let s = self.take(8)?;
        Ok(get64(s, 0))
    }

    pub fn string(&mut self) -> (r: Result<String, Error>)
        ensures
            did_view(*old(self), *final(self), r, read_string(old(self).buf@, old(self).pos as int)),
    {
        let n: usize = self.u64()? as usize;
        let b = self.take(n)?;
        Ok(lossy_string(b))
    }
}

impl<'a> Cursor<'a> {
    /// `n` elements of `width` bytes, each decoded by `f`.
    pub fn le_vec<T, F: Fn(&[u8]) -> T>(&mut self, n: usize, width: usize, f: F) -> (r: Result<
        Vec<T>,
        Error,
    >)
        requires
            width > 0,
            forall|s: &[u8]| s@.len() == width ==> call_requires(f, (s,)),
        ensures
            final(self).buf == old(self).buf,
            match (r, read_bytes(old(self).buf@, old(self).pos as int, n * width)) {
                (Ok(v), Ok((t, p))) => final(self).pos == p && v@.len() == n && forall|i: int|
                    0 <= i < n ==> decoded(f, chunk(t, i, width as int), #[trigger] v@[i]),
                (Err(e), Err(g)) => e@ == g,
                _ => false,
            },
    {
        let len: usize = self.buf.len();
        let total: usize = match n.checked_mul(width) {
            Some(t) => t,
            None => {
                return Err(Error::Eof(self.pos));
            },
        };
        let bytes = self.take(total)?;
        let mut v: Vec<T> = Vec::new();
        let mut i: usize = 0;
        assert(0 * width == 0) by (nonlinear_arith);
        while i < n
            invariant
                i <= n,
                width > 0,
                total == n * width,
                bytes@.len() == total,
                forall|s: &[u8]| s@.len() == width ==> call_requires(f, (s,)),
                v@.len() == i,
                forall|k: int|
                    0 <= k < i ==> decoded(f, chunk(bytes@, k, width as int), #[trigger] v@[k]),
            decreases n - i,
        {
            assert(i * width + width <= total) by (nonlinear_arith)
                requires
                    i < n,
                    total == n * width,
                    width > 0,
            ;
            assert(0 <= i * width) by (nonlinear_arith)
                requires
                    width > 0,
            ;
            let c = vstd::slice::slice_subrange(bytes, i * width, i * width + width);
            v.push(f(c));
            i = i + 1;
        }
        Ok(v)
    }

    pub fn array(&mut self) -> (r: Result<Array, Error>)
        ensures
            did_view(*old(self), *final(self), r, read_array(old(self).buf@, old(self).pos as int)),
    {
        let ghost b = self.buf@;
        let ty: u32 = self.u32()?;
        let n: usize = self.u64()? as usize;
        let ghost q = self.pos as int;
        if ty == 8 {
            let v = self.strings(n)?;
            return Ok(Array::String(v));
        }
        if ty == 0 || ty == 1 || ty == 7 {
            proof {
                let w = elem_width(ty)->0;
                assert(n * w == n) by (nonlinear_arith)
                    requires
                        w == 1,
                ;
            }
            let s = self.take(n)?;
            let a = if ty == 0 {
                Array::U8(vstd::slice::slice_to_vec(s))
            } else if ty == 1 {
                Array::I8(signed_bytes(s))
            } else {
                Array::Bool(nonzero_bytes(s))
            };
            return Ok(a);
        }
        if ty == 2 {
            let v = self.le_vec(n, 2, |s: &[u8]| -> (r: u16)
                requires s@.len() == 2,
                ensures r == le16(s@),
                { get16(s, 0) })?;
            proof {
                let t = b.subrange(q, q + n * 2);
                assert(v@ =~= Seq::new(n as nat, |i: int| le16(chunk(t, i, 2))));
            }
            return Ok(Array::U16(v));
        }
        if ty == 3 {
            let v = self.le_vec(n, 2, |s: &[u8]| -> (r: i16)
                requires s@.len() == 2,
                ensures r == le16(s@) as i16,
                { get16(s, 0) as i16 })?;
            proof {
                let t = b.subrange(q, q + n * 2);
                assert(v@ =~= Seq::new(n as nat, |i: int| le16(chunk(t, i, 2)) as i16));
            }
            return Ok(Array::I16(v));
        }
        if ty == 4 || ty == 6 {
            let v = self.le_vec(n, 4, |s: &[u8]| -> (r: u32)
                requires s@.len() == 4,
                ensures r == le32(s@),
                { get32(s, 0) })?;
            proof {
                let t = b.subrange(q, q + n * 4);
                assert(v@ =~= Seq::new(n as nat, |i: int| le32(chunk(t, i, 4))));
            }
            return Ok(if ty == 4 { Array::U32(v) } else { Array::F32(v) });
        }
        if ty == 5 {
            let v = self.le_vec(n, 4, |s: &[u8]| -> (r: i32)
                requires s@.len() == 4,
                ensures r == le32(s@) as i32,
                { get32(s, 0) as i32 })?;
            proof {
                let t = b.subrange(q, q + n * 4);
                assert(v@ =~= Seq::new(n as nat, |i: int| le32(chunk(t, i, 4)) as i32));
            }
            return Ok(Array::I32(v));
        }
        if ty == 10 || ty == 12 {
            let v = self.le_vec(n, 8, |s: &[u8]| -> (r: u64)
                requires s@.len() == 8,
                ensures r == le64(s@),
                { get64(s, 0) })?;
            proof {
                let t = b.subrange(q, q + n * 8);
                assert(v@ =~= Seq::new(n as nat, |i: int| le64(chunk(t, i, 8))));
            }
            return Ok(if ty == 10 { Array::U64(v) } else { Array::F64(v) });
        }
        if ty == 11 {
            let v = self.le_vec(n, 8, |s: &[u8]| -> (r: i64)
                requires s@.len() == 8,
                ensures r == le64(s@) as i64,
                { get64(s, 0) as i64 })?;
            proof {
                let t = b.subrange(q, q + n * 8);
                assert(v@ =~= Seq::new(n as nat, |i: int| le64(chunk(t, i, 8)) as i64));
            }
            return Ok(Array::I64(v));
        }
        if n == 0 {
            Ok(Array::Empty)
        } else {
            Err(Error::BadValueType(ty))
        }
    }

    fn strings(&mut self, n: usize) -> (r: Result<Vec<String>, Error>)
        ensures
            final(self).buf == old(self).buf,
            match (r, read_strings(old(self).buf@, old(self).pos as int, n as nat, Seq::empty())) {
                (Ok(v), Ok((t, p))) => text::views(v@) == t && final(self).pos == p,
                (Err(e), Err(f)) => e@ == f,
                _ => false,
            },
    {
        let mut v: Vec<String> = Vec::new();
        let mut i: usize = 0;
        assert(text::views(v@) =~= Seq::<Seq<char>>::empty());
        while i < n
            invariant
                i <= n,
                self.buf == old(self).buf,
                read_strings(old(self).buf@, old(self).pos as int, n as nat, Seq::empty())
                    == read_strings(self.buf@, self.pos as int, (n - i) as nat, text::views(v@)),
            decreases n - i,
        {
            let ghost before = text::views(v@);
            let s = self.string()?;
            let ghost sv = s@;
            v.push(s);
            assert(text::views(v@) =~= before.push(sv));
            i = i + 1;
        }
        Ok(v)
    }

    pub fn value(&mut self, ty: u32) -> (r: Result<Value, Error>)
        ensures
            did_view(
                *old(self),
                *final(self),
                r,
                read_value(old(self).buf@, old(self).pos as int, ty),
            ),
    {
        let v = if ty == 0 {
            Value::U8(self.u8()?)
        } else if ty == 1 {
            Value::I8(self.u8()? as i8)
        } else if ty == 2 {
            Value::U16(self.u16()?)
        } else if ty == 3 {
            Value::I16(self.u16()? as i16)
        } else if ty == 4 {
            Value::U32(self.u32()?)
        } else if ty == 5 {
            Value::I32(self.u32()? as i32)
        } else if ty == 6 {
            Value::F32(self.u32()?)
        } else if ty == 7 {
            Value::Bool(self.u8()? != 0)
        } else if ty == 8 {
            Value::String(self.string()?)
        } else if ty == 9 {
            Value::Array(self.array()?)
        } else if ty == 10 {
            Value::U64(self.u64()?)
        } else if ty == 11 {
            Value::I64(self.u64()? as i64)
        } else if ty == 12 {
            Value::F64(self.u64()?)
        } else {
            return Err(Error::BadValueType(ty));
        };
        Ok(v)
    }
}

/// `out` is what `f` makes of the bytes `s`.
pub open spec fn decoded<T, F: Fn(&[u8]) -> T>(f: F, s: Seq<u8>, out: T) -> bool {
    exists|c: &[u8]| c@ == s && call_ensures(f, (c,), out)
}

fn signed_bytes(s: &[u8]) -> (v: Vec<i8>)
    ensures
        v@ == s@.map_values(|x: u8| x as i8),
{
    let mut v: Vec<i8> = Vec::new();
    let mut i: usize = 0;
    while i < s.len()
        invariant
            i <= s@.len(),
            v@ == s@.map_values(|x: u8| x as i8).subrange(0, i as int),
        decreases s@.len() - i,
    {
        v.push(s[i] as i8);
        i = i + 1;
        assert(v@ =~= s@.map_values(|x: u8| x as i8).subrange(0, i as int));
    }
    assert(v@ =~= s@.map_values(|x: u8| x as i8));
    v
}

pub fn nonzero_bytes(s: &[u8]) -> (v: Vec<bool>)
    ensures
        v@ == s@.map_values(|x: u8| x != 0),
{
    let mut v: Vec<bool> = Vec::new();
    let mut i: usize = 0;
    while i < s.len()
        invariant
            i <= s@.len(),
            v@ == s@.map_values(|x: u8| x != 0).subrange(0, i as int),
        decreases s@.len() - i,
    {
        v.push(s[i] != 0);
        i = i + 1;
        assert(v@ =~= s@.map_values(|x: u8| x != 0).subrange(0, i as int));
    }
    assert(v@ =~= s@.map_values(|x: u8| x != 0));
    v
}

fn get16(s: &[u8], i: usize) -> (r: u16)
    requires
        i + 2 <= s@.len(),
    ensures
        r == le16(s@.subrange(i as int, i + 2)),
        i == 0 && s@.len() == 2 ==> r == le16(s@),
{
    assert(i == 0 && s@.len() == 2 ==> s@.subrange(i as int, i + 2) =~= s@);
    s[i] as u16 + s[i + 1] as u16 * 0x100
}

fn get32(s: &[u8], i: usize) -> (r: u32)
    requires
        i + 4 <= s@.len(),
    ensures
        r == le32(s@.subrange(i as int, i + 4)),
        i == 0 && s@.len() == 4 ==> r == le32(s@),
{
    assert(i == 0 && s@.len() == 4 ==> s@.subrange(i as int, i + 4) =~= s@);
    s[i] as u32 + s[i + 1] as u32 * 0x100 + s[i + 2] as u32 * 0x1_0000 + s[i + 3] as u32
        * 0x100_0000
}

fn get64(s: &[u8], i: usize) -> (r: u64)
    requires
        i + 8 <= s@.len(),
    ensures
        r == le64(s@.subrange(i as int, i + 8)),
        i == 0 && s@.len() == 8 ==> r == le64(s@),
{
    assert(i == 0 && s@.len() == 8 ==> s@.subrange(i as int, i + 8) =~= s@);
    s[i] as u64 + s[i + 1] as u64 * 0x100 + s[i + 2] as u64 * 0x1_0000 + s[i + 3] as u64
        * 0x100_0000 + s[i + 4] as u64 * 0x1_0000_0000 + s[i + 5] as u64 * 0x100_0000_0000 + s[i
        + 6] as u64 * 0x1_0000_0000_0000 + s[i + 7] as u64 * 0x100_0000_0000_0000
}

} // verus!
