//! Files as they are written, and that they are read back.
//!
//! The format is given here from the writer's side: how a number, a text, a list and an
//! entry of a table become bytes. Reading is the inverse of that.

use crate::cursor::{
    chunk, elem_width, le16, le32, le64, read_array, read_bytes, read_string, read_strings,
    read_u32, read_u64, read_value, utf8_lossy,
};
use crate::gguf::{ArrayView, ErrorView, GgmlType, ValueView};
use crate::header::{
    aligned, alignment, read_dims, read_header, read_metadata, read_tables, read_tensor,
    read_tensors, saturate, HeaderView, TensorInfoView,
};
use vstd::prelude::*;

verus! {

// ---------------------------------------------------------------------------
// Writing
// ---------------------------------------------------------------------------
/// A number in two bytes, the lowest first.
pub open spec fn put16(x: u16) -> Seq<u8> {
    seq![(x % 0x100) as u8, (x / 0x100) as u8]
}

/// A number in four bytes, the lowest first.
#[verifier::opaque]
pub open spec fn put32(x: u32) -> Seq<u8> {
    put16((x % 0x1_0000) as u16) + put16((x / 0x1_0000) as u16)
}

/// A number in eight bytes, the lowest first.
#[verifier::opaque]
pub open spec fn put64(x: u64) -> Seq<u8> {
    put32((x % 0x1_0000_0000) as u32) + put32((x / 0x1_0000_0000) as u32)
}

/// A text: its length, then its bytes.
pub open spec fn put_text(s: Seq<u8>) -> Seq<u8> {
    put64(s.len() as u64) + s
}

/// Some texts, one behind the other.
pub open spec fn put_texts(v: Seq<Seq<u8>>) -> Seq<u8>
    decreases v.len(),
{
    if v.len() == 0 {
        Seq::empty()
    } else {
        put_text(v[0]) + put_texts(v.drop_first())
    }
}

/// Some numbers of four bytes, one behind the other.
pub open spec fn put_words(v: Seq<u32>) -> Seq<u8>
    decreases v.len(),
{
    if v.len() == 0 {
        Seq::empty()
    } else {
        put32(v[0]) + put_words(v.drop_first())
    }
}

/// A value, as a writer has it: a text is its bytes.
pub ghost enum Stored {
    U8(u8),
    I8(i8),
    U16(u16),
    I16(i16),
    U32(u32),
    I32(i32),
    F32(u32),
    Bool(bool),
    Text(Seq<u8>),
    U64(u64),
    I64(i64),
    F64(u64),
    Bytes(Seq<u8>),
    Bools(Seq<bool>),
    U32s(Seq<u32>),
    F32s(Seq<u32>),
    Texts(Seq<Seq<u8>>),
}

impl Stored {
    /// The number that stands for its type.
    pub open spec fn kind(self) -> u32 {
        match self {
            Stored::U8(_) => 0,
            Stored::I8(_) => 1,
            Stored::U16(_) => 2,
            Stored::I16(_) => 3,
            Stored::U32(_) => 4,
            Stored::I32(_) => 5,
            Stored::F32(_) => 6,
            Stored::Bool(_) => 7,
            Stored::Text(_) => 8,
            Stored::U64(_) => 10,
            Stored::I64(_) => 11,
            Stored::F64(_) => 12,
            _ => 9,
        }
    }

    pub open spec fn put(self) -> Seq<u8> {
        match self {
            Stored::U8(x) => seq![x],
            Stored::I8(x) => seq![x as u8],
            Stored::U16(x) => put16(x),
            Stored::I16(x) => put16(x as u16),
            Stored::U32(x) => put32(x),
            Stored::I32(x) => put32(x as u32),
            Stored::F32(x) => put32(x),
            Stored::Bool(x) => seq![if x { 1u8 } else { 0u8 }],
            Stored::Text(s) => put_text(s),
            Stored::U64(x) => put64(x),
            Stored::I64(x) => put64(x as u64),
            Stored::F64(x) => put64(x),
            Stored::Bytes(v) => put32(0) + put64(v.len() as u64) + v,
            Stored::Bools(v) => put32(7) + put64(v.len() as u64) + v.map_values(
                |x: bool| if x { 1u8 } else { 0u8 },
            ),
            Stored::U32s(v) => put32(4) + put64(v.len() as u64) + put_words(v),
            Stored::F32s(v) => put32(6) + put64(v.len() as u64) + put_words(v),
            Stored::Texts(v) => put32(8) + put64(v.len() as u64) + put_texts(v),
        }
    }

    /// What a reader makes of it.
    pub open spec fn meant(self) -> ValueView {
        match self {
            Stored::U8(x) => ValueView::U8(x),
            Stored::I8(x) => ValueView::I8(x),
            Stored::U16(x) => ValueView::U16(x),
            Stored::I16(x) => ValueView::I16(x),
            Stored::U32(x) => ValueView::U32(x),
            Stored::I32(x) => ValueView::I32(x),
            Stored::F32(x) => ValueView::F32(x),
            Stored::Bool(x) => ValueView::Bool(x),
            Stored::Text(s) => ValueView::String(utf8_lossy(s)),
            Stored::U64(x) => ValueView::U64(x),
            Stored::I64(x) => ValueView::I64(x),
            Stored::F64(x) => ValueView::F64(x),
            Stored::Bytes(v) => ValueView::Array(ArrayView::U8(v)),
            Stored::Bools(v) => ValueView::Array(ArrayView::Bool(v)),
            Stored::U32s(v) => ValueView::Array(ArrayView::U32(v)),
            Stored::F32s(v) => ValueView::Array(ArrayView::F32(v)),
            Stored::Texts(v) => ValueView::Array(
                ArrayView::String(v.map_values(|s: Seq<u8>| utf8_lossy(s))),
            ),
        }
    }
}

/// The entries of the metadata: a key, the number of the value's type, and the value.
pub open spec fn put_entries(v: Seq<(Seq<u8>, Stored)>) -> Seq<u8>
    decreases v.len(),
{
    if v.len() == 0 {
        Seq::empty()
    } else {
        put_text(v[0].0) + put32(v[0].1.kind()) + v[0].1.put() + put_entries(v.drop_first())
    }
}

/// What a reader knows by them, beyond `acc`: of two entries with one key the later.
pub open spec fn known(
    v: Seq<(Seq<u8>, Stored)>,
    acc: Map<Seq<char>, ValueView>,
) -> Map<Seq<char>, ValueView>
    decreases v.len(),
{
    if v.len() == 0 {
        acc
    } else {
        known(v.drop_first(), acc.insert(utf8_lossy(v[0].0), v[0].1.meant()))
    }
}

/// A tensor, as a writer has it.
pub ghost struct StoredTensor {
    pub name: Seq<u8>,
    pub dims: Seq<u64>,
    pub ty: GgmlType,
    pub offset: u64,
}

/// The number that stands for a tensor's type.
pub open spec fn type_number(ty: GgmlType) -> u32 {
    match ty {
        GgmlType::F32 => 0,
        GgmlType::F16 => 1,
        GgmlType::Q8_0 => 8,
        GgmlType::Q4K => 12,
        GgmlType::Q6K => 14,
        GgmlType::BF16 => 30,
    }
}

pub open spec fn put_dims(v: Seq<u64>) -> Seq<u8>
    decreases v.len(),
{
    if v.len() == 0 {
        Seq::empty()
    } else {
        put64(v[0]) + put_dims(v.drop_first())
    }
}

impl StoredTensor {
    /// Name, number of dimensions, dimensions, type, offset.
    pub open spec fn put(self) -> Seq<u8> {
        put_text(self.name) + put32(self.dims.len() as u32) + put_dims(self.dims) + put32(
            type_number(self.ty),
        ) + put64(self.offset)
    }

    pub open spec fn meant(self) -> TensorInfoView {
        TensorInfoView {
            name: utf8_lossy(self.name),
            dims: self.dims,
            ty: self.ty,
            offset: self.offset,
        }
    }
}

pub open spec fn put_tensors(v: Seq<StoredTensor>) -> Seq<u8>
    decreases v.len(),
{
    if v.len() == 0 {
        Seq::empty()
    } else {
        v[0].put() + put_tensors(v.drop_first())
    }
}

/// A file's header: four letters, the version, how many tensors and how many entries
/// there are, the entries, and the tensors.
pub open spec fn put_header(
    version: u32,
    entries: Seq<(Seq<u8>, Stored)>,
    tensors: Seq<StoredTensor>,
) -> Seq<u8> {
    seq![0x47u8, 0x47u8, 0x55u8, 0x46u8] + put32(version) + put64(tensors.len() as u64) + put64(
        entries.len() as u64,
    ) + put_entries(entries) + put_tensors(tensors)
}

// ---------------------------------------------------------------------------
// Reading it back
// ---------------------------------------------------------------------------
/// These bytes stand at `pos`.
#[verifier::opaque]
pub open spec fn stands(b: Seq<u8>, pos: int, w: Seq<u8>) -> bool {
    &&& 0 <= pos
    &&& pos + w.len() <= b.len()
    &&& b.subrange(pos, pos + w.len()) == w
}

/// Where two stand, the first does, and the second behind it.
proof fn lemma_stands(b: Seq<u8>, pos: int, v: Seq<u8>, w: Seq<u8>)
    requires
        stands(b, pos, v + w),
    ensures
        stands(b, pos, v),
        stands(b, pos + v.len(), w),
{
    reveal(stands);
    let all = b.subrange(pos, pos + v.len() + w.len());
    assert(all == v + w);
    assert forall|i: int| 0 <= i < v.len() implies b[pos + i] == v[i] by {
        assert(all[i] == v[i]);
    }
    assert forall|i: int| 0 <= i < w.len() implies b[pos + v.len() + i] == w[i] by {
        assert(all[v.len() + i] == w[i]);
    }
    assert(b.subrange(pos, pos + v.len()) =~= v);
    assert(b.subrange(pos + v.len(), pos + v.len() + w.len()) =~= w);
}

proof fn lemma_put(x: u16, y: u32, z: u64)
    ensures
        put16(x).len() == 2 && le16(put16(x)) == x,
        put32(y).len() == 4 && le32(put32(y)) == y,
        put64(z).len() == 8 && le64(put64(z)) == z,
{
    reveal(put32);
    reveal(put64);
    let (a, b) = ((y % 0x1_0000) as u16, (y / 0x1_0000) as u16);
    assert(put32(y) =~= seq![
        (a % 0x100) as u8,
        (a / 0x100) as u8,
        (b % 0x100) as u8,
        (b / 0x100) as u8,
    ]);
    let (c, d) = ((z % 0x1_0000_0000) as u32, (z / 0x1_0000_0000) as u32);
    let (c0, c1) = ((c % 0x1_0000) as u16, (c / 0x1_0000) as u16);
    let (d0, d1) = ((d % 0x1_0000) as u16, (d / 0x1_0000) as u16);
    assert(put64(z) =~= seq![
        (c0 % 0x100) as u8,
        (c0 / 0x100) as u8,
        (c1 % 0x100) as u8,
        (c1 / 0x100) as u8,
        (d0 % 0x100) as u8,
        (d0 / 0x100) as u8,
        (d1 % 0x100) as u8,
        (d1 / 0x100) as u8,
    ]);
}

proof fn lemma_read32(b: Seq<u8>, pos: int, x: u32)
    requires
        stands(b, pos, put32(x)),
    ensures
        read_u32(b, pos) == Ok::<(u32, int), ErrorView>((x, pos + 4)),
{
    reveal(stands);
    lemma_put(0, x, 0);
}

proof fn lemma_read64(b: Seq<u8>, pos: int, x: u64)
    requires
        stands(b, pos, put64(x)),
    ensures
        read_u64(b, pos) == Ok::<(u64, int), ErrorView>((x, pos + 8)),
{
    reveal(stands);
    lemma_put(0, 0, x);
}

proof fn lemma_read_text(b: Seq<u8>, pos: int, s: Seq<u8>)
    requires
        stands(b, pos, put_text(s)),
        b.len() <= usize::MAX,
    ensures
        put_text(s).len() == 8 + s.len(),
        read_string(b, pos) == Ok::<(Seq<char>, int), ErrorView>(
            (utf8_lossy(s), pos + 8 + s.len()),
        ),
{
    lemma_put(0, 0, s.len() as u64);
    lemma_stands(b, pos, put64(s.len() as u64), s);
    lemma_read64(b, pos, s.len() as u64);
    reveal(stands);
}

proof fn lemma_read_texts(b: Seq<u8>, pos: int, v: Seq<Seq<u8>>, acc: Seq<Seq<char>>)
    requires
        stands(b, pos, put_texts(v)),
        b.len() <= usize::MAX,
    ensures
        read_strings(b, pos, v.len(), acc) == Ok::<(Seq<Seq<char>>, int), ErrorView>(
            (acc + v.map_values(|s: Seq<u8>| utf8_lossy(s)), pos + put_texts(v).len()),
        ),
    decreases v.len(),
{
    let meant = v.map_values(|s: Seq<u8>| utf8_lossy(s));
    if v.len() == 0 {
        assert(acc + meant =~= acc);
    } else {
        let rest = v.drop_first();
        lemma_stands(b, pos, put_text(v[0]), put_texts(rest));
        lemma_read_text(b, pos, v[0]);
        lemma_read_texts(b, pos + put_text(v[0]).len(), rest, acc.push(utf8_lossy(v[0])));
        assert(acc.push(utf8_lossy(v[0])) + rest.map_values(|s: Seq<u8>| utf8_lossy(s)) =~= acc
            + meant);
    }
}

proof fn lemma_words(v: Seq<u32>, i: int)
    requires
        0 <= i < v.len(),
    ensures
        put_words(v).len() == 4 * v.len(),
        le32(chunk(put_words(v), i, 4)) == v[i],
    decreases v.len(),
{
    let rest = v.drop_first();
    lemma_put(0, v[0], 0);
    lemma_words_len(v);
    lemma_words_len(rest);
    let all = put_words(v);
    if i == 0 {
        assert(chunk(all, 0, 4) =~= put32(v[0]));
    } else {
        lemma_words(rest, i - 1);
        assert(chunk(all, i, 4) =~= chunk(put_words(rest), i - 1, 4));
    }
}

proof fn lemma_words_len(v: Seq<u32>)
    ensures
        put_words(v).len() == 4 * v.len(),
    decreases v.len(),
{
    if v.len() > 0 {
        lemma_put(0, v[0], 0);
        lemma_words_len(v.drop_first());
    }
}

proof fn lemma_texts_len(v: Seq<Seq<u8>>)
    ensures
        put_texts(v).len() >= 8 * v.len(),
    decreases v.len(),
{
    if v.len() > 0 {
        lemma_put(0, 0, v[0].len() as u64);
        lemma_texts_len(v.drop_first());
    }
}

/// The type and the length in front of a list.
proof fn lemma_list(b: Seq<u8>, pos: int, ty: u32, n: u64, w: Seq<u8>)
    requires
        stands(b, pos, put32(ty) + put64(n) + w),
    ensures
        (put32(ty) + put64(n) + w).len() == 12 + w.len(),
        read_u32(b, pos) == Ok::<(u32, int), ErrorView>((ty, pos + 4)),
        read_u64(b, pos + 4) == Ok::<(u64, int), ErrorView>((n, pos + 12)),
        stands(b, pos + 12, w),
{
    lemma_put(0, ty, n);
    lemma_stands(b, pos, put32(ty) + put64(n), w);
    lemma_stands(b, pos, put32(ty), put64(n));
    lemma_read32(b, pos, ty);
    lemma_read64(b, pos + 4, n);
}

/// A number or a text that was written is read back.
#[verifier::rlimit(40)]
proof fn lemma_read_scalar(b: Seq<u8>, pos: int, v: Stored)
    requires
        stands(b, pos, v.put()),
        b.len() <= usize::MAX,
        v.kind() != 9,
    ensures
        read_value(b, pos, v.kind()) == Ok::<(ValueView, int), ErrorView>(
            (v.meant(), pos + v.put().len()),
        ),
{
    let w = v.put();
    let all = b.subrange(pos, pos + w.len());
    assert(0 <= pos && pos + w.len() <= b.len() && all == w) by {
        reveal(stands);
    }
    match v {
        Stored::U8(x) => {
            assert(all[0] == x);
        },
        Stored::I8(x) => {
            assert(all[0] == x as u8);
            assert((x as u8) as i8 == x) by (bit_vector);
        },
        Stored::U16(x) => {
            lemma_put(x, 0, 0);
        },
        Stored::I16(x) => {
            lemma_put(x as u16, 0, 0);
            assert((x as u16) as i16 == x) by (bit_vector);
        },
        Stored::U32(x) => {
            lemma_read32(b, pos, x);
            lemma_put(0, x, 0);
        },
        Stored::I32(x) => {
            lemma_read32(b, pos, x as u32);
            lemma_put(0, x as u32, 0);
            assert((x as u32) as i32 == x) by (bit_vector);
        },
        Stored::F32(x) => {
            lemma_read32(b, pos, x);
            lemma_put(0, x, 0);
        },
        Stored::Bool(x) => {
            assert(all[0] == if x { 1u8 } else { 0u8 });
        },
        Stored::Text(s) => {
            lemma_read_text(b, pos, s);
        },
        Stored::U64(x) => {
            lemma_read64(b, pos, x);
            lemma_put(0, 0, x);
        },
        Stored::I64(x) => {
            lemma_read64(b, pos, x as u64);
            lemma_put(0, 0, x as u64);
            assert((x as u64) as i64 == x) by (bit_vector);
        },
        Stored::F64(x) => {
            lemma_read64(b, pos, x);
            lemma_put(0, 0, x);
        },
        _ => {},
    }
}

/// A list that was written is read back.
#[verifier::rlimit(40)]
proof fn lemma_read_list(b: Seq<u8>, pos: int, v: Stored)
    requires
        stands(b, pos, v.put()),
        b.len() <= usize::MAX,
        v.kind() == 9,
    ensures
        read_value(b, pos, v.kind()) == Ok::<(ValueView, int), ErrorView>(
            (v.meant(), pos + v.put().len()),
        ),
{
    match v {
        Stored::Bytes(x) => {
            lemma_list(b, pos, 0, x.len() as u64, x);
            reveal(stands);
            assert(x.len() <= usize::MAX);
            assert(read_bytes(b, pos + 12, x.len() as int) == Ok::<(Seq<u8>, int), ErrorView>(
                (x, pos + 12 + x.len()),
            ));
            let (n, one) = ((x.len() as u64) as usize, elem_width(0u32)->0);
            assert(n * one == n) by (nonlinear_arith)
                requires
                    one == 1,
            ;
            assert(read_bytes(b, pos + 12, n * one) == read_bytes(b, pos + 12, x.len() as int));
            assert(read_array(b, pos) == Ok::<(ArrayView, int), ErrorView>(
                (ArrayView::U8(x), pos + 12 + x.len()),
            ));
        },
        Stored::Bools(x) => {
            let bytes = x.map_values(|y: bool| if y { 1u8 } else { 0u8 });
            lemma_list(b, pos, 7, x.len() as u64, bytes);
            reveal(stands);
            assert(bytes.len() <= usize::MAX);
            assert(bytes.map_values(|y: u8| y != 0) =~= x);
            assert(read_bytes(b, pos + 12, x.len() as int) == Ok::<(Seq<u8>, int), ErrorView>(
                (bytes, pos + 12 + x.len()),
            ));
            let (n, one) = ((x.len() as u64) as usize, elem_width(7u32)->0);
            assert(n * one == n) by (nonlinear_arith)
                requires
                    one == 1,
            ;
            assert(read_bytes(b, pos + 12, n * one) == read_bytes(b, pos + 12, x.len() as int));
            assert(read_array(b, pos) == Ok::<(ArrayView, int), ErrorView>(
                (ArrayView::Bool(x), pos + 12 + x.len()),
            ));
        },
        Stored::U32s(x) => {
            lemma_list(b, pos, 4, x.len() as u64, put_words(x));
            reveal(stands);
            lemma_words_len(x);
            lemma_elems(x);
            assert(read_bytes(b, pos + 12, x.len() as int * 4) == Ok::<(Seq<u8>, int), ErrorView>(
                (put_words(x), pos + 12 + 4 * x.len()),
            ));
            assert(read_array(b, pos) == Ok::<(ArrayView, int), ErrorView>(
                (ArrayView::U32(x), pos + 12 + 4 * x.len()),
            ));
        },
        Stored::F32s(x) => {
            lemma_list(b, pos, 6, x.len() as u64, put_words(x));
            reveal(stands);
            lemma_words_len(x);
            lemma_elems(x);
            assert(read_bytes(b, pos + 12, x.len() as int * 4) == Ok::<(Seq<u8>, int), ErrorView>(
                (put_words(x), pos + 12 + 4 * x.len()),
            ));
            assert(read_array(b, pos) == Ok::<(ArrayView, int), ErrorView>(
                (ArrayView::F32(x), pos + 12 + 4 * x.len()),
            ));
        },
        Stored::Texts(x) => {
            lemma_list(b, pos, 8, x.len() as u64, put_texts(x));
            lemma_texts_len(x);
            lemma_read_texts(b, pos + 12, x, Seq::empty());
            reveal(stands);
            let meant = x.map_values(|s: Seq<u8>| utf8_lossy(s));
            assert(Seq::<Seq<char>>::empty() + meant =~= meant);
            assert(read_array(b, pos) == Ok::<(ArrayView, int), ErrorView>(
                (ArrayView::String(meant), pos + 12 + put_texts(x).len()),
            ));
        },
        _ => {},
    }
}

/// A value that was written is read back.
proof fn lemma_read_value(b: Seq<u8>, pos: int, v: Stored)
    requires
        stands(b, pos, v.put()),
        b.len() <= usize::MAX,
    ensures
        read_value(b, pos, v.kind()) == Ok::<(ValueView, int), ErrorView>(
            (v.meant(), pos + v.put().len()),
        ),
{
    if v.kind() == 9 {
        lemma_read_list(b, pos, v);
    } else {
        lemma_read_scalar(b, pos, v);
    }
}

proof fn lemma_elems(v: Seq<u32>)
    ensures
        Seq::new(v.len(), |i: int| le32(chunk(put_words(v), i, 4))) == v,
{
    assert forall|i: int| 0 <= i < v.len() implies le32(#[trigger] chunk(put_words(v), i, 4))
        == v[i] by {
        lemma_words(v, i);
    }
    assert(Seq::new(v.len(), |i: int| le32(chunk(put_words(v), i, 4))) =~= v);
}

proof fn lemma_read_entries(
    b: Seq<u8>,
    pos: int,
    v: Seq<(Seq<u8>, Stored)>,
    acc: Map<Seq<char>, ValueView>,
)
    requires
        stands(b, pos, put_entries(v)),
        b.len() <= usize::MAX,
    ensures
        read_metadata(b, pos, v.len(), acc) == Ok::<
            (Map<Seq<char>, ValueView>, int),
            ErrorView,
        >((known(v, acc), pos + put_entries(v).len())),
        put_entries(v).len() >= 8 * v.len(),
    decreases v.len(),
{
    if v.len() > 0 {
        let (key, value) = v[0];
        let rest = v.drop_first();
        let (a, k, w) = (put_text(key), put32(value.kind()), value.put());
        lemma_stands(b, pos, a + k + w, put_entries(rest));
        lemma_stands(b, pos, a + k, w);
        lemma_stands(b, pos, a, k);
        lemma_read_text(b, pos, key);
        lemma_put(0, value.kind(), 0);
        lemma_read32(b, pos + a.len(), value.kind());
        let at = pos + a.len() + 4;
        lemma_read_value(b, at, value);
        lemma_read_entries(
            b,
            at + w.len(),
            rest,
            acc.insert(utf8_lossy(key), value.meant()),
        );
    }
}

proof fn lemma_read_dims(b: Seq<u8>, pos: int, v: Seq<u64>, acc: Seq<u64>)
    requires
        stands(b, pos, put_dims(v)),
    ensures
        read_dims(b, pos, v.len(), acc) == Ok::<(Seq<u64>, int), ErrorView>(
            (acc + v, pos + put_dims(v).len()),
        ),
    decreases v.len(),
{
    if v.len() == 0 {
        assert(acc + v =~= acc);
    } else {
        let rest = v.drop_first();
        lemma_put(0, 0, v[0]);
        lemma_stands(b, pos, put64(v[0]), put_dims(rest));
        lemma_read64(b, pos, v[0]);
        lemma_read_dims(b, pos + 8, rest, acc.push(v[0]));
        assert(acc.push(v[0]) + rest =~= acc + v);
    }
}

proof fn lemma_read_tensor(b: Seq<u8>, pos: int, t: StoredTensor)
    requires
        stands(b, pos, t.put()),
        b.len() <= usize::MAX,
        t.dims.len() <= u32::MAX,
    ensures
        read_tensor(b, pos) == Ok::<(TensorInfoView, int), ErrorView>(
            (t.meant(), pos + t.put().len()),
        ),
        t.put().len() >= 8,
{
    let (a, r) = (put_text(t.name), put32(t.dims.len() as u32));
    let (ds, ty, off) = (put_dims(t.dims), put32(type_number(t.ty)), put64(t.offset));
    lemma_stands(b, pos, a + r + ds + ty, off);
    lemma_stands(b, pos, a + r + ds, ty);
    lemma_stands(b, pos, a + r, ds);
    lemma_stands(b, pos, a, r);
    lemma_read_text(b, pos, t.name);
    lemma_put(0, t.dims.len() as u32, t.offset);
    lemma_read32(b, pos + a.len(), t.dims.len() as u32);
    let at = pos + a.len() + 4;
    lemma_read_dims(b, at, t.dims, Seq::empty());
    assert(Seq::<u64>::empty() + t.dims =~= t.dims);
    lemma_put(0, type_number(t.ty), 0);
    lemma_read32(b, at + ds.len(), type_number(t.ty));
    lemma_read64(b, at + ds.len() + 4, t.offset);
}

proof fn lemma_read_tensors(
    b: Seq<u8>,
    pos: int,
    v: Seq<StoredTensor>,
    acc: Seq<TensorInfoView>,
)
    requires
        stands(b, pos, put_tensors(v)),
        b.len() <= usize::MAX,
        forall|i: int| 0 <= i < v.len() ==> (#[trigger] v[i]).dims.len() <= u32::MAX,
    ensures
        read_tensors(b, pos, v.len(), acc) == Ok::<
            (Seq<TensorInfoView>, int),
            ErrorView,
        >(
            (acc + v.map_values(|t: StoredTensor| t.meant()), pos + put_tensors(v).len()),
        ),
        put_tensors(v).len() >= 8 * v.len(),
    decreases v.len(),
{
    let meant = v.map_values(|t: StoredTensor| t.meant());
    if v.len() == 0 {
        assert(acc + meant =~= acc);
    } else {
        let rest = v.drop_first();
        assert(v[0].dims.len() <= u32::MAX);
        lemma_stands(b, pos, v[0].put(), put_tensors(rest));
        lemma_read_tensor(b, pos, v[0]);
        lemma_read_tensors(b, pos + v[0].put().len(), rest, acc.push(v[0].meant()));
        assert(acc.push(v[0].meant()) + rest.map_values(|t: StoredTensor| t.meant()) =~= acc
            + meant);
    }
}

// ---------------------------------------------------------------------------
// Laws
// ---------------------------------------------------------------------------
/// A header that was written is read back, whatever follows it: every entry with its
/// value, every tensor with its place, and the data behind it at the next multiple of the
/// alignment.
#[verifier::rlimit(40)]
pub proof fn written_headers_are_read_back(
    version: u32,
    entries: Seq<(Seq<u8>, Stored)>,
    tensors: Seq<StoredTensor>,
    rest: Seq<u8>,
)
    requires
        version == 2 || version == 3,
        (put_header(version, entries, tensors) + rest).len() <= usize::MAX,
        forall|i: int| 0 <= i < tensors.len() ==> (#[trigger] tensors[i]).dims.len() <= u32::MAX,
    ensures
        ({
            let w = put_header(version, entries, tensors);
            let facts = known(entries, Map::empty());
            read_header(w + rest) == Ok::<HeaderView, ErrorView>(
                HeaderView {
                    version,
                    metadata: facts,
                    tensors: tensors.map_values(|t: StoredTensor| t.meant()),
                    data_offset: saturate(aligned(w.len() as int, alignment(facts) as int)),
                },
            )
        }),
{
    let w = put_header(version, entries, tensors);
    let b = w + rest;
    let letters = seq![0x47u8, 0x47u8, 0x55u8, 0x46u8];
    let (v, n, k) = (put32(version), put64(tensors.len() as u64), put64(entries.len() as u64));
    let (es, ts) = (put_entries(entries), put_tensors(tensors));
    assert(stands(b, 0, w)) by {
        reveal(stands);
        assert(b.subrange(0, w.len() as int) =~= w);
    }
    assert(w =~= letters + v + (n + k + es + ts));
    lemma_put(0, version, 0);
    lemma_put(0, 0, tensors.len() as u64);
    lemma_put(0, 0, entries.len() as u64);
    lemma_stands(b, 0, letters + v, n + k + es + ts);
    lemma_stands(b, 0, letters, v);
    assert(stands(b, 0, letters) ==> b.subrange(0, 4) == letters && 4 <= b.len()) by {
        reveal(stands);
    }
    assert(read_bytes(b, 0, 4) == Ok::<(Seq<u8>, int), ErrorView>((letters, 4)));
    assert(le32(letters) == 0x4655_4747);
    lemma_read32(b, 4, version);
    lemma_tables(b, 8, version, entries, tensors);
}

proof fn lemma_tables(
    b: Seq<u8>,
    pos: int,
    version: u32,
    entries: Seq<(Seq<u8>, Stored)>,
    tensors: Seq<StoredTensor>,
)
    requires
        stands(
            b,
            pos,
            put64(tensors.len() as u64) + put64(entries.len() as u64) + put_entries(entries)
                + put_tensors(tensors),
        ),
        b.len() <= usize::MAX,
        forall|i: int| 0 <= i < tensors.len() ==> (#[trigger] tensors[i]).dims.len() <= u32::MAX,
    ensures
        ({
            let facts = known(entries, Map::empty());
            let end = pos + 16 + put_entries(entries).len() + put_tensors(tensors).len();
            read_tables(b, pos, version) == Ok::<HeaderView, ErrorView>(
                HeaderView {
                    version,
                    metadata: facts,
                    tensors: tensors.map_values(|t: StoredTensor| t.meant()),
                    data_offset: saturate(aligned(end, alignment(facts) as int)),
                },
            )
        }),
{
    let (n, k) = (put64(tensors.len() as u64), put64(entries.len() as u64));
    let (es, ts) = (put_entries(entries), put_tensors(tensors));
    lemma_put(0, 0, tensors.len() as u64);
    lemma_put(0, 0, entries.len() as u64);
    lemma_stands(b, pos, n + k + es, ts);
    lemma_stands(b, pos, n + k, es);
    lemma_stands(b, pos, n, k);
    lemma_read64(b, pos, tensors.len() as u64);
    lemma_read64(b, pos + 8, entries.len() as u64);
    lemma_read_entries(b, pos + 16, entries, Map::empty());
    lemma_read_tensors(b, pos + 16 + es.len(), tensors, Seq::empty());
    let meant = tensors.map_values(|t: StoredTensor| t.meant());
    assert(Seq::<TensorInfoView>::empty() + meant =~= meant);
    assert(entries.len() <= usize::MAX && tensors.len() <= usize::MAX) by {
        reveal(stands);
    }
}

/// The data of a file starts behind its header, at the first multiple of the alignment.
pub proof fn data_starts_at_the_next_multiple(x: int, a: int)
    requires
        0 <= x,
        0 < a,
    ensures
        x <= aligned(x, a) < x + a,
        aligned(x, a) % a == 0,
{
    crate::header::lemma_aligned(x, a);
}

} // verus!
