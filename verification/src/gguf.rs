//! Zero-copy GGUF v2/v3 reader.
//!
//! The bytes are borrowed and never copied; [`TensorView`] hands out slices that
//! point straight into them. Shapes follow ggml's `ne` convention: `ne[0]` is the
//! fastest-varying axis, which for a weight matrix is the *input* dimension.
//! Floating-point metadata is carried as IEEE bits.

use crate::quant;
use crate::text;
use vstd::prelude::*;

verus! {

/// "GGUF", little-endian.
pub const MAGIC: u32 = 0x4655_4747;

pub const DEFAULT_ALIGNMENT: u64 = 32;

// ---------------------------------------------------------------------------
// Errors
// ---------------------------------------------------------------------------
#[derive(Debug)]
pub enum Error {
    /// Not a GGUF file.
    BadMagic(u32),
    /// Unsupported GGUF version.
    BadVersion(u32),
    /// Unexpected end of file at this offset.
    Eof(usize),
    /// Unknown metadata value type.
    BadValueType(u32),
    /// Unknown ggml tensor type.
    BadTensorType(u32),
    /// No tensor of this name.
    NoTensor(String),
    /// No metadata under this key.
    NoKey(String),
    /// The metadata under `key` is `actual`, not `wanted`.
    WrongType { key: String, wanted: &'static str, actual: &'static str },
    /// A tensor runs past the end of the file. `end` saturates.
    TensorOutOfBounds { name: String, end: u64, len: u64 },
}

#[verifier::ext_equal]
pub ghost enum ErrorView {
    BadMagic(u32),
    BadVersion(u32),
    Eof(int),
    BadValueType(u32),
    BadTensorType(u32),
    NoTensor(Seq<char>),
    NoKey(Seq<char>),
    WrongType { key: Seq<char>, wanted: Seq<char>, actual: Seq<char> },
    TensorOutOfBounds { name: Seq<char>, end: int, len: int },
}

impl View for Error {
    type V = ErrorView;

    open spec fn view(&self) -> ErrorView {
        match self {
            Error::BadMagic(m) => ErrorView::BadMagic(*m),
            Error::BadVersion(v) => ErrorView::BadVersion(*v),
            Error::Eof(p) => ErrorView::Eof(*p as int),
            Error::BadValueType(t) => ErrorView::BadValueType(*t),
            Error::BadTensorType(t) => ErrorView::BadTensorType(*t),
            Error::NoTensor(n) => ErrorView::NoTensor(n@),
            Error::NoKey(k) => ErrorView::NoKey(k@),
            Error::WrongType { key, wanted, actual } => ErrorView::WrongType {
                key: key@,
                wanted: wanted@,
                actual: actual@,
            },
            Error::TensorOutOfBounds { name, end, len } => ErrorView::TensorOutOfBounds {
                name: name@,
                end: *end as int,
                len: *len as int,
            },
        }
    }
}

/// A result agrees with what it should be: the same error, or a value with the
/// same view.
pub open spec fn agrees<T: View>(r: Result<T, Error>, want: Result<T::V, ErrorView>) -> bool {
    match (r, want) {
        (Ok(v), Ok(w)) => v@ == w,
        (Err(e), Err(f)) => e@ == f,
        _ => false,
    }
}

// ---------------------------------------------------------------------------
// ggml tensor types
// ---------------------------------------------------------------------------
/// The subset of ggml types that can be read. Anything else is rejected at load
/// time rather than producing garbage later.
#[derive(Debug, Clone, Copy, PartialEq, Eq, Structural, Hash)]
pub enum GgmlType {
    F32,
    F16,
    Q8_0,
    Q4K,
    Q6K,
    BF16,
}

/// The type that the file format numbers `v`.
pub open spec fn ggml_type_of(v: u32) -> Option<GgmlType> {
    if v == 0 {
        Some(GgmlType::F32)
    } else if v == 1 {
        Some(GgmlType::F16)
    } else if v == 8 {
        Some(GgmlType::Q8_0)
    } else if v == 12 {
        Some(GgmlType::Q4K)
    } else if v == 14 {
        Some(GgmlType::Q6K)
    } else if v == 30 {
        Some(GgmlType::BF16)
    } else {
        None
    }
}

impl GgmlType {
    pub fn from_u32(v: u32) -> (r: Result<Self, Error>)
        ensures
            match ggml_type_of(v) {
                Some(t) => r == Ok::<GgmlType, Error>(t),
                None => r == Err::<GgmlType, Error>(Error::BadTensorType(v)),
            },
    {
        if v == 0 {
            Ok(GgmlType::F32)
        } else if v == 1 {
            Ok(GgmlType::F16)
        } else if v == 8 {
            Ok(GgmlType::Q8_0)
        } else if v == 12 {
            Ok(GgmlType::Q4K)
        } else if v == 14 {
            Ok(GgmlType::Q6K)
        } else if v == 30 {
            Ok(GgmlType::BF16)
        } else {
            Err(Error::BadTensorType(v))
        }
    }

    pub open spec fn elems(self) -> nat {
        match self {
            GgmlType::F32 | GgmlType::F16 | GgmlType::BF16 => 1,
            GgmlType::Q8_0 => 32,
            GgmlType::Q4K | GgmlType::Q6K => 256,
        }
    }

    pub open spec fn block(self) -> nat {
        match self {
            GgmlType::F32 => 4,
            GgmlType::F16 | GgmlType::BF16 => 2,
            GgmlType::Q8_0 => 34,
            GgmlType::Q4K => 144,
            GgmlType::Q6K => 210,
        }
    }

    /// Storage size of `n` elements.
    pub open spec fn size_of(self, n: nat) -> nat {
        n / self.elems() * self.block()
    }

    /// Elements per quantization block (1 for dense types).
    pub fn block_elems(self) -> (r: usize)
        ensures
            r == self.elems(),
    {
        match self {
            GgmlType::F32 | GgmlType::F16 | GgmlType::BF16 => 1,
            GgmlType::Q8_0 => quant::QK8_0,
            GgmlType::Q4K | GgmlType::Q6K => quant::QK_K,
        }
    }

    /// Bytes per quantization block.
    pub fn block_bytes(self) -> (r: usize)
        ensures
            r == self.block(),
    {
        match self {
            GgmlType::F32 => 4,
            GgmlType::F16 | GgmlType::BF16 => 2,
            GgmlType::Q8_0 => quant::Q8_0_BLOCK_BYTES,
            GgmlType::Q4K => quant::Q4K_BLOCK_BYTES,
            GgmlType::Q6K => quant::Q6K_BLOCK_BYTES,
        }
    }

    pub fn is_quantized(self) -> (r: bool)
        ensures
            r == (self == GgmlType::Q8_0 || self == GgmlType::Q4K || self == GgmlType::Q6K),
    {
        match self {
            GgmlType::Q8_0 | GgmlType::Q4K | GgmlType::Q6K => true,
            _ => false,
        }
    }

    /// Storage size of `n` elements. `n` should be a multiple of
    /// [`block_elems`](Self::block_elems) for quantized types.
    pub fn bytes_for(self, n: usize) -> (r: usize)
        requires
            self.size_of(n as nat) <= usize::MAX,
        ensures
            r == self.size_of(n as nat),
    {
        n / self.block_elems() * self.block_bytes()
    }

    pub open spec fn spec_name(self) -> Seq<char> {
        match self {
            GgmlType::F32 => "F32"@,
            GgmlType::F16 => "F16"@,
            GgmlType::Q8_0 => "Q8_0"@,
            GgmlType::Q4K => "Q4_K"@,
            GgmlType::Q6K => "Q6_K"@,
            GgmlType::BF16 => "BF16"@,
        }
    }

    pub fn name(self) -> (r: &'static str)
        ensures
            r@ == self.spec_name(),
    {
        match self {
            GgmlType::F32 => "F32",
            GgmlType::F16 => "F16",
            GgmlType::Q8_0 => "Q8_0",
            GgmlType::Q4K => "Q4_K",
            GgmlType::Q6K => "Q6_K",
            GgmlType::BF16 => "BF16",
        }
    }
}

// ---------------------------------------------------------------------------
// Metadata values
// ---------------------------------------------------------------------------
/// A floating-point value as its IEEE bits.
#[derive(Debug, Clone, Copy, PartialEq, Eq, Structural)]
pub enum FloatBits {
    Single(u32),
    Double(u64),
}

/// The largest double that rounds to a single-precision zero: half of the smallest
/// single above zero, a tie that goes to the even side.
pub const VANISHING: u64 = 0x3690_0000_0000_0000;

impl FloatBits {
    /// Above zero as a single: sign clear, not a NaN, and not so small that it rounds
    /// to zero.
    pub open spec fn positive(self) -> bool {
        match self {
            FloatBits::Single(b) => 0 < b <= 0x7F80_0000,
            FloatBits::Double(b) => VANISHING < b <= 0x7FF0_0000_0000_0000,
        }
    }

    /// Whether the value is above zero as a single.
    pub fn is_positive(self) -> (r: bool)
        ensures
            r == self.positive(),
    {
        match self {
            FloatBits::Single(b) => 0 < b && b <= 0x7F80_0000,
            FloatBits::Double(b) => VANISHING < b && b <= 0x7FF0_0000_0000_0000,
        }
    }
}

#[derive(Debug)]
pub enum Value {
    U8(u8),
    I8(i8),
    U16(u16),
    I16(i16),
    U32(u32),
    I32(i32),
    U64(u64),
    I64(i64),
    /// Single-precision bits.
    F32(u32),
    /// Double-precision bits.
    F64(u64),
    Bool(bool),
    String(String),
    Array(Array),
}

/// Arrays are kept in typed form; a tokenizer vocabulary alone is 262 144
/// strings, so boxing every element as a `Value` would be gratuitous.
#[derive(Debug)]
pub enum Array {
    U8(Vec<u8>),
    I8(Vec<i8>),
    U16(Vec<u16>),
    I16(Vec<i16>),
    U32(Vec<u32>),
    I32(Vec<i32>),
    U64(Vec<u64>),
    I64(Vec<i64>),
    /// Single-precision bits.
    F32(Vec<u32>),
    /// Double-precision bits.
    F64(Vec<u64>),
    Bool(Vec<bool>),
    String(Vec<String>),
    Empty,
}

#[verifier::ext_equal]
pub ghost enum ArrayView {
    U8(Seq<u8>),
    I8(Seq<i8>),
    U16(Seq<u16>),
    I16(Seq<i16>),
    U32(Seq<u32>),
    I32(Seq<i32>),
    U64(Seq<u64>),
    I64(Seq<i64>),
    F32(Seq<u32>),
    F64(Seq<u64>),
    Bool(Seq<bool>),
    String(Seq<Seq<char>>),
    Empty,
}

#[verifier::ext_equal]
pub ghost enum ValueView {
    U8(u8),
    I8(i8),
    U16(u16),
    I16(i16),
    U32(u32),
    I32(i32),
    U64(u64),
    I64(i64),
    F32(u32),
    F64(u64),
    Bool(bool),
    String(Seq<char>),
    Array(ArrayView),
}

impl View for Array {
    type V = ArrayView;

    open spec fn view(&self) -> ArrayView {
        match self {
            Array::U8(v) => ArrayView::U8(v@),
            Array::I8(v) => ArrayView::I8(v@),
            Array::U16(v) => ArrayView::U16(v@),
            Array::I16(v) => ArrayView::I16(v@),
            Array::U32(v) => ArrayView::U32(v@),
            Array::I32(v) => ArrayView::I32(v@),
            Array::U64(v) => ArrayView::U64(v@),
            Array::I64(v) => ArrayView::I64(v@),
            Array::F32(v) => ArrayView::F32(v@),
            Array::F64(v) => ArrayView::F64(v@),
            Array::Bool(v) => ArrayView::Bool(v@),
            Array::String(v) => ArrayView::String(text::views(v@)),
            Array::Empty => ArrayView::Empty,
        }
    }
}

impl View for Value {
    type V = ValueView;

    open spec fn view(&self) -> ValueView {
        match self {
            Value::U8(v) => ValueView::U8(*v),
            Value::I8(v) => ValueView::I8(*v),
            Value::U16(v) => ValueView::U16(*v),
            Value::I16(v) => ValueView::I16(*v),
            Value::U32(v) => ValueView::U32(*v),
            Value::I32(v) => ValueView::I32(*v),
            Value::U64(v) => ValueView::U64(*v),
            Value::I64(v) => ValueView::I64(*v),
            Value::F32(v) => ValueView::F32(*v),
            Value::F64(v) => ValueView::F64(*v),
            Value::Bool(v) => ValueView::Bool(*v),
            Value::String(v) => ValueView::String(v@),
            Value::Array(a) => ValueView::Array(a@),
        }
    }
}

/// How many elements an array holds.
pub open spec fn array_len(a: ArrayView) -> nat {
    match a {
        ArrayView::U8(v) => v.len(),
        ArrayView::I8(v) => v.len(),
        ArrayView::U16(v) => v.len(),
        ArrayView::I16(v) => v.len(),
        ArrayView::U32(v) => v.len(),
        ArrayView::I32(v) => v.len(),
        ArrayView::U64(v) => v.len(),
        ArrayView::I64(v) => v.len(),
        ArrayView::F32(v) => v.len(),
        ArrayView::F64(v) => v.len(),
        ArrayView::Bool(v) => v.len(),
        ArrayView::String(v) => v.len(),
        ArrayView::Empty => 0,
    }
}

/// What an array type is called in messages.
pub open spec fn array_kind_name(a: ArrayView) -> Seq<char> {
    match a {
        ArrayView::U8(_) => "[u8]"@,
        ArrayView::I8(_) => "[i8]"@,
        ArrayView::U16(_) => "[u16]"@,
        ArrayView::I16(_) => "[i16]"@,
        ArrayView::U32(_) => "[u32]"@,
        ArrayView::I32(_) => "[i32]"@,
        ArrayView::U64(_) => "[u64]"@,
        ArrayView::I64(_) => "[i64]"@,
        ArrayView::F32(_) => "[f32]"@,
        ArrayView::F64(_) => "[f64]"@,
        ArrayView::Bool(_) => "[bool]"@,
        ArrayView::String(_) => "[string]"@,
        ArrayView::Empty => "[]"@,
    }
}

/// What a value type is called in messages.
pub open spec fn value_kind_name(v: ValueView) -> Seq<char> {
    match v {
        ValueView::U8(_) => "u8"@,
        ValueView::I8(_) => "i8"@,
        ValueView::U16(_) => "u16"@,
        ValueView::I16(_) => "i16"@,
        ValueView::U32(_) => "u32"@,
        ValueView::I32(_) => "i32"@,
        ValueView::U64(_) => "u64"@,
        ValueView::I64(_) => "i64"@,
        ValueView::F32(_) => "f32"@,
        ValueView::F64(_) => "f64"@,
        ValueView::Bool(_) => "bool"@,
        ValueView::String(_) => "string"@,
        ValueView::Array(a) => array_kind_name(a),
    }
}

/// An integer array widened to `u32`, wrapping where an element does not fit.
pub open spec fn array_u32s(a: ArrayView) -> Option<Seq<u32>> {
    match a {
        ArrayView::U8(v) => Some(v.map_values(|x: u8| x as u32)),
        ArrayView::I8(v) => Some(v.map_values(|x: i8| x as u32)),
        ArrayView::U16(v) => Some(v.map_values(|x: u16| x as u32)),
        ArrayView::I16(v) => Some(v.map_values(|x: i16| x as u32)),
        ArrayView::U32(v) => Some(v),
        ArrayView::I32(v) => Some(v.map_values(|x: i32| x as u32)),
        ArrayView::U64(v) => Some(v.map_values(|x: u64| x as u32)),
        ArrayView::I64(v) => Some(v.map_values(|x: i64| x as u32)),
        ArrayView::Empty => Some(Seq::empty()),
        _ => None,
    }
}

impl Array {
    pub fn len(&self) -> (r: usize)
        ensures
            r == array_len(self@),
    {
        match self {
            Array::U8(v) => v.len(),
            Array::I8(v) => v.len(),
            Array::U16(v) => v.len(),
            Array::I16(v) => v.len(),
            Array::U32(v) => v.len(),
            Array::I32(v) => v.len(),
            Array::U64(v) => v.len(),
            Array::I64(v) => v.len(),
            Array::F32(v) => v.len(),
            Array::F64(v) => v.len(),
            Array::Bool(v) => v.len(),
            Array::String(v) => v.len(),
            Array::Empty => 0,
        }
    }

    pub fn is_empty(&self) -> (r: bool)
        ensures
            r == (array_len(self@) == 0),
    {
        self.len() == 0
    }

    pub fn kind_name(&self) -> (r: &'static str)
        ensures
            r@ == array_kind_name(self@),
    {
        match self {
            Array::U8(_) => "[u8]",
            Array::I8(_) => "[i8]",
            Array::U16(_) => "[u16]",
            Array::I16(_) => "[i16]",
            Array::U32(_) => "[u32]",
            Array::I32(_) => "[i32]",
            Array::U64(_) => "[u64]",
            Array::I64(_) => "[i64]",
            Array::F32(_) => "[f32]",
            Array::F64(_) => "[f64]",
            Array::Bool(_) => "[bool]",
            Array::String(_) => "[string]",
            Array::Empty => "[]",
        }
    }

    /// Widen any integer array to `u32`. GGUF writers are inconsistent about
    /// integer widths, so callers that want counts should go through this.
    pub fn as_u32_vec(&self) -> (r: Option<Vec<u32>>)
        ensures
            match r {
                Some(v) => array_u32s(self@) == Some(v@),
                None => array_u32s(self@) is None,
            },
    {
        match self {
            Array::U8(v) => Some(widen_u8(v)),
            Array::I8(v) => Some(widen_i8(v)),
            Array::U16(v) => Some(widen_u16(v)),
            Array::I16(v) => Some(widen_i16(v)),
            Array::U32(v) => Some(widen_u32(v)),
            Array::I32(v) => Some(widen_i32(v)),
            Array::U64(v) => Some(widen_u64(v)),
            Array::I64(v) => Some(widen_i64(v)),
            Array::Empty => Some(Vec::new()),
            _ => None,
        }
    }
}

fn widen_u8(v: &Vec<u8>) -> (r: Vec<u32>)
    ensures
        r@ == v@.map_values(|x: u8| x as u32),
{
    let mut r: Vec<u32> = Vec::new();
    let mut i: usize = 0;
    while i < v.len()
        invariant
            i <= v@.len(),
            r@ == v@.map_values(|x: u8| x as u32).subrange(0, i as int),
        decreases v@.len() - i,
    {
        r.push(v[i] as u32);
        i = i + 1;
        assert(r@ =~= v@.map_values(|x: u8| x as u32).subrange(0, i as int));
    }
    assert(r@ =~= v@.map_values(|x: u8| x as u32));
    r
}

fn widen_i8(v: &Vec<i8>) -> (r: Vec<u32>)
    ensures
        r@ == v@.map_values(|x: i8| x as u32),
{
    let mut r: Vec<u32> = Vec::new();
    let mut i: usize = 0;
    while i < v.len()
        invariant
            i <= v@.len(),
            r@ == v@.map_values(|x: i8| x as u32).subrange(0, i as int),
        decreases v@.len() - i,
    {
        r.push(v[i] as u32);
        i = i + 1;
        assert(r@ =~= v@.map_values(|x: i8| x as u32).subrange(0, i as int));
    }
    assert(r@ =~= v@.map_values(|x: i8| x as u32));
    r
}

fn widen_u16(v: &Vec<u16>) -> (r: Vec<u32>)
    ensures
        r@ == v@.map_values(|x: u16| x as u32),
{
    let mut r: Vec<u32> = Vec::new();
    let mut i: usize = 0;
    while i < v.len()
        invariant
            i <= v@.len(),
            r@ == v@.map_values(|x: u16| x as u32).subrange(0, i as int),
        decreases v@.len() - i,
    {
        r.push(v[i] as u32);
        i = i + 1;
        assert(r@ =~= v@.map_values(|x: u16| x as u32).subrange(0, i as int));
    }
    assert(r@ =~= v@.map_values(|x: u16| x as u32));
    r
}

fn widen_i16(v: &Vec<i16>) -> (r: Vec<u32>)
    ensures
        r@ == v@.map_values(|x: i16| x as u32),
{
    let mut r: Vec<u32> = Vec::new();
    let mut i: usize = 0;
    while i < v.len()
        invariant
            i <= v@.len(),
            r@ == v@.map_values(|x: i16| x as u32).subrange(0, i as int),
        decreases v@.len() - i,
    {
        r.push(v[i] as u32);
        i = i + 1;
        assert(r@ =~= v@.map_values(|x: i16| x as u32).subrange(0, i as int));
    }
    assert(r@ =~= v@.map_values(|x: i16| x as u32));
    r
}

fn widen_u32(v: &Vec<u32>) -> (r: Vec<u32>)
    ensures
        r@ == v@,
{
    let mut r: Vec<u32> = Vec::new();
    let mut i: usize = 0;
    while i < v.len()
        invariant
            i <= v@.len(),
            r@ == v@.subrange(0, i as int),
        decreases v@.len() - i,
    {
        r.push(v[i] as u32);
        i = i + 1;
        assert(r@ =~= v@.subrange(0, i as int));
    }
    assert(r@ =~= v@);
    r
}

fn widen_i32(v: &Vec<i32>) -> (r: Vec<u32>)
    ensures
        r@ == v@.map_values(|x: i32| x as u32),
{
    let mut r: Vec<u32> = Vec::new();
    let mut i: usize = 0;
    while i < v.len()
        invariant
            i <= v@.len(),
            r@ == v@.map_values(|x: i32| x as u32).subrange(0, i as int),
        decreases v@.len() - i,
    {
        r.push(v[i] as u32);
        i = i + 1;
        assert(r@ =~= v@.map_values(|x: i32| x as u32).subrange(0, i as int));
    }
    assert(r@ =~= v@.map_values(|x: i32| x as u32));
    r
}

fn widen_u64(v: &Vec<u64>) -> (r: Vec<u32>)
    ensures
        r@ == v@.map_values(|x: u64| x as u32),
{
    let mut r: Vec<u32> = Vec::new();
    let mut i: usize = 0;
    while i < v.len()
        invariant
            i <= v@.len(),
            r@ == v@.map_values(|x: u64| x as u32).subrange(0, i as int),
        decreases v@.len() - i,
    {
        r.push(v[i] as u32);
        i = i + 1;
        assert(r@ =~= v@.map_values(|x: u64| x as u32).subrange(0, i as int));
    }
    assert(r@ =~= v@.map_values(|x: u64| x as u32));
    r
}

fn widen_i64(v: &Vec<i64>) -> (r: Vec<u32>)
    ensures
        r@ == v@.map_values(|x: i64| x as u32),
{
    let mut r: Vec<u32> = Vec::new();
    let mut i: usize = 0;
    while i < v.len()
        invariant
            i <= v@.len(),
            r@ == v@.map_values(|x: i64| x as u32).subrange(0, i as int),
        decreases v@.len() - i,
    {
        r.push(v[i] as u32);
        i = i + 1;
        assert(r@ =~= v@.map_values(|x: i64| x as u32).subrange(0, i as int));
    }
    assert(r@ =~= v@.map_values(|x: i64| x as u32));
    r
}

/// Any integer value widened to `u64`, wrapping where it is negative.
pub open spec fn value_u64(v: ValueView) -> Option<u64> {
    match v {
        ValueView::U8(v) => Some(v as u64),
        ValueView::I8(v) => Some(v as u64),
        ValueView::U16(v) => Some(v as u64),
        ValueView::I16(v) => Some(v as u64),
        ValueView::U32(v) => Some(v as u64),
        ValueView::I32(v) => Some(v as u64),
        ValueView::U64(v) => Some(v),
        ValueView::I64(v) => Some(v as u64),
        ValueView::Bool(v) => Some(if v {
            1u64
        } else {
            0u64
        }),
        _ => None,
    }
}

pub open spec fn value_float(v: ValueView) -> Option<FloatBits> {
    match v {
        ValueView::F32(b) => Some(FloatBits::Single(b)),
        ValueView::F64(b) => Some(FloatBits::Double(b)),
        _ => None,
    }
}

pub open spec fn value_bool(v: ValueView) -> Option<bool> {
    match v {
        ValueView::Bool(b) => Some(b),
        ValueView::U8(b) => Some(b != 0),
        ValueView::U32(b) => Some(b != 0),
        _ => None,
    }
}

impl Value {
    pub fn kind_name(&self) -> (r: &'static str)
        ensures
            r@ == value_kind_name(self@),
    {
        match self {
            Value::U8(_) => "u8",
            Value::I8(_) => "i8",
            Value::U16(_) => "u16",
            Value::I16(_) => "i16",
            Value::U32(_) => "u32",
            Value::I32(_) => "i32",
            Value::U64(_) => "u64",
            Value::I64(_) => "i64",
            Value::F32(_) => "f32",
            Value::F64(_) => "f64",
            Value::Bool(_) => "bool",
            Value::String(_) => "string",
            Value::Array(a) => a.kind_name(),
        }
    }

    /// Any integer type widened to `u64`.
    pub fn as_u64(&self) -> (r: Option<u64>)
        ensures
            r == value_u64(self@),
    {
        match self {
            Value::U8(v) => Some(*v as u64),
            Value::I8(v) => Some(*v as u64),
            Value::U16(v) => Some(*v as u64),
            Value::I16(v) => Some(*v as u64),
            Value::U32(v) => Some(*v as u64),
            Value::I32(v) => Some(*v as u64),
            Value::U64(v) => Some(*v),
            Value::I64(v) => Some(*v as u64),
            Value::Bool(v) => Some(if *v { 1 } else { 0 }),
            _ => None,
        }
    }

    /// A floating-point value, as bits.
    pub fn as_f32(&self) -> (r: Option<FloatBits>)
        ensures
            r == value_float(self@),
    {
        match self {
            Value::F32(b) => Some(FloatBits::Single(*b)),
            Value::F64(b) => Some(FloatBits::Double(*b)),
            _ => None,
        }
    }

    pub fn as_bool(&self) -> (r: Option<bool>)
        ensures
            r == value_bool(self@),
    {
        match self {
            Value::Bool(b) => Some(*b),
            Value::U8(b) => Some(*b != 0),
            Value::U32(b) => Some(*b != 0),
            _ => None,
        }
    }

    pub fn as_str(&self) -> (r: Option<&str>)
        ensures
            match r {
                Some(s) => self@ == ValueView::String(s@),
                None => !(self@ is String),
            },
    {
        match self {
            Value::String(s) => Some(s.as_str()),
            _ => None,
        }
    }

    pub fn as_array(&self) -> (r: Option<&Array>)
        ensures
            match r {
                Some(a) => self@ == ValueView::Array(a@),
                None => !(self@ is Array),
            },
    {
        match self {
            Value::Array(a) => Some(a),
            _ => None,
        }
    }
}

} // verus!
