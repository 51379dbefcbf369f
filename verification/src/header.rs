//! The GGUF header: metadata, the tensor table, and where the data starts.

pub mod written;

use crate::cursor::{self, Cursor, Read};
use crate::gguf::{self, Array, ArrayView, Error, ErrorView, FloatBits, GgmlType, Value, ValueView};
use crate::text;
use vstd::hash_map::StringHashMap;
use vstd::prelude::*;

verus! {

// ---------------------------------------------------------------------------
// Tensor descriptor
// ---------------------------------------------------------------------------
#[derive(Debug)]
pub struct TensorInfo {
    pub name: String,
    /// ggml `ne` order: `dims[0]` varies fastest.
    pub dims: Vec<u64>,
    pub ty: GgmlType,
    /// Offset relative to the start of the tensor data section.
    pub offset: u64,
}

#[verifier::ext_equal]
pub ghost struct TensorInfoView {
    pub name: Seq<char>,
    pub dims: Seq<u64>,
    pub ty: GgmlType,
    pub offset: u64,
}

impl View for TensorInfo {
    type V = TensorInfoView;

    open spec fn view(&self) -> TensorInfoView {
        TensorInfoView { name: self.name@, dims: self.dims@, ty: self.ty, offset: self.offset }
    }
}

/// The product of the dimensions; 1 for none.
pub open spec fn product(dims: Seq<u64>) -> nat
    decreases dims.len(),
{
    if dims.len() == 0 {
        1
    } else {
        product(dims.drop_last()) * dims.last() as nat
    }
}

/// Every partial product fits 64 bits.
pub open spec fn multipliable(dims: Seq<u64>) -> bool {
    forall|k: int| 0 <= k <= dims.len() ==> #[trigger] product(dims.take(k)) <= u64::MAX
}

impl TensorInfoView {
    pub open spec fn elems(self) -> nat {
        product(self.dims)
    }

    pub open spec fn bytes(self) -> nat {
        self.ty.size_of(self.elems())
    }

    /// `ne[0]`, or 1 without dimensions.
    pub open spec fn inner(self) -> usize {
        if self.dims.len() > 0 {
            self.dims[0] as usize
        } else {
            1
        }
    }

    /// `ne[1]`, or 1 for a vector.
    pub open spec fn outer(self) -> usize {
        if self.dims.len() > 1 {
            self.dims[1] as usize
        } else {
            1
        }
    }

    /// The element and byte counts can be computed.
    pub open spec fn countable(self) -> bool {
        &&& multipliable(self.dims)
        &&& self.elems() <= usize::MAX
        &&& self.bytes() <= usize::MAX
    }
}

/// The product of the dimensions, if every partial product fits.
pub(crate) fn checked_product(dims: &Vec<u64>) -> (r: Option<u64>)
    ensures
        match r {
            Some(p) => p == product(dims@) && multipliable(dims@),
            None => !multipliable(dims@),
        },
{
    let mut p: u64 = 1;
    let mut i: usize = 0;
    assert(dims@.take(0).len() == 0);
    while i < dims.len()
        invariant
            i <= dims@.len(),
            p == product(dims@.take(i as int)),
            forall|k: int| 0 <= k <= i ==> #[trigger] product(dims@.take(k)) <= u64::MAX,
        decreases dims@.len() - i,
    {
        assert(dims@.take(i + 1).drop_last() =~= dims@.take(i as int));
        assert(dims@.take(i + 1).last() == dims@[i as int]);
        match p.checked_mul(dims[i]) {
            Some(q) => {
                p = q;
            },
            None => {
                assert(product(dims@.take(i + 1)) > u64::MAX);
                return None;
            },
        }
        i = i + 1;
    }
    assert(dims@.take(i as int) =~= dims@);
    Some(p)
}

impl TensorInfo {
    pub fn elem_count(&self) -> (r: usize)
        requires
            self@.countable(),
        ensures
            r == self@.elems(),
    {
        match checked_product(&self.dims) {
            Some(p) => p as usize,
            None => 0,
        }
    }

    pub fn byte_len(&self) -> (r: usize)
        requires
            self@.countable(),
        ensures
            r == self@.bytes(),
    {
        self.ty.bytes_for(self.elem_count())
    }

    /// Input dimension for a weight matrix (`ne[0]`).
    pub fn in_dim(&self) -> (r: usize)
        ensures
            r == self@.inner(),
    {
        if self.dims.len() > 0 {
            self.dims[0] as usize
        } else {
            1
        }
    }

    /// Output dimension for a weight matrix (`ne[1]`, or 1 for a vector).
    pub fn out_dim(&self) -> (r: usize)
        ensures
            r == self@.outer(),
    {
        if self.dims.len() > 1 {
            self.dims[1] as usize
        } else {
            1
        }
    }
}

/// A tensor's raw bytes plus enough metadata to interpret them.
#[derive(Clone, Copy)]
pub struct TensorView<'a> {
    pub info: &'a TensorInfo,
    pub data: &'a [u8],
}

impl<'a> TensorView<'a> {
    pub fn ty(&self) -> (r: GgmlType)
        ensures
            r == self.info.ty,
    {
        self.info.ty
    }

    pub fn dims(&self) -> (r: &[u64])
        ensures
            r@ == self.info.dims@,
    {
        self.info.dims.as_slice()
    }

    pub fn elem_count(&self) -> (r: usize)
        requires
            self.info@.countable(),
        ensures
            r == self.info@.elems(),
    {
        self.info.elem_count()
    }

    pub fn in_dim(&self) -> (r: usize)
        ensures
            r == self.info@.inner(),
    {
        self.info.in_dim()
    }

    pub fn out_dim(&self) -> (r: usize)
        ensures
            r == self.info@.outer(),
    {
        self.info.out_dim()
    }

    /// The elements as bits, only of dense single-precision tensors.
    pub fn as_f32(&self) -> (r: Option<Vec<u32>>)
        ensures
            match r {
                Some(v) => {
                    &&& self.info.ty == GgmlType::F32
                    &&& v@ == Seq::new(
                        (self.data@.len() / 4) as nat,
                        |i: int| crate::quant::dense_bits(false, self.data@, i),
                    )
                },
                None => self.info.ty != GgmlType::F32,
            },
    {
        if self.info.ty != GgmlType::F32 {
            return None;
        }
        Some(crate::quant::dequant_dense(false, self.data, self.data.len() / 4))
    }

    /// The bytes of row `row` (`ne[0]` elements).
    pub fn row_bytes(&self, row: usize) -> (r: &'a [u8])
        requires
            (row + 1) * self.info.ty.size_of(self.info@.inner() as nat) <= self.data@.len(),
        ensures
            r@ == self.data@.subrange(
                row * self.info.ty.size_of(self.info@.inner() as nat),
                (row + 1) * self.info.ty.size_of(self.info@.inner() as nat),
            ),
    {
        let len: usize = self.data.len();
        let n: usize = self.in_dim();
        let ghost w = self.info.ty.size_of(n as nat);
        assert((row + 1) * w == row * w + w && w <= (row + 1) * w && 0 <= row * w) by (nonlinear_arith)
            requires
                w >= 0,
        ;
        let bytes: usize = self.info.ty.bytes_for(n);
        let start: usize = row * bytes;
        vstd::slice::slice_subrange(self.data, start, start + bytes)
    }
}

// ---------------------------------------------------------------------------
// Grammar
// ---------------------------------------------------------------------------
/// `n` metadata entries on top of `acc`; a later entry replaces an earlier one
/// of the same key.
pub open spec fn read_metadata(
    b: Seq<u8>,
    pos: int,
    n: nat,
    acc: Map<Seq<char>, ValueView>,
) -> Read<Map<Seq<char>, ValueView>>
    decreases n,
{
    if n == 0 {
        Ok((acc, pos))
    } else {
        match cursor::read_string(b, pos) {
            Err(e) => Err(e),
            Ok((key, p)) => match cursor::read_u32(b, p) {
                Err(e) => Err(e),
                Ok((ty, q)) => match cursor::read_value(b, q, ty) {
                    Err(e) => Err(e),
                    Ok((v, r)) => read_metadata(b, r, (n - 1) as nat, acc.insert(key, v)),
                },
            },
        }
    }
}

/// `n` dimensions behind those in `acc`.
pub open spec fn read_dims(b: Seq<u8>, pos: int, n: nat, acc: Seq<u64>) -> Read<Seq<u64>>
    decreases n,
{
    if n == 0 {
        Ok((acc, pos))
    } else {
        match cursor::read_u64(b, pos) {
            Err(e) => Err(e),
            Ok((d, p)) => read_dims(b, p, (n - 1) as nat, acc.push(d)),
        }
    }
}

/// One entry of the tensor table: name, rank, dimensions, type, offset.
pub open spec fn read_tensor(b: Seq<u8>, pos: int) -> Read<TensorInfoView> {
    match cursor::read_string(b, pos) {
        Err(e) => Err(e),
        Ok((name, p)) => match cursor::read_u32(b, p) {
            Err(e) => Err(e),
            Ok((rank, q)) => match read_dims(b, q, (rank as usize) as nat, Seq::empty()) {
                Err(e) => Err(e),
                Ok((dims, r)) => match cursor::read_u32(b, r) {
                    Err(e) => Err(e),
                    Ok((t, s)) => match gguf::ggml_type_of(t) {
                        None => Err(ErrorView::BadTensorType(t)),
                        Some(ty) => match cursor::read_u64(b, s) {
                            Err(e) => Err(e),
                            Ok((offset, u)) => Ok((TensorInfoView { name, dims, ty, offset }, u)),
                        },
                    },
                },
            },
        },
    }
}

/// `n` tensors behind those in `acc`.
pub open spec fn read_tensors(b: Seq<u8>, pos: int, n: nat, acc: Seq<TensorInfoView>) -> Read<
    Seq<TensorInfoView>,
>
    decreases n,
{
    if n == 0 {
        Ok((acc, pos))
    } else {
        match read_tensor(b, pos) {
            Err(e) => Err(e),
            Ok((t, p)) => read_tensors(b, p, (n - 1) as nat, acc.push(t)),
        }
    }
}

#[verifier::ext_equal]
pub ghost struct HeaderView {
    pub version: u32,
    pub metadata: Map<Seq<char>, ValueView>,
    pub tensors: Seq<TensorInfoView>,
    /// Where the tensor data starts.
    pub data_offset: int,
}

/// The least multiple of `a` that is at least `x`.
pub open spec fn aligned(x: int, a: int) -> int {
    (x + a - 1) / a * a
}

/// The alignment that the metadata asks for.
pub open spec fn alignment(metadata: Map<Seq<char>, ValueView>) -> u64 {
    let key = "general.alignment"@;
    let a = if metadata.contains_key(key) && gguf::value_u64(metadata[key]) is Some {
        gguf::value_u64(metadata[key])->0
    } else {
        gguf::DEFAULT_ALIGNMENT
    };
    if a < 1 {
        1
    } else {
        a
    }
}

pub open spec fn saturate(x: int) -> int {
    if x > u64::MAX {
        u64::MAX as int
    } else {
        x
    }
}

/// What the bytes of a file's header describe.
pub open spec fn read_header(b: Seq<u8>) -> Result<HeaderView, ErrorView> {
    match cursor::read_u32(b, 0) {
        Err(e) => Err(e),
        Ok((magic, p)) => if magic != gguf::MAGIC {
            Err(ErrorView::BadMagic(magic))
        } else {
            match cursor::read_u32(b, p) {
                Err(e) => Err(e),
                Ok((version, q)) => if version != 2 && version != 3 {
                    Err(ErrorView::BadVersion(version))
                } else {
                    read_tables(b, q, version)
                },
            }
        },
    }
}

/// The counts, the metadata and the tensor table behind the version.
pub open spec fn read_tables(b: Seq<u8>, pos: int, version: u32) -> Result<HeaderView, ErrorView> {
    match cursor::read_u64(b, pos) {
        Err(e) => Err(e),
        Ok((n_tensors, p)) => match cursor::read_u64(b, p) {
            Err(e) => Err(e),
            Ok((n_kv, q)) => match read_metadata(b, q, (n_kv as usize) as nat, Map::empty()) {
                Err(e) => Err(e),
                Ok((metadata, r)) => match read_tensors(
                    b,
                    r,
                    (n_tensors as usize) as nat,
                    Seq::empty(),
                ) {
                    Err(e) => Err(e),
                    Ok((tensors, end)) => Ok(
                        HeaderView {
                            version,
                            metadata,
                            tensors,
                            data_offset: saturate(aligned(end, alignment(metadata) as int)),
                        },
                    ),
                },
            },
        },
    }
}

/// The views of the tensors, in order.
pub open spec fn tensor_views(v: Seq<TensorInfo>) -> Seq<TensorInfoView> {
    v.map_values(|t: TensorInfo| t@)
}

/// The last tensor called `name`, if there is one.
pub open spec fn is_index_of(tensors: Seq<TensorInfoView>, name: Seq<char>, i: int) -> bool {
    &&& 0 <= i < tensors.len()
    &&& tensors[i].name == name
    &&& forall|j: int| i < j < tensors.len() ==> (#[trigger] tensors[j]).name != name
}

/// The parsed header.
pub struct Header {
    pub version: u32,
    pub metadata: StringHashMap<Value>,
    pub tensors: Vec<TensorInfo>,
    pub index: StringHashMap<usize>,
    /// Absolute file offset of the tensor data section.
    pub data_offset: u64,
}

impl View for Header {
    type V = HeaderView;

    open spec fn view(&self) -> HeaderView {
        HeaderView {
            version: self.version,
            metadata: self.metadata@.map_values(|v: Value| v@),
            tensors: tensor_views(self.tensors@),
            data_offset: self.data_offset as int,
        }
    }
}

/// The index maps each name to the last tensor that has it.
pub open spec fn indexes(index: Map<Seq<char>, usize>, tensors: Seq<TensorInfoView>) -> bool {
    &&& forall|name: Seq<char>| #[trigger]
        index.contains_key(name) ==> is_index_of(tensors, name, index[name] as int)
    &&& forall|i: int| 0 <= i < tensors.len() ==> index.contains_key((#[trigger] tensors[i]).name)
}

/// The least multiple of `a` that is at least `x`.
pub fn align_up(x: u64, a: u64) -> (r: u64)
    requires
        a > 0,
        aligned(x as int, a as int) <= u64::MAX,
    ensures
        r == aligned(x as int, a as int),
        r % a == 0,
        x <= r < x + a,
{
    proof {
        lemma_aligned(x as int, a as int);
    }
    let q: u64 = x / a;
    if x % a == 0 {
        assert(q * a == x) by (nonlinear_arith)
            requires
                q == x / a,
                x % a == 0,
                a > 0,
        ;
        proof {
            lemma_aligned_unique(x as int, a as int, x as int);
        }
        x
    } else {
        assert((q + 1) * a == aligned(x as int, a as int)) by {
            assert((q + 1) * a == q * a + a && x == q * a + x % a) by (nonlinear_arith)
                requires
                    q == x / a,
                    a > 0,
            ;
            assert(((q + 1) * a) % (a as int) == 0) by {
                vstd::arithmetic::div_mod::lemma_mod_multiples_basic(q as int + 1, a as int);
            }
            lemma_aligned_unique(x as int, a as int, (q + 1) * a);
        }
        assert(q + 1 <= u64::MAX) by (nonlinear_arith)
            requires
                (q + 1) * a <= u64::MAX,
                a >= 1,
        ;
        (q + 1) * a
    }
}

/// Rounding up gives a multiple within one step.
pub(crate) proof fn lemma_aligned(x: int, a: int)
    requires
        a > 0,
        x >= 0,
    ensures
        aligned(x, a) % a == 0,
        x <= aligned(x, a) < x + a,
{
    let y = x + a - 1;
    vstd::arithmetic::div_mod::lemma_fundamental_div_mod(y, a);
    vstd::arithmetic::div_mod::lemma_mod_multiples_basic(y / a, a);
    assert(y / a * a == a * (y / a)) by (nonlinear_arith);
    assert(0 <= y % a < a);
}

/// There is one multiple of `a` in `x .. x + a`.
proof fn lemma_aligned_unique(x: int, a: int, r: int)
    requires
        a > 0,
        x >= 0,
        r % a == 0,
        x <= r < x + a,
    ensures
        r == aligned(x, a),
{
    lemma_aligned(x, a);
    let s = aligned(x, a);
    vstd::arithmetic::div_mod::lemma_fundamental_div_mod(r, a);
    vstd::arithmetic::div_mod::lemma_fundamental_div_mod(s, a);
    let i = r / a;
    let j = s / a;
    assert(i == j) by (nonlinear_arith)
        requires
            a > 0,
            -a < a * i - a * j < a,
    ;
}

/// `align_up`, or the largest offset where that is not representable.
fn align_up_saturating(x: u64, a: u64) -> (r: u64)
    requires
        a > 0,
    ensures
        r == saturate(aligned(x as int, a as int)),
{
    proof {
        lemma_aligned(x as int, a as int);
    }
    let rem: u64 = x % a;
    if rem == 0 {
        proof {
            lemma_aligned_unique(x as int, a as int, x as int);
        }
        x
    } else {
        proof {
            let up = x - rem + a;
            vstd::arithmetic::div_mod::lemma_fundamental_div_mod(x as int, a as int);
            assert(up == (x as int / a as int + 1) * a) by (nonlinear_arith)
                requires
                    up == x - rem + a,
                    x as int == a * (x as int / a as int) + rem,
            ;
            vstd::arithmetic::div_mod::lemma_mod_multiples_basic(x as int / a as int + 1, a as int);
            lemma_aligned_unique(x as int, a as int, up);
        }
        let pad: u64 = a - rem;
        if x > u64::MAX - pad {
            u64::MAX
        } else {
            x + pad
        }
    }
}

/// Where a tensor's data ends in the file.
pub open spec fn tensor_end(data_offset: int, t: TensorInfoView) -> int {
    data_offset + t.offset + t.bytes()
}

/// A tensor whose data does not lie within the first `len` bytes of the file.
pub open spec fn out_of_bounds(data_offset: int, t: TensorInfoView, len: int) -> bool {
    !t.countable() || tensor_end(data_offset, t) > len
}

/// The error for such a tensor.
pub open spec fn bounds_error(data_offset: int, t: TensorInfoView, len: int) -> ErrorView {
    ErrorView::TensorOutOfBounds {
        name: t.name,
        end: if t.countable() {
            saturate(tensor_end(data_offset, t))
        } else {
            u64::MAX as int
        },
        len,
    }
}

/// Every tensor lies within the first `len` bytes.
pub open spec fn all_in_bounds(h: HeaderView, len: int) -> bool {
    forall|i: int| 0 <= i < h.tensors.len() ==> !out_of_bounds(h.data_offset, #[trigger] h.tensors[i], len)
}

/// Tensor `i` is the first that does not.
pub open spec fn first_out(h: HeaderView, len: int, i: int) -> bool {
    &&& 0 <= i < h.tensors.len()
    &&& out_of_bounds(h.data_offset, h.tensors[i], len)
    &&& forall|j: int| 0 <= j < i ==> !out_of_bounds(h.data_offset, #[trigger] h.tensors[j], len)
}

impl Header {
    /// The index agrees with the tensor table.
    pub open spec fn wf(&self) -> bool {
        indexes(self.index@, self@.tensors)
    }

    /// Parse the header at the start of `prefix`, which may be a prefix of the
    /// file. A prefix that ends inside the header is `Eof`.
    pub fn parse(prefix: &[u8]) -> (r: Result<Header, Error>)
        ensures
            gguf::agrees(r, read_header(prefix@)),
            r is Ok ==> r->Ok_0.wf(),
    {
        let mut c = Cursor::new(prefix);
        let magic: u32 = c.u32()?;
        if magic != gguf::MAGIC {
            return Err(Error::BadMagic(magic));
        }
        let version: u32 = c.u32()?;
        if version != 2 && version != 3 {
            return Err(Error::BadVersion(version));
        }
        let n_tensors: usize = c.u64()? as usize;
        let n_kv: usize = c.u64()? as usize;
        let metadata = parse_metadata(&mut c, n_kv)?;
        let (tensors, index) = parse_tensors(&mut c, n_tensors)?;
        let key = "general.alignment";
        let a: u64 = match metadata.get(key) {
            Some(v) => match v.as_u64() {
                Some(a) => a,
                None => gguf::DEFAULT_ALIGNMENT,
            },
            None => gguf::DEFAULT_ALIGNMENT,
        };
        let a: u64 = if a < 1 { 1 } else { a };
        let ghost view = metadata@.map_values(|v: Value| v@);
        assert(a == alignment(view));
        let data_offset: u64 = align_up_saturating(c.pos as u64, a);
        Ok(Header { version, metadata, tensors, index, data_offset })
    }

    /// Whether every tensor lies within a file of `file_len` bytes. Catches a
    /// truncated file before any of it is used.
    pub fn check_bounds(&self, file_len: u64) -> (r: Result<(), Error>)
        ensures
            match r {
                Ok(_) => all_in_bounds(self@, file_len as int),
                Err(e) => exists|i: int| #[trigger]
                    first_out(self@, file_len as int, i) && e@ == bounds_error(
                        self@.data_offset,
                        self@.tensors[i],
                        file_len as int,
                    ),
            },
    {
        let mut i: usize = 0;
        while i < self.tensors.len()
            invariant
                i <= self.tensors@.len(),
                forall|j: int|
                    0 <= j < i ==> !out_of_bounds(
                        self@.data_offset,
                        #[trigger] self@.tensors[j],
                        file_len as int,
                    ),
            decreases self.tensors@.len() - i,
        {
            let t = &self.tensors[i];
            assert(self@.tensors[i as int] == t@);
            match self.extent(t) {
                Some((_, end)) => {
                    if end > file_len {
                        assert(first_out(self@, file_len as int, i as int));
                        return Err(
                            Error::TensorOutOfBounds { name: t.name.clone(), end, len: file_len },
                        );
                    }
                },
                None => {
                    assert(first_out(self@, file_len as int, i as int));
                    return Err(
                        Error::TensorOutOfBounds {
                            name: t.name.clone(),
                            end: u64::MAX,
                            len: file_len,
                        },
                    );
                },
            }
            i = i + 1;
        }
        Ok(())
    }

    /// Start and end of a tensor's data in the file, where they are
    /// representable.
    fn extent(&self, t: &TensorInfo) -> (r: Option<(u64, u64)>)
        ensures
            match r {
                Some((a, b)) => t@.countable() && a == self@.data_offset + t@.offset && b
                    == tensor_end(self@.data_offset, t@),
                None => !t@.countable() || tensor_end(self@.data_offset, t@) > u64::MAX,
            },
    {
        if !countable(t) {
            return None;
        }
        let bytes: u64 = t.byte_len() as u64;
        let start: u64 = match self.data_offset.checked_add(t.offset) {
            Some(s) => s,
            None => {
                return None;
            },
        };
        match start.checked_add(bytes) {
            Some(end) => Some((start, end)),
            None => None,
        }
    }
}

/// Whether the element and byte counts can be computed.
fn countable(t: &TensorInfo) -> (r: bool)
    ensures
        r == t@.countable(),
{
    match checked_product(&t.dims) {
        None => false,
        Some(p) => {
            if p > usize::MAX as u64 {
                return false;
            }
            let blocks: usize = p as usize / t.ty.block_elems();
            match blocks.checked_mul(t.ty.block_bytes()) {
                Some(_) => true,
                None => false,
            }
        },
    }
}

fn parse_metadata(c: &mut Cursor<'_>, n: usize) -> (r: Result<StringHashMap<Value>, Error>)
    ensures
        final(c).buf == old(c).buf,
        match (r, read_metadata(old(c).buf@, old(c).pos as int, n as nat, Map::empty())) {
            (Ok(m), Ok((w, p))) => m@.map_values(|v: Value| v@) == w && final(c).pos == p,
            (Err(e), Err(f)) => e@ == f,
            _ => false,
        },
{
    let mut m: StringHashMap<Value> = StringHashMap::new();
    assert(m@.map_values(|v: Value| v@) =~= Map::<Seq<char>, ValueView>::empty());
    let mut i: usize = 0;
    while i < n
        invariant
            i <= n,
            c.buf == old(c).buf,
            read_metadata(old(c).buf@, old(c).pos as int, n as nat, Map::empty()) == read_metadata(
                c.buf@,
                c.pos as int,
                (n - i) as nat,
                m@.map_values(|v: Value| v@),
            ),
        decreases n - i,
    {
        let ghost before = m@;
        let key = c.string()?;
        let ty: u32 = c.u32()?;
        let val = c.value(ty)?;
        let ghost (k, w) = (key@, val@);
        m.insert(key, val);
        assert(m@.map_values(|v: Value| v@) =~= before.map_values(|v: Value| v@).insert(k, w));
        i = i + 1;
    }
    Ok(m)
}

fn parse_dims(c: &mut Cursor<'_>, n: usize) -> (r: Result<Vec<u64>, Error>)
    ensures
        final(c).buf == old(c).buf,
        match (r, read_dims(old(c).buf@, old(c).pos as int, n as nat, Seq::empty())) {
            (Ok(v), Ok((w, p))) => v@ == w && final(c).pos == p,
            (Err(e), Err(f)) => e@ == f,
            _ => false,
        },
{
    let mut v: Vec<u64> = Vec::new();
    let mut i: usize = 0;
    while i < n
        invariant
            i <= n,
            c.buf == old(c).buf,
            read_dims(old(c).buf@, old(c).pos as int, n as nat, Seq::empty()) == read_dims(
                c.buf@,
                c.pos as int,
                (n - i) as nat,
                v@,
            ),
        decreases n - i,
    {
        let d: u64 = c.u64()?;
        v.push(d);
        i = i + 1;
    }
    Ok(v)
}

fn parse_tensor(c: &mut Cursor<'_>) -> (r: Result<TensorInfo, Error>)
    ensures
        final(c).buf == old(c).buf,
        match (r, read_tensor(old(c).buf@, old(c).pos as int)) {
            (Ok(v), Ok((w, p))) => v@ == w && final(c).pos == p,
            (Err(e), Err(f)) => e@ == f,
            _ => false,
        },
{
    let name = c.string()?;
    let rank: usize = c.u32()? as usize;
    let dims = parse_dims(c, rank)?;
    let t: u32 = c.u32()?;
    let ty = GgmlType::from_u32(t)?;
    let offset: u64 = c.u64()?;
    Ok(TensorInfo { name, dims, ty, offset })
}

fn parse_tensors(c: &mut Cursor<'_>, n: usize) -> (r: Result<
    (Vec<TensorInfo>, StringHashMap<usize>),
    Error,
>)
    ensures
        final(c).buf == old(c).buf,
        match (r, read_tensors(old(c).buf@, old(c).pos as int, n as nat, Seq::empty())) {
            (Ok((v, index)), Ok((w, p))) => tensor_views(v@) == w && final(c).pos == p && indexes(
                index@,
                w,
            ),
            (Err(e), Err(f)) => e@ == f,
            _ => false,
        },
{
    let mut v: Vec<TensorInfo> = Vec::new();
    let mut index: StringHashMap<usize> = StringHashMap::new();
    assert(tensor_views(v@) =~= Seq::<TensorInfoView>::empty());
    let mut i: usize = 0;
    while i < n
        invariant
            i <= n,
            c.buf == old(c).buf,
            v@.len() == i,
            indexes(index@, tensor_views(v@)),
            read_tensors(old(c).buf@, old(c).pos as int, n as nat, Seq::empty()) == read_tensors(
                c.buf@,
                c.pos as int,
                (n - i) as nat,
                tensor_views(v@),
            ),
        decreases n - i,
    {
        let ghost before = tensor_views(v@);
        let ghost index0 = index@;
        let t = parse_tensor(c)?;
        let ghost tv = t@;
        index.insert(t.name.clone(), v.len());
        v.push(t);
        assert(tensor_views(v@) =~= before.push(tv));
        proof {
            let after = tensor_views(v@);
            assert forall|name: Seq<char>| #[trigger] index@.contains_key(name) implies is_index_of(
                after,
                name,
                index@[name] as int,
            ) by {
                if name != tv.name {
                    assert(index0.contains_key(name));
                    let k = index0[name] as int;
                    assert(is_index_of(before, name, k));
                    assert forall|j: int| k < j < after.len() implies (#[trigger] after[j]).name
                        != name by {
                        if j < before.len() {
                            assert(before[j].name != name);
                        }
                    }
                }
            }
            assert forall|j: int| 0 <= j < after.len() implies index@.contains_key(
                (#[trigger] after[j]).name,
            ) by {
                if j < before.len() {
                    assert(index0.contains_key(before[j].name));
                }
            }
        }
        i = i + 1;
    }
    Ok((v, index))
}

// ---------------------------------------------------------------------------
// Metadata lookups
// ---------------------------------------------------------------------------
/// The value under `key`, read by `pick`; `wanted` names what it should have been.
pub open spec fn lookup<T>(
    h: HeaderView,
    key: Seq<char>,
    pick: spec_fn(ValueView) -> Option<T>,
    wanted: Seq<char>,
) -> Result<T, ErrorView> {
    if !h.metadata.contains_key(key) {
        Err(ErrorView::NoKey(key))
    } else {
        match pick(h.metadata[key]) {
            Some(v) => Ok(v),
            None => Err(
                ErrorView::WrongType { key, wanted, actual: gguf::value_kind_name(h.metadata[key]) },
            ),
        }
    }
}

pub open spec fn meta_u64(h: HeaderView, key: Seq<char>) -> Result<u64, ErrorView> {
    lookup(h, key, |v: ValueView| gguf::value_u64(v), "integer"@)
}

pub open spec fn meta_float(h: HeaderView, key: Seq<char>) -> Result<FloatBits, ErrorView> {
    lookup(h, key, |v: ValueView| gguf::value_float(v), "f32"@)
}

pub open spec fn meta_str(h: HeaderView, key: Seq<char>) -> Result<Seq<char>, ErrorView> {
    lookup(
        h,
        key,
        |v: ValueView|
            match v {
                ValueView::String(s) => Some(s),
                _ => None,
            },
        "string"@,
    )
}

pub open spec fn meta_array(h: HeaderView, key: Seq<char>) -> Result<ArrayView, ErrorView> {
    lookup(
        h,
        key,
        |v: ValueView|
            match v {
                ValueView::Array(a) => Some(a),
                _ => None,
            },
        "array"@,
    )
}

/// The array under `key`, read by `pick`.
pub open spec fn lookup_array<T>(
    h: HeaderView,
    key: Seq<char>,
    pick: spec_fn(ArrayView) -> Option<T>,
    wanted: Seq<char>,
) -> Result<T, ErrorView> {
    match meta_array(h, key) {
        Err(e) => Err(e),
        Ok(a) => match pick(a) {
            Some(v) => Ok(v),
            None => Err(ErrorView::WrongType { key, wanted, actual: gguf::array_kind_name(a) }),
        },
    }
}

pub open spec fn meta_u32s(h: HeaderView, key: Seq<char>) -> Result<Seq<u32>, ErrorView> {
    lookup_array(h, key, |a: ArrayView| gguf::array_u32s(a), "integer array"@)
}

pub open spec fn meta_bools(h: HeaderView, key: Seq<char>) -> Result<Seq<bool>, ErrorView> {
    lookup_array(
        h,
        key,
        |a: ArrayView|
            match a {
                ArrayView::Bool(v) => Some(v),
                ArrayView::U8(v) => Some(v.map_values(|x: u8| x != 0)),
                ArrayView::Empty => Some(Seq::empty()),
                _ => None,
            },
        "bool array"@,
    )
}

pub open spec fn meta_floats(h: HeaderView, key: Seq<char>) -> Result<Seq<FloatBits>, ErrorView> {
    lookup_array(
        h,
        key,
        |a: ArrayView|
            match a {
                ArrayView::F32(v) => Some(v.map_values(|x: u32| FloatBits::Single(x))),
                ArrayView::F64(v) => Some(v.map_values(|x: u64| FloatBits::Double(x))),
                ArrayView::Empty => Some(Seq::empty()),
                _ => None,
            },
        "f32 array"@,
    )
}

pub open spec fn meta_strings(h: HeaderView, key: Seq<char>) -> Result<Seq<Seq<char>>, ErrorView> {
    lookup_array(
        h,
        key,
        |a: ArrayView|
            match a {
                ArrayView::String(v) => Some(v),
                _ => None,
            },
        "string array"@,
    )
}

/// The two results are the same value, or the same error.
pub open spec fn same<T>(r: Result<T, Error>, want: Result<T, ErrorView>) -> bool {
    match (r, want) {
        (Ok(v), Ok(w)) => v == w,
        (Err(e), Err(f)) => e@ == f,
        _ => false,
    }
}

fn wrong_kind(key: &str, wanted: &'static str, actual: &'static str) -> (e: Error)
    ensures
        e@ == (ErrorView::WrongType { key: key@, wanted: wanted@, actual: actual@ }),
{
    Error::WrongType { key: key.to_owned(), wanted, actual }
}

impl Header {
    /// The value under `key`.
    pub fn get(&self, key: &str) -> (r: Option<&Value>)
        ensures
            match r {
                Some(v) => self@.metadata.contains_key(key@) && v@ == self@.metadata[key@],
                None => !self@.metadata.contains_key(key@),
            },
    {
        self.metadata.get(key)
    }

    fn need(&self, key: &str) -> (r: Result<&Value, Error>)
        ensures
            match r {
                Ok(v) => self@.metadata.contains_key(key@) && v@ == self@.metadata[key@],
                Err(e) => !self@.metadata.contains_key(key@) && e@ == ErrorView::NoKey(key@),
            },
    {
        match self.metadata.get(key) {
            Some(v) => Ok(v),
            None => Err(Error::NoKey(key.to_owned())),
        }
    }

    pub fn u64(&self, key: &str) -> (r: Result<u64, Error>)
        ensures
            same(r, meta_u64(self@, key@)),
    {
        let v = self.need(key)?;
        match v.as_u64() {
            Some(x) => Ok(x),
            None => Err(wrong_kind(key, "integer", v.kind_name())),
        }
    }

    pub fn usize(&self, key: &str) -> (r: Result<usize, Error>)
        ensures
            match (r, meta_u64(self@, key@)) {
                (Ok(v), Ok(w)) => v == w as usize,
                (Err(e), Err(f)) => e@ == f,
                _ => false,
            },
    {
        let v: u64 = self.u64(key)?;
        Ok(v as usize)
    }

    pub fn float(&self, key: &str) -> (r: Result<FloatBits, Error>)
        ensures
            same(r, meta_float(self@, key@)),
    {
        let v = self.need(key)?;
        match v.as_f32() {
            Some(x) => Ok(x),
            None => Err(wrong_kind(key, "f32", v.kind_name())),
        }
    }

    pub fn str(&self, key: &str) -> (r: Result<&str, Error>)
        ensures
            match (r, meta_str(self@, key@)) {
                (Ok(v), Ok(w)) => v@ == w,
                (Err(e), Err(f)) => e@ == f,
                _ => false,
            },
    {
        let v = self.need(key)?;
        match v.as_str() {
            Some(x) => Ok(x),
            None => Err(wrong_kind(key, "string", v.kind_name())),
        }
    }

    pub fn array(&self, key: &str) -> (r: Result<&Array, Error>)
        ensures
            match (r, meta_array(self@, key@)) {
                (Ok(v), Ok(w)) => v@ == w,
                (Err(e), Err(f)) => e@ == f,
                _ => false,
            },
    {
        let v = self.need(key)?;
        match v.as_array() {
            Some(x) => Ok(x),
            None => Err(wrong_kind(key, "array", v.kind_name())),
        }
    }

    /// Integer array widened to `u32`, e.g. per-layer KV head counts.
    pub fn u32_array(&self, key: &str) -> (r: Result<Vec<u32>, Error>)
        ensures
            gguf::agrees(r, meta_u32s(self@, key@)),
    {
        let a = self.array(key)?;
        match a.as_u32_vec() {
            Some(v) => Ok(v),
            None => Err(wrong_kind(key, "integer array", a.kind_name())),
        }
    }

    pub fn bool_array(&self, key: &str) -> (r: Result<Vec<bool>, Error>)
        ensures
            gguf::agrees(r, meta_bools(self@, key@)),
    {
        let a = self.array(key)?;
        match a {
            Array::Bool(v) => {
                let c = v.clone();
                assert(c@ =~= v@);
                Ok(c)
            },
            Array::U8(v) => Ok(cursor::nonzero_bytes(v.as_slice())),
            Array::Empty => Ok(Vec::new()),
            other => Err(wrong_kind(key, "bool array", other.kind_name())),
        }
    }

    pub fn f32_array(&self, key: &str) -> (r: Result<Vec<FloatBits>, Error>)
        ensures
            gguf::agrees(r, meta_floats(self@, key@)),
    {
        let a = self.array(key)?;
        match a {
            Array::F32(v) => {
                let mut out: Vec<FloatBits> = Vec::new();
                let mut i: usize = 0;
                while i < v.len()
                    invariant
                        i <= v@.len(),
                        out@ == v@.map_values(|x: u32| FloatBits::Single(x)).take(i as int),
                    decreases v@.len() - i,
                {
                    out.push(FloatBits::Single(v[i]));
                    i = i + 1;
                    assert(out@ =~= v@.map_values(|x: u32| FloatBits::Single(x)).take(i as int));
                }
                assert(out@ =~= v@.map_values(|x: u32| FloatBits::Single(x)));
                Ok(out)
            },
            Array::F64(v) => {
                let mut out: Vec<FloatBits> = Vec::new();
                let mut i: usize = 0;
                while i < v.len()
                    invariant
                        i <= v@.len(),
                        out@ == v@.map_values(|x: u64| FloatBits::Double(x)).take(i as int),
                    decreases v@.len() - i,
                {
                    out.push(FloatBits::Double(v[i]));
                    i = i + 1;
                    assert(out@ =~= v@.map_values(|x: u64| FloatBits::Double(x)).take(i as int));
                }
                assert(out@ =~= v@.map_values(|x: u64| FloatBits::Double(x)));
                Ok(out)
            },
            Array::Empty => Ok(Vec::new()),
            other => Err(wrong_kind(key, "f32 array", other.kind_name())),
        }
    }

    pub fn string_array(&self, key: &str) -> (r: Result<&[String], Error>)
        ensures
            match (r, meta_strings(self@, key@)) {
                (Ok(v), Ok(w)) => text::views(v@) == w,
                (Err(e), Err(f)) => e@ == f,
                _ => false,
            },
    {
        let a = self.array(key)?;
        match a {
            Array::String(v) => Ok(v.as_slice()),
            other => Err(wrong_kind(key, "string array", other.kind_name())),
        }
    }

    pub fn has_tensor(&self, name: &str) -> (r: bool)
        requires
            self.wf(),
        ensures
            r == exists|i: int| #[trigger] is_index_of(self@.tensors, name@, i),
    {
        let r = self.index.contains_key(name);
        proof {
            if r {
                assert(is_index_of(self@.tensors, name@, self.index@[name@] as int));
            } else {
                assert forall|i: int| !(#[trigger] is_index_of(self@.tensors, name@, i)) by {
                    if 0 <= i < self@.tensors.len() {
                        assert(self.index@.contains_key(self@.tensors[i].name));
                    }
                }
            }
        }
        r
    }

    /// The descriptor of the tensor called `name`.
    pub fn info(&self, name: &str) -> (r: Result<&TensorInfo, Error>)
        requires
            self.wf(),
        ensures
            match r {
                Ok(t) => exists|i: int| #[trigger]
                    is_index_of(self@.tensors, name@, i) && t@ == self@.tensors[i],
                Err(e) => e@ == ErrorView::NoTensor(name@) && forall|i: int|
                    !(#[trigger] is_index_of(self@.tensors, name@, i)),
            },
    {
        match self.index.get(name) {
            Some(i) => {
                assert(is_index_of(self@.tensors, name@, *i as int));
                let t = &self.tensors[*i];
                assert(self@.tensors[*i as int] == t@);
                Ok(t)
            },
            None => {
                assert forall|i: int| !(#[trigger] is_index_of(self@.tensors, name@, i)) by {
                    if 0 <= i < self@.tensors.len() {
                        assert(self.index@.contains_key(self@.tensors[i].name));
                    }
                }
                Err(Error::NoTensor(name.to_owned()))
            },
        }
    }

    /// Start and end of a tensor's bytes in the file.
    pub fn byte_range(&self, t: &TensorInfo) -> (r: (u64, u64))
        requires
            t@.countable(),
            tensor_end(self@.data_offset, t@) <= u64::MAX,
        ensures
            r.0 == self@.data_offset + t@.offset,
            r.1 == tensor_end(self@.data_offset, t@),
    {
        let start: u64 = self.data_offset + t.offset;
        (start, start + t.byte_len() as u64)
    }
}

/// One name stands for one tensor.
pub proof fn lemma_index_unique(tensors: Seq<TensorInfoView>, name: Seq<char>, i: int, j: int)
    requires
        is_index_of(tensors, name, i),
        is_index_of(tensors, name, j),
    ensures
        i == j,
{
}

// ---------------------------------------------------------------------------
// The whole file
// ---------------------------------------------------------------------------
/// A parsed file and its bytes.
pub struct Gguf<'a> {
    pub header: Header,
    pub mmap: &'a [u8],
}

impl<'a> Gguf<'a> {
    /// The header describes these bytes and every tensor lies within them.
    pub open spec fn wf(&self) -> bool {
        &&& self.header.wf()
        &&& all_in_bounds(self.header@, self.mmap@.len() as int)
    }

    /// Parse a whole file.
    pub fn from_mmap(mmap: &'a [u8]) -> (r: Result<Self, Error>)
        ensures
            match (r, read_header(mmap@)) {
                (Ok(g), Ok(h)) => g.header@ == h && g.mmap == mmap && g.wf() && all_in_bounds(
                    h,
                    mmap@.len() as int,
                ),
                (Err(e), Ok(h)) => exists|i: int| #[trigger]
                    first_out(h, mmap@.len() as int, i) && e@ == bounds_error(
                        h.data_offset,
                        h.tensors[i],
                        mmap@.len() as int,
                    ),
                (Err(e), Err(f)) => e@ == f,
                _ => false,
            },
    {
        let header = Header::parse(mmap)?;
        header.check_bounds(mmap.len() as u64)?;
        Ok(Gguf { header, mmap })
    }

    pub fn header(&self) -> (r: &Header)
        ensures
            r == self.header,
    {
        &self.header
    }

    pub fn get(&self, key: &str) -> (r: Option<&Value>)
        ensures
            match r {
                Some(v) => self.header@.metadata.contains_key(key@) && v@
                    == self.header@.metadata[key@],
                None => !self.header@.metadata.contains_key(key@),
            },
    {
        self.header.get(key)
    }

    pub fn u64(&self, key: &str) -> (r: Result<u64, Error>)
        ensures
            same(r, meta_u64(self.header@, key@)),
    {
        self.header.u64(key)
    }

    pub fn usize(&self, key: &str) -> (r: Result<usize, Error>)
        ensures
            match (r, meta_u64(self.header@, key@)) {
                (Ok(v), Ok(w)) => v == w as usize,
                (Err(e), Err(f)) => e@ == f,
                _ => false,
            },
    {
        self.header.usize(key)
    }

    pub fn float(&self, key: &str) -> (r: Result<FloatBits, Error>)
        ensures
            same(r, meta_float(self.header@, key@)),
    {
        self.header.float(key)
    }

    pub fn str(&self, key: &str) -> (r: Result<&str, Error>)
        ensures
            match (r, meta_str(self.header@, key@)) {
                (Ok(v), Ok(w)) => v@ == w,
                (Err(e), Err(f)) => e@ == f,
                _ => false,
            },
    {
        self.header.str(key)
    }

    pub fn array(&self, key: &str) -> (r: Result<&Array, Error>)
        ensures
            match (r, meta_array(self.header@, key@)) {
                (Ok(v), Ok(w)) => v@ == w,
                (Err(e), Err(f)) => e@ == f,
                _ => false,
            },
    {
        self.header.array(key)
    }

    pub fn u32_array(&self, key: &str) -> (r: Result<Vec<u32>, Error>)
        ensures
            gguf::agrees(r, meta_u32s(self.header@, key@)),
    {
        self.header.u32_array(key)
    }

    pub fn bool_array(&self, key: &str) -> (r: Result<Vec<bool>, Error>)
        ensures
            gguf::agrees(r, meta_bools(self.header@, key@)),
    {
        self.header.bool_array(key)
    }

    pub fn f32_array(&self, key: &str) -> (r: Result<Vec<FloatBits>, Error>)
        ensures
            gguf::agrees(r, meta_floats(self.header@, key@)),
    {
        self.header.f32_array(key)
    }

    pub fn string_array(&self, key: &str) -> (r: Result<&[String], Error>)
        ensures
            match (r, meta_strings(self.header@, key@)) {
                (Ok(v), Ok(w)) => text::views(v@) == w,
                (Err(e), Err(f)) => e@ == f,
                _ => false,
            },
    {
        self.header.string_array(key)
    }

    pub fn has_tensor(&self, name: &str) -> (r: bool)
        requires
            self.wf(),
        ensures
            r == exists|i: int| #[trigger] is_index_of(self.header@.tensors, name@, i),
    {
        self.header.has_tensor(name)
    }

    pub fn file_size(&self) -> (r: u64)
        ensures
            r == self.mmap@.len(),
    {
        self.mmap.len() as u64
    }

    pub fn tensor_data_offset(&self) -> (r: u64)
        ensures
            r == self.header@.data_offset,
    {
        self.header.data_offset
    }

    /// The bytes of a tensor of this file.
    pub open spec fn data_of(&self, t: TensorInfoView) -> Seq<u8> {
        self.mmap@.subrange(
            self.header@.data_offset + t.offset,
            tensor_end(self.header@.data_offset, t),
        )
    }

    pub fn tensor_at(&self, i: usize) -> (r: TensorView<'_>)
        requires
            self.wf(),
            i < self.header@.tensors.len(),
        ensures
            r.info@ == self.header@.tensors[i as int],
            r.data@ == self.data_of(self.header@.tensors[i as int]),
    {
        let info = &self.header.tensors[i];
        assert(self.header@.tensors[i as int] == info@);
        let len: usize = self.mmap.len();
        let (start, end) = self.header.byte_range(info);
        TensorView {
            info,
            data: vstd::slice::slice_subrange(self.mmap, start as usize, end as usize),
        }
    }

    pub fn tensor(&self, name: &str) -> (r: Result<TensorView<'_>, Error>)
        requires
            self.wf(),
        ensures
            match r {
                Ok(t) => exists|i: int| #[trigger]
                    is_index_of(self.header@.tensors, name@, i) && t.info@
                        == self.header@.tensors[i] && t.data@ == self.data_of(
                        self.header@.tensors[i],
                    ),
                Err(e) => e@ == ErrorView::NoTensor(name@) && forall|i: int|
                    !(#[trigger] is_index_of(self.header@.tensors, name@, i)),
            },
    {
        match self.tensor_opt(name) {
            Some(t) => Ok(t),
            None => Err(Error::NoTensor(name.to_owned())),
        }
    }

    pub fn tensor_opt(&self, name: &str) -> (r: Option<TensorView<'_>>)
        requires
            self.wf(),
        ensures
            match r {
                Some(t) => exists|i: int| #[trigger]
                    is_index_of(self.header@.tensors, name@, i) && t.info@
                        == self.header@.tensors[i] && t.data@ == self.data_of(
                        self.header@.tensors[i],
                    ),
                None => forall|i: int| !(#[trigger] is_index_of(self.header@.tensors, name@, i)),
            },
    {
        match self.header.index.get(name) {
            Some(i) => {
                assert(is_index_of(self.header@.tensors, name@, *i as int));
                Some(self.tensor_at(*i))
            },
            None => {
                assert forall|i: int| !(#[trigger] is_index_of(
                    self.header@.tensors,
                    name@,
                    i,
                )) by {
                    if 0 <= i < self.header@.tensors.len() {
                        assert(self.header.index@.contains_key(self.header@.tensors[i].name));
                    }
                }
                None
            },
        }
    }

    /// Total bytes occupied by tensor data.
    pub fn tensor_bytes(&self) -> (r: u64)
        requires
            self.wf(),
            total_bytes(self.header@.tensors) <= u64::MAX,
        ensures
            r == total_bytes(self.header@.tensors),
    {
        let ghost all = self.header@.tensors;
        let mut sum: u64 = 0;
        let mut i: usize = 0;
        assert(all.take(0) =~= Seq::empty());
        while i < self.header.tensors.len()
            invariant
                i <= all.len(),
                self.wf(),
                all == self.header@.tensors,
                total_bytes(all) <= u64::MAX,
                sum == total_bytes(all.take(i as int)),
            decreases all.len() - i,
        {
            let t = &self.header.tensors[i];
            assert(all[i as int] == t@);
            proof {
                lemma_total_bytes(all, i + 1);
                assert(all.take(i + 1).drop_last() =~= all.take(i as int));
            }
            sum = sum + t.byte_len() as u64;
            i = i + 1;
        }
        assert(all.take(i as int) =~= all);
        sum
    }
}

pub open spec fn total_bytes(tensors: Seq<TensorInfoView>) -> nat
    decreases tensors.len(),
{
    if tensors.len() == 0 {
        0
    } else {
        total_bytes(tensors.drop_last()) + tensors.last().bytes()
    }
}

proof fn lemma_total_bytes(tensors: Seq<TensorInfoView>, k: int)
    requires
        0 <= k <= tensors.len(),
    ensures
        total_bytes(tensors.take(k)) <= total_bytes(tensors),
    decreases tensors.len() - k,
{
    if k < tensors.len() {
        assert(tensors.take(k + 1).drop_last() =~= tensors.take(k));
        lemma_total_bytes(tensors, k + 1);
    } else {
        assert(tensors.take(k) =~= tensors);
    }
}

} // verus!
