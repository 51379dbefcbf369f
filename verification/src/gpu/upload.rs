//! Moving weights to the device: which bytes are read, what is written where, and
//! how the result is checked.

use crate::gguf::{Error, ErrorView, GgmlType};
use crate::gpu::arena::{
    block_strides, encode_blocks, encoded_byte, handle_views, lemma_named, pack, packing_is_sound,
    start_of, strides,
    tensor_gpu_size, tensor_named, Handle, Plan,
};
use crate::gpu::grid::{LANES, ROWS_PER_GROUP};
use crate::header::{all_in_bounds, Gguf, Header, HeaderView, TensorInfoView};
use crate::text;
use vstd::prelude::*;

verus! {

// ---------------------------------------------------------------------------
// Shader source
// ---------------------------------------------------------------------------
/// The row reduction where subgroups are usable.
pub const REDUCE_SUBGROUP: &'static str = "// Naga lowers this to Metal's simd_sum. The lane group and the hardware\n// subgroup are the same threads — verified at startup, see Gpu::new.\nfn reduce_row(tid: u32, lane: u32, v: f32) -> f32 {\n    return subgroupAdd(v);\n}";

/// The row reduction through workgroup memory.
pub const REDUCE_BARRIER: &'static str = "// No usable subgroups: reduce through workgroup memory instead. All ROWS lane\n// groups reduce in lockstep, so the barrier count is per workgroup rather than\n// per row.\nvar<workgroup> partial: array<f32, WG>;\nfn reduce_row(tid: u32, lane: u32, v: f32) -> f32 {\n    // Keeps this call from overwriting values the previous one is still\n    // reading; every caller reaches it in uniform control flow.\n    workgroupBarrier();\n    partial[tid] = v;\n    workgroupBarrier();\n    var s = LANES / 2u;\n    loop {\n        if (s == 0u) { break; }\n        if (lane < s) { partial[tid] = partial[tid] + partial[tid + s]; }\n        workgroupBarrier();\n        s = s / 2u;\n    }\n    return partial[tid - lane];\n}";

/// The shader template with its placeholders filled in, one after the other.
pub open spec fn filled(template: Seq<char>, reduce: Seq<char>, tile: nat) -> Seq<char> {
    let a = text::replaced_from(template, 0, "// @@REDUCE@@"@, reduce);
    let b = text::replaced_from(a, 0, "@@LANES@@"@, text::decimal(LANES as nat));
    let c = text::replaced_from(b, 0, "@@ROWS@@"@, text::decimal(ROWS_PER_GROUP as nat));
    text::replaced_from(c, 0, "@@TILE@@"@, text::decimal(tile))
}

/// The quant shader with its shape constants and row reduction filled in. The
/// constants have their single source of truth here rather than in the shader,
/// since the dispatch grid has to agree with them.
pub fn quant_shader_source(template: &str, subgroups: bool, tile: u32) -> (r: String)
    ensures
        r@ == filled(
            template@,
            if subgroups {
                REDUCE_SUBGROUP@
            } else {
                REDUCE_BARRIER@
            },
            tile as nat,
        ),
{
    proof {
        reveal_strlit("// @@REDUCE@@");
        reveal_strlit("@@LANES@@");
        reveal_strlit("@@ROWS@@");
        reveal_strlit("@@TILE@@");
    }
    let reduce: &'static str = if subgroups {
        REDUCE_SUBGROUP
    } else {
        REDUCE_BARRIER
    };
    let a = text::replace(template, "// @@REDUCE@@", reduce);
    let lanes = text::decimal_string(LANES as u64);
    let b = text::replace(a.as_str(), "@@LANES@@", lanes.as_str());
    let rows = text::decimal_string(ROWS_PER_GROUP as u64);
    let c = text::replace(b.as_str(), "@@ROWS@@", rows.as_str());
    let tiles = text::decimal_string(tile as u64);
    text::replace(c.as_str(), "@@TILE@@", tiles.as_str())
}

// ---------------------------------------------------------------------------
// Encoding in pieces
// ---------------------------------------------------------------------------
/// Zero bytes.
pub open spec fn zeros(n: nat) -> Seq<u8> {
    Seq::new(n, |i: int| 0u8)
}

/// A whole number of on-disk blocks, as the device wants them.
pub open spec fn encoded(ty: GgmlType, src: Seq<u8>) -> Seq<u8> {
    let n = (src.len() as int / strides(ty).0 * strides(ty).1) as nat;
    Seq::new(n, |i: int| encoded_byte(ty, src, zeros(n), i))
}

/// A tensor can be moved a piece at a time: the pieces encoded one after the
/// other are the whole encoded at once, wherever it is cut between blocks.
pub proof fn pieces_make_the_whole(ty: GgmlType, a: Seq<u8>, b: Seq<u8>)
    requires
        a.len() as int % strides(ty).0 == 0,
        b.len() as int % strides(ty).0 == 0,
    ensures
        encoded(ty, a + b) == encoded(ty, a) + encoded(ty, b),
{
    let whole = a + b;
    let (l, r) = (encoded(ty, whole), encoded(ty, a) + encoded(ty, b));
    if ty == GgmlType::Q6K {
        lemma_pieces(ty, a, b, 210, 224);
    } else if ty == GgmlType::Q8_0 {
        lemma_pieces(ty, a, b, 34, 36);
    } else {
        let s = strides(ty).0;
        assert(s == strides(ty).1);
        lemma_whole(a.len() as int, s);
        lemma_whole(b.len() as int, s);
        let (na, nb) = (a.len() as int / s, b.len() as int / s);
        assert((na + nb) * s == na * s + nb * s) by (nonlinear_arith);
        vstd::arithmetic::div_mod::lemma_mod_multiples_basic(na + nb, s);
        lemma_whole(whole.len() as int, s);
        assert forall|i: int| 0 <= i < l.len() implies #[trigger] l[i] == r[i] by {
            lemma_single(ty, whole, i);
            if i < a.len() {
                lemma_single(ty, a, i);
            } else {
                lemma_single(ty, b, i - a.len());
            }
        }
        assert(l =~= r);
    }
}

/// Bytes that are copied as they are.
proof fn lemma_single(ty: GgmlType, src: Seq<u8>, i: int)
    requires
        ty != GgmlType::Q6K && ty != GgmlType::Q8_0,
        0 <= i < src.len(),
        encoded(ty, src).len() == src.len(),
    ensures
        encoded(ty, src)[i] == src[i],
{
    assert(i / 1 == i && i % 1 == 0 && i / 1 * 1 == i);
}

proof fn lemma_whole(n: int, s: int)
    requires
        n >= 0,
        s > 0,
        n % s == 0,
    ensures
        n / s * s == n,
{
    assert(n / s * s == n) by (nonlinear_arith)
        requires
            s > 0,
            n % s == 0,
    ;
}

proof fn lemma_pieces(ty: GgmlType, a: Seq<u8>, b: Seq<u8>, s: int, d: int)
    requires
        ty == GgmlType::Q6K || ty == GgmlType::Q8_0,
        (s, d) == strides(ty),
        a.len() as int % s == 0,
        b.len() as int % s == 0,
    ensures
        encoded(ty, a + b) == encoded(ty, a) + encoded(ty, b),
{
    let whole = a + b;
    let (na, nb) = (a.len() as int / s, b.len() as int / s);
    lemma_whole(a.len() as int, s);
    lemma_whole(b.len() as int, s);
    assert(whole.len() as int / s == na + nb) by (nonlinear_arith)
        requires
            whole.len() == na * s + nb * s,
            s > 0,
    ;
    let (l, r) = (encoded(ty, whole), encoded(ty, a) + encoded(ty, b));
    assert((na + nb) * d == na * d + nb * d) by (nonlinear_arith);
    assert(0 <= na * d && 0 <= nb * d) by (nonlinear_arith)
        requires
            na >= 0,
            nb >= 0,
            d > 0,
    ;
    lemma_blocks(ty, whole, na + nb);
    lemma_blocks(ty, a, na);
    lemma_blocks(ty, b, nb);
    assert forall|i: int| 0 <= i < l.len() implies #[trigger] l[i] == r[i] by {
        if i < na * d {
            assert(0 <= i / d && i / d < na && i / d < na + nb) by (nonlinear_arith)
                requires
                    0 <= i < na * d,
                    d > 0,
                    nb >= 0,
            ;
            assert(i / d * s + s <= na * s && 0 <= i / d * s) by (nonlinear_arith)
                requires
                    0 <= i / d,
                    i / d < na,
                    s > 0,
            ;
        } else {
            let k = i - na * d;
            assert(i / d == na + k / d && i % d == k % d && 0 <= k / d && k / d < nb)
                by (nonlinear_arith)
                requires
                    i == na * d + k,
                    0 <= k < nb * d,
                    d > 0,
            ;
            assert((na + k / d) * s == na * s + k / d * s) by (nonlinear_arith);
            assert(k / d * s + s <= nb * s && 0 <= k / d * s) by (nonlinear_arith)
                requires
                    0 <= k / d,
                    k / d < nb,
                    s > 0,
            ;
        }
    }
    assert(l =~= r);
}

/// A whole number of blocks is copied whole.
proof fn lemma_blocks(ty: GgmlType, src: Seq<u8>, n: int)
    requires
        ty == GgmlType::Q6K || ty == GgmlType::Q8_0,
        n == src.len() as int / strides(ty).0,
    ensures
        encoded(ty, src).len() == n * strides(ty).1,
        crate::gpu::arena::blocks_copied(ty, src, zeros((n * strides(ty).1) as nat)) == n,
{
    let d = strides(ty).1;
    assert(0 <= n * d && n * d / d == n) by (nonlinear_arith)
        requires
            n >= 0,
            d > 0,
    ;
}

// ---------------------------------------------------------------------------
// Streaming
// ---------------------------------------------------------------------------
/// Bytes of repacked output per write.
pub const CHUNK: usize = 33_554_432;

/// Bytes of each buffer's first and last write kept for verification.
pub const SAMPLE: usize = 4096;

/// One tensor on its way.
#[derive(Debug)]
pub struct Item {
    pub name: String,
    pub ty: GgmlType,
    pub buffer: usize,
    /// First byte in the buffer.
    pub base: u64,
    /// First byte in the file.
    pub start: u64,
    pub blocks: usize,
}

#[verifier::ext_equal]
pub ghost struct ItemView {
    pub name: Seq<char>,
    pub ty: GgmlType,
    pub buffer: int,
    pub base: int,
    pub start: int,
    pub blocks: int,
}

impl View for Item {
    type V = ItemView;

    open spec fn view(&self) -> ItemView {
        ItemView {
            name: self.name@,
            ty: self.ty,
            buffer: self.buffer as int,
            base: self.base as int,
            start: self.start as int,
            blocks: self.blocks as int,
        }
    }
}

impl ItemView {
    /// Bytes that this tensor takes on the device.
    pub open spec fn size(self) -> int {
        self.blocks * strides(self.ty).1
    }

    pub open spec fn wf(self) -> bool {
        &&& self.start + self.blocks * strides(self.ty).0 <= u64::MAX
        &&& self.blocks * strides(self.ty).0 <= usize::MAX
        &&& self.size() <= usize::MAX
        &&& self.base + self.size() <= u64::MAX
    }
}

pub open spec fn item_views(v: Seq<Item>) -> Seq<ItemView> {
    v.map_values(|x: Item| x@)
}

/// A placed tensor as an item.
pub open spec fn item_of(h: HeaderView, e: (Seq<char>, Handle)) -> ItemView {
    let t = tensor_named(h, e.0)->0;
    ItemView {
        name: e.0,
        ty: t.ty,
        buffer: e.1.buffer as int,
        base: start_of(e.1),
        start: h.data_offset + t.offset,
        blocks: t.bytes() as int / strides(t.ty).0,
    }
}

/// The device size of an item is the device size of its tensor.
pub proof fn item_size_is_tensor_size(h: HeaderView, e: (Seq<char>, Handle))
    ensures
        item_of(h, e).size() == tensor_gpu_size(tensor_named(h, e.0)->0),
{
    let t = tensor_named(h, e.0)->0;
    let n = t.elems() as int;
    if t.ty == GgmlType::Q6K {
        assert(t.bytes() == n / 256 * 210);
        assert((n / 256 * 210) / 210 == n / 256);
    } else if t.ty == GgmlType::Q4K {
        assert(t.bytes() == n / 256 * 144);
        assert((n / 256 * 144) / 144 == n / 256);
    } else if t.ty == GgmlType::Q8_0 {
        assert(t.bytes() == n / 32 * 34);
        assert((n / 32 * 34) / 34 == n / 32);
    } else {
        let b = t.bytes() as int;
        assert(strides(t.ty) == (1int, 1int));
        assert(b / 1 == b && b * 1 == b);
        assert(item_of(h, e).size() == b);
        assert(n / 1 == n);
        if t.ty == GgmlType::F32 {
            assert(b == n * 4);
        } else {
            assert(b == n * 2);
        }
    }
}

/// The device sizes of the items, summed.
pub open spec fn size_sum(items: Seq<ItemView>) -> int
    decreases items.len(),
{
    if items.len() == 0 {
        0
    } else {
        size_sum(items.drop_last()) + items.last().size()
    }
}

proof fn lemma_size_sum(items: Seq<ItemView>, k: int)
    requires
        0 <= k <= items.len(),
        forall|i: int| 0 <= i < items.len() ==> (#[trigger] items[i]).blocks >= 0,
    ensures
        0 <= size_sum(items.take(k)) <= size_sum(items),
        k < items.len() ==> size_sum(items.take(k + 1)) == size_sum(items.take(k))
            + items[k].size(),
    decreases items.len() - k,
{
    if k < items.len() {
        assert(items.take(k + 1).drop_last() =~= items.take(k));
        assert(items[k].size() >= 0) by {
            let b = items[k].blocks;
            let d = strides(items[k].ty).1;
            assert(b * d >= 0) by (nonlinear_arith)
                requires
                    b >= 0,
                    d >= 0,
            ;
        }
        lemma_size_sum(items, k + 1);
        lemma_sum_nonneg(items.take(k));
    } else {
        assert(items.take(k) =~= items);
        lemma_sum_nonneg(items);
    }
}

proof fn lemma_sum_nonneg(items: Seq<ItemView>)
    requires
        forall|i: int| 0 <= i < items.len() ==> (#[trigger] items[i]).blocks >= 0,
    ensures
        size_sum(items) >= 0,
    decreases items.len(),
{
    if items.len() > 0 {
        let t = items.drop_last();
        assert forall|i: int| 0 <= i < t.len() implies (#[trigger] t[i]).blocks >= 0 by {
            assert(t[i] == items[i]);
        }
        lemma_sum_nonneg(t);
        let b = items.last().blocks;
        let d = strides(items.last().ty).1;
        assert(b * d >= 0) by (nonlinear_arith)
            requires
                b >= 0,
                d >= 0,
        ;
    }
}

/// Bytes at a place of a buffer.
#[derive(Debug)]
pub struct Span {
    pub buffer: usize,
    pub offset: u64,
    pub data: Vec<u8>,
}

#[verifier::ext_equal]
pub ghost struct SpanView {
    pub buffer: int,
    pub offset: int,
    pub data: Seq<u8>,
}

impl View for Span {
    type V = SpanView;

    open spec fn view(&self) -> SpanView {
        SpanView { buffer: self.buffer as int, offset: self.offset as int, data: self.data@ }
    }
}

#[derive(Debug)]
pub enum UploadError {
    Gguf(Error),
    /// Fewer or more bytes than were asked for.
    ShortRead { name: String, wanted: usize, got: usize },
    /// What was written is not what was planned.
    Accounting { wrote: u64, planned: u64 },
    /// A buffer read back wrong.
    Verification { buffer: usize, offset: u64 },
}

#[verifier::ext_equal]
pub ghost enum UploadErrorView {
    Gguf(ErrorView),
    ShortRead { name: Seq<char>, wanted: int, got: int },
    Accounting { wrote: int, planned: int },
    Verification { buffer: int, offset: int },
}

impl View for UploadError {
    type V = UploadErrorView;

    open spec fn view(&self) -> UploadErrorView {
        match self {
            UploadError::Gguf(e) => UploadErrorView::Gguf(e@),
            UploadError::ShortRead { name, wanted, got } => UploadErrorView::ShortRead {
                name: name@,
                wanted: *wanted as int,
                got: *got as int,
            },
            UploadError::Accounting { wrote, planned } => UploadErrorView::Accounting {
                wrote: *wrote as int,
                planned: *planned as int,
            },
            UploadError::Verification { buffer, offset } => UploadErrorView::Verification {
                buffer: *buffer as int,
                offset: *offset as int,
            },
        }
    }
}

/// The next piece to move: bytes `from..to` of the file.
#[derive(Debug, Clone, Copy, PartialEq, Eq, Structural)]
pub struct Piece {
    pub item: usize,
    pub blocks: usize,
    pub from: u64,
    pub to: u64,
}

/// An upload in progress. Before each step [`Stream::next`] says which bytes of
/// the file to read, and [`Stream::accept`] turns them into a write.
pub struct Stream {
    pub items: Vec<Item>,
    pub at: usize,
    pub block: usize,
    pub done: u64,
    pub total: u64,
    /// First and last bytes written to each buffer.
    pub head: Vec<Option<Span>>,
    pub tail: Vec<Option<Span>>,
}

#[verifier::ext_equal]
pub ghost struct StreamView {
    pub items: Seq<ItemView>,
    pub at: int,
    pub block: int,
    pub done: int,
    pub total: int,
    pub head: Seq<Option<SpanView>>,
    pub tail: Seq<Option<SpanView>>,
}

pub open spec fn span_views(v: Seq<Option<Span>>) -> Seq<Option<SpanView>> {
    v.map_values(
        |x: Option<Span>|
            match x {
                Some(s) => Some(s@),
                None => None,
            },
    )
}

impl View for Stream {
    type V = StreamView;

    open spec fn view(&self) -> StreamView {
        StreamView {
            items: item_views(self.items@),
            at: self.at as int,
            block: self.block as int,
            done: self.done as int,
            total: self.total as int,
            head: span_views(self.head@),
            tail: span_views(self.tail@),
        }
    }
}

/// Blocks per chunk: whole ones, a partial one would repack garbage.
pub open spec fn per_chunk(ty: GgmlType) -> int {
    CHUNK as int / strides(ty).1
}

pub open spec fn at_most(a: int, b: int) -> int {
    if a < b {
        a
    } else {
        b
    }
}

/// The first item from `at` on that has blocks.
pub open spec fn next_item(items: Seq<ItemView>, at: int) -> int
    decreases items.len() - at,
{
    if at < items.len() && items[at].blocks == 0 {
        next_item(items, at + 1)
    } else {
        at
    }
}

impl StreamView {
    pub open spec fn wf(self) -> bool {
        &&& forall|i: int| 0 <= i < self.items.len() ==> (#[trigger] self.items[i]).wf()
        &&& forall|i: int| 0 <= i < self.items.len() ==> (#[trigger] self.items[i]).blocks >= 0
        &&& forall|i: int|
            0 <= i < self.items.len() ==> 0 <= (#[trigger] self.items[i]).buffer < self.head.len()
        &&& self.head.len() == self.tail.len()
        &&& size_sum(self.items) == self.total <= u64::MAX
        &&& 0 <= self.at <= self.items.len()
        &&& if self.at < self.items.len() {
            0 <= self.block < self.items[self.at].blocks
        } else {
            self.block == 0
        }
        &&& self.done == self.written()
    }

    /// The blocks that are behind: all of the earlier items, `block` of this one.
    pub open spec fn written(self) -> int {
        size_sum(self.items.take(self.at)) + if self.at < self.items.len() {
            self.block * strides(self.items[self.at].ty).1
        } else {
            0
        }
    }

    /// Blocks of the next piece.
    pub open spec fn count(self) -> int {
        at_most(per_chunk(self.items[self.at].ty), self.items[self.at].blocks - self.block)
    }

    pub open spec fn from(self) -> int {
        self.items[self.at].start + self.block * strides(self.items[self.at].ty).0
    }

    /// Bytes of the next piece in the file.
    pub open spec fn wanted(self) -> int {
        self.count() * strides(self.items[self.at].ty).0
    }

    /// The write that `bytes` become.
    pub open spec fn write_of(self, bytes: Seq<u8>) -> SpanView {
        let it = self.items[self.at];
        SpanView {
            buffer: it.buffer,
            offset: it.base + self.block * strides(it.ty).1,
            data: encoded(it.ty, bytes),
        }
    }

    /// The state behind the piece that `bytes` are.
    pub open spec fn stepped(self, bytes: Seq<u8>) -> StreamView {
        let it = self.items[self.at];
        let w = self.write_of(bytes);
        let block = self.block + self.count();
        StreamView {
            at: if block < it.blocks {
                self.at
            } else {
                next_item(self.items, self.at + 1)
            },
            block: if block < it.blocks {
                block
            } else {
                0
            },
            done: self.done + w.data.len(),
            head: kept_first(self.head, w),
            tail: kept_last(self.tail, w),
            ..self
        }
    }
}

/// An upload of these items to `n` buffers, before its first piece.
pub open spec fn begun(items: Seq<ItemView>, n: nat) -> StreamView {
    let none = Seq::new(n, |i: int| None::<SpanView>);
    StreamView {
        items,
        at: next_item(items, 0),
        block: 0,
        done: 0,
        total: size_sum(items),
        head: none,
        tail: none,
    }
}

/// How many bytes of a write are kept: offsets and sizes of copies are multiples
/// of four.
pub open spec fn sampled(len: int) -> int {
    at_most(len, SAMPLE as int) / 4 * 4
}

/// The first bytes of each buffer, after a write.
pub open spec fn kept_first(head: Seq<Option<SpanView>>, w: SpanView) -> Seq<Option<SpanView>> {
    let n = sampled(w.data.len() as int);
    if n > 0 && head[w.buffer] is None {
        head.update(
            w.buffer,
            Some(SpanView { buffer: w.buffer, offset: w.offset, data: w.data.take(n) }),
        )
    } else {
        head
    }
}

/// The last bytes of each buffer, after a write.
pub open spec fn kept_last(tail: Seq<Option<SpanView>>, w: SpanView) -> Seq<Option<SpanView>> {
    let n = sampled(w.data.len() as int);
    if n > 0 {
        tail.update(
            w.buffer,
            Some(
                SpanView {
                    buffer: w.buffer,
                    offset: w.offset + w.data.len() - n,
                    data: w.data.skip(w.data.len() - n),
                },
            ),
        )
    } else {
        tail
    }
}

/// Remember the first and last bytes of a buffer as they are written, so that the
/// check compares against what was sent.
fn keep_samples(
    head: &mut Vec<Option<Span>>,
    tail: &mut Vec<Option<Span>>,
    buffer: usize,
    dst: u64,
    data: &Vec<u8>,
)
    requires
        buffer < old(head)@.len(),
        buffer < old(tail)@.len(),
        dst + data@.len() <= u64::MAX,
    ensures
        ({
            let w = SpanView { buffer: buffer as int, offset: dst as int, data: data@ };
            &&& span_views(final(head)@) == kept_first(span_views(old(head)@), w)
            &&& span_views(final(tail)@) == kept_last(span_views(old(tail)@), w)
        }),
{
    let ghost h = span_views(head@);
    let ghost t = span_views(tail@);
    let ghost w = SpanView { buffer: buffer as int, offset: dst as int, data: data@ };
    let len: usize = data.len();
    let capped: usize = if len < SAMPLE { len } else { SAMPLE };
    let keep: usize = capped / 4 * 4;
    if keep == 0 {
        return;
    }
    if head[buffer].is_none() {
        assert(h[buffer as int] is None);
        let first = copy_range(data, 0, keep);
        assert(first@ =~= data@.take(keep as int));
        head[buffer] = Some(Span { buffer, offset: dst, data: first });
        assert(span_views(head@) =~= kept_first(h, w));
    } else {
        assert(h[buffer as int] is Some);
    }
    let off: usize = len - keep;
    let last = copy_range(data, off, len);
    assert(last@ =~= data@.skip(off as int));
    tail[buffer] = Some(Span { buffer, offset: dst + off as u64, data: last });
    assert(span_views(tail@) =~= kept_last(t, w));
}

/// The items of a plan, or the first tensor that is missing.
pub open spec fn items_of(h: HeaderView, handles: Seq<(Seq<char>, Handle)>) -> Result<
    Seq<ItemView>,
    ErrorView,
>
    decreases handles.len(),
{
    if handles.len() == 0 {
        Ok(Seq::empty())
    } else {
        match items_of(h, handles.drop_last()) {
            Err(e) => Err(e),
            Ok(v) => if tensor_named(h, handles.last().0) is None {
                Err(ErrorView::NoTensor(handles.last().0))
            } else {
                Ok(v.push(item_of(h, handles.last())))
            },
        }
    }
}

proof fn lemma_items_err(h: HeaderView, handles: Seq<(Seq<char>, Handle)>, k: int)
    requires
        0 <= k <= handles.len(),
    ensures
        items_of(h, handles.take(k)) is Err ==> items_of(h, handles) == items_of(
            h,
            handles.take(k),
        ),
    decreases handles.len() - k,
{
    if k < handles.len() {
        assert(handles.take(k + 1).drop_last() =~= handles.take(k));
        lemma_items_err(h, handles, k + 1);
    } else {
        assert(handles.take(k) =~= handles);
    }
}

/// A plan that can be streamed: its tensors fit their words and its handles name
/// buffers.
pub open spec fn streamable(h: HeaderView, p: Plan) -> bool {
    &&& all_in_bounds(h, u64::MAX as int)
    &&& forall|i: int|
        0 <= i < p.handles@.len() ==> (#[trigger] p.handles@[i]).1.buffer < p.buffer_sizes@.len()
    &&& forall|i: int|
        0 <= i < p.handles@.len() ==> tensor_gpu_size(
            tensor_named(h, (#[trigger] p.handles@[i]).0@)->0,
        ) <= usize::MAX
    &&& forall|i: int|
        0 <= i < p.handles@.len() ==> start_of((#[trigger] p.handles@[i]).1) + tensor_gpu_size(
            tensor_named(h, p.handles@[i].0@)->0,
        ) <= u64::MAX
    &&& items_of(h, handle_views(p.handles@)) is Ok ==> size_sum(
        items_of(h, handle_views(p.handles@))->Ok_0,
    ) <= u64::MAX
}

fn empty_spans(n: usize) -> (v: Vec<Option<Span>>)
    ensures
        span_views(v@) == Seq::new(n as nat, |i: int| None::<SpanView>),
{
    let mut v: Vec<Option<Span>> = Vec::new();
    let mut i: usize = 0;
    while i < n
        invariant
            i <= n,
            v@.len() == i,
            span_views(v@) == Seq::new(i as nat, |i: int| None::<SpanView>),
        decreases n - i,
    {
        let ghost before = span_views(v@);
        v.push(None);
        assert(span_views(v@) =~= before.push(None));
        i = i + 1;
        assert(span_views(v@) =~= Seq::new(i as nat, |i: int| None::<SpanView>));
    }
    v
}

fn plan_items(h: &Header, plan: &Plan) -> (r: Result<Vec<Item>, UploadError>)
    requires
        h.wf(),
        streamable(h@, *plan),
    ensures
        match (r, items_of(h@, handle_views(plan.handles@))) {
            (Ok(v), Ok(w)) => {
                &&& item_views(v@) == w
                &&& forall|i: int| 0 <= i < v@.len() ==> (#[trigger] v@[i])@.wf()
                &&& forall|i: int|
                    0 <= i < v@.len() ==> (#[trigger] v@[i]).buffer < plan.buffer_sizes@.len()
            },
            (Err(e), Err(f)) => e@ == UploadErrorView::Gguf(f),
            _ => false,
        },
{
    let ghost all = handle_views(plan.handles@);
    let mut v: Vec<Item> = Vec::new();
    let mut i: usize = 0;
    assert(all.take(0) =~= Seq::empty());
    assert(item_views(v@) =~= Seq::empty());
    while i < plan.handles.len()
        invariant
            i <= plan.handles@.len(),
            h.wf(),
            streamable(h@, *plan),
            all == handle_views(plan.handles@),
            v@.len() == i,
            items_of(h@, all.take(i as int)) == Ok::<Seq<ItemView>, ErrorView>(item_views(v@)),
            forall|k: int| 0 <= k < v@.len() ==> (#[trigger] v@[k])@.wf(),
            forall|k: int|
                0 <= k < v@.len() ==> (#[trigger] v@[k]).buffer < plan.buffer_sizes@.len(),
        decreases plan.handles@.len() - i,
    {
        let entry = &plan.handles[i];
        let ghost before = item_views(v@);
        proof {
            assert(all.take(i + 1).drop_last() =~= all.take(i as int));
            assert(all.take(i + 1).last() == (entry.0@, entry.1));
        }
        let t = match h.info(entry.0.as_str()) {
            Ok(t) => t,
            Err(e) => {
                proof {
                    assert(tensor_named(h@, entry.0@) is None);
                    lemma_items_err(h@, all, i + 1);
                }
                return Err(UploadError::Gguf(e));
            },
        };
        proof {
            lemma_named(h@, entry.0@, t@);
            item_size_is_tensor_size(h@, (entry.0@, entry.1));
            let j = choose|j: int|
                #[trigger] crate::header::is_index_of(h@.tensors, entry.0@, j) && t@
                    == h@.tensors[j];
            assert(!crate::header::out_of_bounds(h@.data_offset, h@.tensors[j], u64::MAX as int));
        }
        let (s, d) = block_strides(t.ty);
        let bytes: usize = t.byte_len();
        let (start, end) = h.byte_range(t);
        let item = Item {
            name: entry.0.clone(),
            ty: t.ty,
            buffer: entry.1.buffer,
            base: entry.1.base_u32 as u64 * 4,
            start,
            blocks: bytes / s,
        };
        proof {
            let b = item.blocks as int;
            assert(b * s <= bytes) by (nonlinear_arith)
                requires
                    b == bytes as int / s as int,
                    s > 0,
            ;
            assert(item@ == item_of(h@, (entry.0@, entry.1)));
        }
        v.push(item);
        assert(item_views(v@) =~= before.push(item_of(h@, (entry.0@, entry.1))));
        i = i + 1;
    }
    assert(all.take(i as int) =~= all);
    Ok(v)
}

/// The device sizes of the items, summed.
fn total_size(items: &Vec<Item>) -> (r: u64)
    requires
        forall|i: int| 0 <= i < items@.len() ==> (#[trigger] items@[i])@.wf(),
        size_sum(item_views(items@)) <= u64::MAX,
    ensures
        r == size_sum(item_views(items@)),
{
    let ghost views = item_views(items@);
    let mut total: u64 = 0;
    let mut i: usize = 0;
    assert(views.take(0) =~= Seq::empty());
    while i < items.len()
        invariant
            i <= items@.len(),
            views == item_views(items@),
            forall|k: int| 0 <= k < items@.len() ==> (#[trigger] items@[k])@.wf(),
            size_sum(views) <= u64::MAX,
            total == size_sum(views.take(i as int)),
        decreases items@.len() - i,
    {
        let it = &items[i];
        proof {
            assert(it@.wf());
            assert forall|k: int| 0 <= k < views.len() implies (#[trigger] views[k]).blocks >= 0 by {
                assert(views[k] == items@[k]@);
            }
            assert(views[i as int] == it@);
            lemma_size_sum(views, i as int);
            lemma_size_sum(views, i + 1);
            let (b, d) = (it.blocks as int, strides(it.ty).1);
            assert(0 <= b * d) by (nonlinear_arith)
                requires
                    0 <= b,
                    0 <= d,
            ;
        }
        let (s, d) = block_strides(it.ty);
        total = total + (it.blocks * d) as u64;
        i = i + 1;
    }
    assert(views.take(i as int) =~= views);
    total
}

impl Stream {
    /// Start moving the tensors of a plan.
    pub fn new(h: &Header, plan: &Plan) -> (r: Result<Stream, UploadError>)
        requires
            h.wf(),
            streamable(h@, *plan),
        ensures
            match (r, items_of(h@, handle_views(plan.handles@))) {
                (Ok(s), Ok(items)) => {
                    &&& s@.wf()
                    &&& s@ == begun(items, plan.buffer_sizes@.len())
                },
                (Err(e), Err(f)) => e@ == UploadErrorView::Gguf(f),
                _ => false,
            },
    {
        let items = plan_items(h, plan)?;
        let n: usize = plan.buffer_sizes.len();
        let ghost views = item_views(items@);
        assert forall|i: int| 0 <= i < views.len() implies (#[trigger] views[i]).wf() by {
            assert(views[i] == items@[i]@);
            assert(items@[i]@.wf());
        }
        assert forall|i: int| 0 <= i < views.len() implies (#[trigger] views[i]).buffer < n by {
            assert(views[i] == items@[i]@);
            assert(items@[i].buffer < n);
        }
        assert forall|i: int| 0 <= i < views.len() implies (#[trigger] views[i]).blocks >= 0
            && views[i].buffer >= 0 by {
            assert(views[i] == items@[i]@);
        }
        let total: u64 = total_size(&items);
        let at: usize = skip_empty(&items, 0);
        proof {
            lemma_skipped(views, 0);
            assert(views.take(0) =~= Seq::empty());
        }
        Ok(Stream { items, at, block: 0, done: 0, total, head: empty_spans(n), tail: empty_spans(n) })
    }

    /// Which bytes of the file to read next; `None` when everything has moved.
    pub fn next(&self) -> (r: Option<Piece>)
        requires
            self@.wf(),
        ensures
            match r {
                None => self.at == self.items@.len(),
                Some(p) => {
                    &&& self.at < self.items@.len()
                    &&& p.item == self.at
                    &&& p.blocks == self@.count()
                    &&& p.blocks > 0
                    &&& p.from == self@.from()
                    &&& p.to == self@.from() + self@.wanted()
                },
            },
    {
        if self.at >= self.items.len() {
            return None;
        }
        let it = &self.items[self.at];
        assert(self@.items[self.at as int] == it@);
        assert(it@.wf());
        let (s, d) = block_strides(it.ty);
        let left: usize = it.blocks - self.block;
        let most: usize = CHUNK / d;
        let n: usize = if most < left { most } else { left };
        proof {
            lemma_chunk(d as int);
            lemma_block_bounds(self.block as int, n as int, it.blocks as int, s as int);
        }
        let from: u64 = it.start + (self.block * s) as u64;
        Some(Piece { item: self.at, blocks: n, from, to: from + (n * s) as u64 })
    }

    /// Take the bytes that were asked for and say what to write where.
    #[verifier::rlimit(40)]
    #[verifier::spinoff_prover]
    pub fn accept(&mut self, bytes: &[u8]) -> (r: Result<Span, UploadError>)
        requires
            old(self)@.wf(),
            old(self).at < old(self).items@.len(),
        ensures
            final(self)@.wf(),
            if bytes@.len() != old(self)@.wanted() {
                &&& r matches Err(e)
                &&& e@ == (UploadErrorView::ShortRead {
                    name: old(self)@.items[old(self)@.at].name,
                    wanted: old(self)@.wanted(),
                    got: bytes@.len() as int,
                })
                &&& *final(self) == *old(self)
            } else {
                &&& r matches Ok(w)
                &&& w@ == old(self)@.write_of(bytes@)
                &&& final(self)@ == old(self)@.stepped(bytes@)
            },
    {
        let ghost before = self@;
        let count: usize = self.items.len();
        let it = &self.items[self.at];
        assert(before.items[before.at] == it@);
        assert(it@.wf());
        let ty = it.ty;
        let buffer: usize = it.buffer;
        let blocks: usize = it.blocks;
        let (s, d) = block_strides(ty);
        let left: usize = blocks - self.block;
        let most: usize = CHUNK / d;
        let n: usize = if most < left { most } else { left };
        proof {
            lemma_block_bounds(self.block as int, n as int, blocks as int, s as int);
            lemma_block_bounds(self.block as int, n as int, blocks as int, d as int);
        }
        let wanted: usize = n * s;
        if bytes.len() != wanted {
            return Err(
                UploadError::ShortRead { name: it.name.clone(), wanted, got: bytes.len() },
            );
        }
        let dst: u64 = it.base + (self.block * d) as u64;
        let data = encode(ty, bytes, n);
        let len: usize = data.len();
        assert(before.items[before.at].buffer == buffer);
        keep_samples(&mut self.head, &mut self.tail, buffer, dst, &data);
        proof {
            lemma_stepped(before, bytes@);
        }
        self.done = self.done + len as u64;
        let block: usize = self.block + n;
        if block < blocks {
            self.block = block;
        } else {
            self.block = 0;
            self.at = skip_empty(&self.items, self.at + 1);
        }
        assert(self@ =~= before.stepped(bytes@));
        Ok(Span { buffer, offset: dst, data })
    }

    /// The places to read back and what they should hold: the first and last bytes of
    /// each buffer. An upload that did not write every tensor's bytes is refused; the
    /// gaps that align tensors belong to none.
    pub fn finish(self) -> (r: Result<Vec<Span>, UploadError>)
        requires
            self@.wf(),
        ensures
            if self.at < self.items@.len() {
                r matches Err(e) && e@ == (UploadErrorView::Accounting {
                    wrote: self@.done,
                    planned: size_sum(self@.items),
                })
            } else {
                r matches Ok(v) && v@.map_values(|x: Span| x@) == samples(
                    self@.head,
                    self@.tail,
                    self@.head.len() as int,
                )
            },
    {
        let ghost view = self@;
        proof {
            if view.at < view.items.len() {
                lemma_unfinished(view);
            } else {
                assert(view.items.take(view.at) =~= view.items);
            }
        }
        if self.done != self.total {
            return Err(UploadError::Accounting { wrote: self.done, planned: self.total });
        }
        let n: usize = self.head.len();
        let mut out: Vec<Span> = Vec::new();
        let mut i: usize = 0;
        assert(out@.map_values(|x: Span| x@) =~= samples(view.head, view.tail, 0));
        while i < n
            invariant
                i <= n,
                view == self@,
                n == self.head@.len(),
                n == self.tail@.len(),
                out@.map_values(|x: Span| x@) == samples(view.head, view.tail, i as int),
            decreases n - i,
        {
            let ghost before = out@.map_values(|x: Span| x@);
            match &self.head[i] {
                Some(s) => {
                    assert(view.head[i as int] == Some(s@));
                    out.push(copy_span(s));
                    assert(out@.map_values(|x: Span| x@) =~= before.push(s@));
                },
                None => {
                    assert(view.head[i as int] is None);
                },
            }
            let ghost mid = out@.map_values(|x: Span| x@);
            match &self.tail[i] {
                Some(s) => {
                    assert(view.tail[i as int] == Some(s@));
                    out.push(copy_span(s));
                    assert(out@.map_values(|x: Span| x@) =~= mid.push(s@));
                },
                None => {
                    assert(view.tail[i as int] is None);
                },
            }
            i = i + 1;
        }
        Ok(out)
    }
}

/// The samples of the first `n` buffers, first bytes before last bytes.
pub open spec fn samples(
    head: Seq<Option<SpanView>>,
    tail: Seq<Option<SpanView>>,
    n: int,
) -> Seq<SpanView>
    decreases n,
{
    if n <= 0 {
        Seq::empty()
    } else {
        let a = samples(head, tail, n - 1);
        let b = match head[n - 1] {
            Some(s) => a.push(s),
            None => a,
        };
        match tail[n - 1] {
            Some(s) => b.push(s),
            None => b,
        }
    }
}

/// Check what was read back of a buffer against what was written there. A driver
/// under memory pressure can drop staged writes without raising anything.
pub fn check_span(expect: &Span, got: &[u8]) -> (r: Result<(), UploadError>)
    ensures
        if got@ == expect.data@ {
            r is Ok
        } else {
            r matches Err(e) && e@ == (UploadErrorView::Verification {
                buffer: expect.buffer as int,
                offset: expect.offset as int,
            })
        },
{
    if bytes_eq(got, expect.data.as_slice()) {
        Ok(())
    } else {
        Err(UploadError::Verification { buffer: expect.buffer, offset: expect.offset })
    }
}

fn bytes_eq(a: &[u8], b: &[u8]) -> (r: bool)
    ensures
        r == (a@ == b@),
{
    if a.len() != b.len() {
        return false;
    }
    let mut i: usize = 0;
    while i < a.len()
        invariant
            i <= a@.len(),
            a@.len() == b@.len(),
            forall|j: int| 0 <= j < i ==> a@[j] == b@[j],
        decreases a@.len() - i,
    {
        if a[i] != b[i] {
            return false;
        }
        i = i + 1;
    }
    assert(a@ =~= b@);
    true
}

fn copy_range(v: &Vec<u8>, from: usize, to: usize) -> (r: Vec<u8>)
    requires
        from <= to <= v@.len(),
    ensures
        r@ == v@.subrange(from as int, to as int),
{
    let mut r: Vec<u8> = Vec::new();
    let mut i: usize = from;
    while i < to
        invariant
            from <= i <= to,
            to <= v@.len(),
            r@ == v@.subrange(from as int, i as int),
        decreases to - i,
    {
        r.push(v[i]);
        i = i + 1;
        assert(r@ =~= v@.subrange(from as int, i as int));
    }
    r
}

fn copy_span(s: &Span) -> (r: Span)
    ensures
        r@ == s@,
{
    let data = copy_range(&s.data, 0, s.data.len());
    assert(data@ =~= s.data@);
    Span { buffer: s.buffer, offset: s.offset, data }
}

fn skip_empty(items: &Vec<Item>, at: usize) -> (r: usize)
    requires
        at <= items@.len(),
    ensures
        r == next_item(item_views(items@), at as int),
        r <= items@.len(),
{
    let mut i: usize = at;
    while i < items.len() && items[i].blocks == 0
        invariant
            at <= i <= items@.len(),
            next_item(item_views(items@), at as int) == next_item(item_views(items@), i as int),
        decreases items@.len() - i,
    {
        assert(item_views(items@)[i as int] == items@[i as int]@);
        i = i + 1;
    }
    assert(i < items@.len() ==> item_views(items@)[i as int] == items@[i as int]@);
    i
}

/// Items without blocks have no size, so skipping them changes no sum.
proof fn lemma_skipped(items: Seq<ItemView>, at: int)
    requires
        0 <= at <= items.len(),
        forall|i: int| 0 <= i < items.len() ==> (#[trigger] items[i]).blocks >= 0,
    ensures
        at <= next_item(items, at) <= items.len(),
        size_sum(items.take(next_item(items, at))) == size_sum(items.take(at)),
        next_item(items, at) < items.len() ==> items[next_item(items, at)].blocks > 0,
    decreases items.len() - at,
{
    if at < items.len() && items[at].blocks == 0 {
        lemma_size_sum(items, at);
        lemma_skipped(items, at + 1);
    }
}

/// A step keeps an upload well formed.
#[verifier::spinoff_prover]
#[verifier::rlimit(40)]
proof fn lemma_stepped(s: StreamView, bytes: Seq<u8>)
    requires
        s.wf(),
        s.at < s.items.len(),
        bytes.len() == s.wanted(),
    ensures
        s.stepped(bytes).wf(),
        s.stepped(bytes).done <= u64::MAX,
        s.write_of(bytes).data.len() == s.count() * strides(s.items[s.at].ty).1,
{
    let it = s.items[s.at];
    let (a, d) = strides(it.ty);
    let n = s.count();
    lemma_chunk(d);
    assert(0 <= n * a && n * a / a == n) by (nonlinear_arith)
        requires
            n >= 0,
            a > 0,
    ;
    let t = s.stepped(bytes);
    let block = s.block + n;
    assert((s.block + n) * d == s.block * d + n * d) by (nonlinear_arith);
    lemma_size_sum(s.items, s.at);
    lemma_size_sum(s.items, s.at + 1);
    if block >= it.blocks {
        assert(block == it.blocks);
        lemma_skipped(s.items, s.at + 1);
    } else {
        lemma_block_bounds(block, it.blocks - block, it.blocks, d);
    }
    assert(t.head.len() == s.head.len() && t.tail.len() == s.tail.len());
}

/// A chunk holds at least one block.
proof fn lemma_chunk(d: int)
    requires
        0 < d <= 224,
    ensures
        CHUNK as int / d > 0,
{
    assert(33_554_432int / d > 0) by (nonlinear_arith)
        requires
            0 < d <= 224,
    ;
}

/// A run of `n` blocks from `block` on stays within the tensor.
proof fn lemma_block_bounds(block: int, n: int, blocks: int, stride: int)
    requires
        0 <= block,
        0 <= n,
        block + n <= blocks,
        stride > 0,
    ensures
        0 <= block * stride,
        0 <= n * stride,
        block * stride + n * stride <= blocks * stride,
{
    assert(0 <= block * stride && 0 <= n * stride && block * stride + n * stride <= blocks
        * stride) by (nonlinear_arith)
        requires
            0 <= block,
            0 <= n,
            block + n <= blocks,
            stride > 0,
    ;
}

fn zero_bytes(n: usize) -> (v: Vec<u8>)
    ensures
        v@ == zeros(n as nat),
{
    let mut v: Vec<u8> = Vec::new();
    let mut i: usize = 0;
    while i < n
        invariant
            i <= n,
            v@ == zeros(i as nat),
        decreases n - i,
    {
        v.push(0);
        i = i + 1;
        assert(v@ =~= zeros(i as nat));
    }
    v
}

/// `n` blocks, as the device wants them.
fn encode(ty: GgmlType, bytes: &[u8], n: usize) -> (r: Vec<u8>)
    requires
        bytes@.len() == n * strides(ty).0,
        n * strides(ty).1 <= usize::MAX,
    ensures
        r@ == encoded(ty, bytes@),
        r@.len() == n * strides(ty).1,
{
    let (s, d) = block_strides(ty);
    let ghost k = n as int;
    assert(k * s / s as int == k) by (nonlinear_arith)
        requires
            s > 0,
    ;
    assert(0 <= n * d) by (nonlinear_arith);
    let mut out = zero_bytes(n * d);
    let len: usize = bytes.len();
    encode_blocks(ty, bytes, out.as_mut_slice());
    assert(out@ =~= encoded(ty, bytes@));
    out
}

// ---------------------------------------------------------------------------
// Mapped upload
// ---------------------------------------------------------------------------
/// `img` with `data` at `at`.
pub open spec fn overlaid(img: Seq<u8>, at: int, data: Seq<u8>) -> Seq<u8> {
    Seq::new(
        img.len(),
        |i: int|
            if at <= i < at + data.len() {
                data[i - at]
            } else {
                img[i]
            },
    )
}

/// The size of a buffer on the device; none is empty.
pub open spec fn buffer_len(size: u64) -> int {
    if size < 4 {
        4
    } else {
        size as int
    }
}

/// The bytes of buffer `b` with the tensors of the first `k` handles in place.
pub open spec fn image_to(g: Gguf, p: Plan, b: int, k: int) -> Seq<u8>
    decreases k,
{
    if k <= 0 {
        zeros(buffer_len(p.buffer_sizes@[b]) as nat)
    } else {
        let before = image_to(g, p, b, k - 1);
        let e = p.handles@[k - 1];
        if e.1.buffer == b {
            let t = tensor_named(g.header@, e.0@)->0;
            overlaid(before, start_of(e.1), encoded(t.ty, g.data_of(t)))
        } else {
            before
        }
    }
}

/// The first of the first `k` handles of buffer `b` whose tensor is missing.
pub open spec fn missing_in(g: Gguf, p: Plan, b: int, k: int) -> Option<Seq<char>>
    decreases k,
{
    if k <= 0 {
        None
    } else if missing_in(g, p, b, k - 1) is Some {
        missing_in(g, p, b, k - 1)
    } else if p.handles@[k - 1].1.buffer == b && tensor_named(
        g.header@,
        p.handles@[k - 1].0@,
    ) is None {
        Some(p.handles@[k - 1].0@)
    } else {
        None
    }
}

proof fn lemma_missing(g: Gguf, p: Plan, b: int, k: int, n: int)
    requires
        0 <= k <= n,
        missing_in(g, p, b, k) is Some,
    ensures
        missing_in(g, p, b, n) == missing_in(g, p, b, k),
    decreases n - k,
{
    if k < n {
        lemma_missing(g, p, b, k, n - 1);
    }
}

fn overlay(img: &mut Vec<u8>, at: usize, data: &Vec<u8>)
    requires
        at + data@.len() <= old(img)@.len(),
    ensures
        final(img)@ == overlaid(old(img)@, at as int, data@),
{
    let ghost before = img@;
    let n: usize = data.len();
    let len: usize = img.len();
    let mut i: usize = 0;
    while i < n
        invariant
            i <= n,
            n == data@.len(),
            len == img@.len(),
            len == before.len(),
            at + n <= len,
            img@ == overlaid(before, at as int, data@.take(i as int)),
        decreases n - i,
    {
        img[at + i] = data[i];
        i = i + 1;
        assert(img@ =~= overlaid(before, at as int, data@.take(i as int)));
    }
    assert(data@.take(n as int) =~= data@);
    assert(img@ =~= overlaid(before, at as int, data@));
}

/// The bytes of buffer `b`: its tensors in place, repacked, and zeros between.
pub fn fill_buffer(g: &Gguf, plan: &Plan, b: usize) -> (r: Result<Vec<u8>, Error>)
    requires
        g.wf(),
        b < plan.buffer_sizes@.len(),
        buffer_len(plan.buffer_sizes@[b as int]) <= usize::MAX,
        forall|i: int|
            0 <= i < plan.handles@.len() && (#[trigger] plan.handles@[i]).1.buffer == b
                && tensor_named(g.header@, plan.handles@[i].0@) is Some ==> start_of(
                plan.handles@[i].1,
            ) + tensor_gpu_size(tensor_named(g.header@, plan.handles@[i].0@)->0)
                <= plan.buffer_sizes@[b as int],
    ensures
        match missing_in(*g, *plan, b as int, plan.handles@.len() as int) {
            Some(name) => r matches Err(e) && e@ == ErrorView::NoTensor(name),
            None => r matches Ok(v) && v@ == image_to(
                *g,
                *plan,
                b as int,
                plan.handles@.len() as int,
            ),
        },
{
    let size: u64 = plan.buffer_sizes[b];
    let len: usize = if size < 4 { 4 } else { size as usize };
    let mut img = zero_bytes(len);
    let mut k: usize = 0;
    while k < plan.handles.len()
        invariant
            k <= plan.handles@.len(),
            g.wf(),
            b < plan.buffer_sizes@.len(),
            size == plan.buffer_sizes@[b as int],
            img@.len() == len,
            len == buffer_len(size),
            forall|i: int|
                0 <= i < plan.handles@.len() && (#[trigger] plan.handles@[i]).1.buffer == b
                    && tensor_named(g.header@, plan.handles@[i].0@) is Some ==> start_of(
                    plan.handles@[i].1,
                ) + tensor_gpu_size(tensor_named(g.header@, plan.handles@[i].0@)->0) <= size,
            missing_in(*g, *plan, b as int, k as int) is None,
            img@ == image_to(*g, *plan, b as int, k as int),
        decreases plan.handles@.len() - k,
    {
        let entry = &plan.handles[k];
        if entry.1.buffer == b {
            match g.tensor(entry.0.as_str()) {
                Err(e) => {
                    proof {
                        assert(tensor_named(g.header@, entry.0@) is None);
                        lemma_missing(
                            *g,
                            *plan,
                            b as int,
                            k + 1,
                            plan.handles@.len() as int,
                        );
                    }
                    return Err(e);
                },
                Ok(t) => {
                    proof {
                        lemma_named(g.header@, entry.0@, t.info@);
                        item_size_is_tensor_size(g.header@, (entry.0@, entry.1));
                        let ii = choose|ii: int|
                            #[trigger] crate::header::is_index_of(
                                g.header@.tensors,
                                entry.0@,
                                ii,
                            ) && t.info@ == g.header@.tensors[ii];
                        assert(!crate::header::out_of_bounds(
                            g.header@.data_offset,
                            g.header@.tensors[ii],
                            g.mmap@.len() as int,
                        ));
                        lemma_whole_blocks(t.info@);
                    }
                    let ty = t.info.ty;
                    let (s, d) = block_strides(ty);
                    let n: usize = t.data.len() / s;
                    let data = encode(ty, t.data, n);
                    overlay(&mut img, entry.1.base_u32 as usize * 4, &data);
                },
            }
        }
        k = k + 1;
    }
    Ok(img)
}

/// A tensor is a whole number of blocks.
proof fn lemma_whole_blocks(t: TensorInfoView)
    ensures
        t.bytes() == t.bytes() as int / strides(t.ty).0 * strides(t.ty).0,
{
    let n = t.elems() as int;
    if t.ty == GgmlType::Q6K {
        assert(t.bytes() == n / 256 * 210);
    } else if t.ty == GgmlType::Q4K {
        assert(t.bytes() == n / 256 * 144);
    } else if t.ty == GgmlType::Q8_0 {
        assert(t.bytes() == n / 32 * 34);
    } else {
        let b = t.bytes() as int;
        assert(strides(t.ty) == (1int, 1int));
        assert(b / 1 == b && b * 1 == b);
    }
}

/// What the first and last bytes of a filled buffer should read back as.
pub open spec fn ends(buffer: int, img: Seq<u8>) -> Seq<SpanView> {
    let n = at_most(img.len() as int, SAMPLE as int);
    let head = SpanView { buffer, offset: 0, data: img.take(n) };
    if img.len() > n {
        seq![head, SpanView { buffer, offset: img.len() - n, data: img.skip(img.len() - n) }]
    } else {
        seq![head]
    }
}

/// What the first and last bytes of a filled buffer should read back as.
pub fn spans(buffer: usize, img: &Vec<u8>) -> (v: Vec<Span>)
    ensures
        v@.map_values(|x: Span| x@) == ends(buffer as int, img@),
{
    let len: usize = img.len();
    let n: usize = if len < SAMPLE { len } else { SAMPLE };
    let mut v: Vec<Span> = Vec::new();
    let first = copy_range(img, 0, n);
    assert(first@ =~= img@.take(n as int));
    v.push(Span { buffer, offset: 0, data: first });
    if len > n {
        let off: usize = len - n;
        let last = copy_range(img, off, len);
        assert(last@ =~= img@.skip(off as int));
        v.push(Span { buffer, offset: off as u64, data: last });
    }
    assert(v@.map_values(|x: Span| x@) =~= ends(buffer as int, img@));
    v
}

// ---------------------------------------------------------------------------
// What an upload leaves on the device
// ---------------------------------------------------------------------------
/// The upload and the buffers after `n` more pieces, each read from `file` and written
/// where the upload says.
pub open spec fn streamed(s: StreamView, file: Seq<u8>, bufs: Seq<Seq<u8>>, n: nat) -> (
    StreamView,
    Seq<Seq<u8>>,
)
    decreases n,
{
    if n == 0 {
        (s, bufs)
    } else {
        let (t, b) = streamed(s, file, bufs, (n - 1) as nat);
        if t.at >= t.items.len() {
            (t, b)
        } else {
            let bytes = file.subrange(t.from(), t.from() + t.wanted());
            let w = t.write_of(bytes);
            (t.stepped(bytes), b.update(w.buffer, overlaid(b[w.buffer], w.offset, w.data)))
        }
    }
}

/// The first `m` blocks of a tensor are in place.
pub open spec fn placed(it: ItemView, file: Seq<u8>, bufs: Seq<Seq<u8>>, m: int) -> bool {
    let (a, d) = strides(it.ty);
    bufs[it.buffer].subrange(it.base, it.base + m * d) == encoded(
        it.ty,
        file.subrange(it.start, it.start + m * a),
    )
}

/// A tensor lies within the file and within its buffer.
pub open spec fn lies_within(it: ItemView, file: Seq<u8>, bufs: Seq<Seq<u8>>) -> bool {
    let (a, d) = strides(it.ty);
    &&& 0 <= it.start
    &&& it.start + it.blocks * a <= file.len()
    &&& 0 <= it.base
    &&& 0 <= it.buffer < bufs.len()
    &&& it.base + it.blocks * d <= bufs[it.buffer].len()
}

/// Two tensors share no byte of a buffer.
pub open spec fn disjoint(x: ItemView, y: ItemView) -> bool {
    x.buffer == y.buffer ==> x.base + x.size() <= y.base || y.base + y.size() <= x.base
}

/// All tensors lie within the file and their buffers, and apart from each other.
pub open spec fn laid_out(items: Seq<ItemView>, file: Seq<u8>, bufs: Seq<Seq<u8>>) -> bool {
    &&& forall|i: int| 0 <= i < items.len() ==> lies_within(#[trigger] items[i], file, bufs)
    &&& forall|i: int, j: int|
        0 <= i < j < items.len() ==> disjoint(#[trigger] items[i], #[trigger] items[j])
}

/// How many blocks of item `i` are behind.
pub open spec fn behind(s: StreamView, i: int) -> int {
    if i < s.at {
        s.items[i].blocks
    } else if i == s.at {
        s.block
    } else {
        0
    }
}

/// All that is behind is in place.
pub open spec fn in_place(s: StreamView, file: Seq<u8>, bufs: Seq<Seq<u8>>) -> bool {
    forall|i: int|
        0 <= i < s.items.len() ==> placed(#[trigger] s.items[i], file, bufs, behind(s, i))
}

proof fn lemma_skipped_empty(items: Seq<ItemView>, at: int, i: int)
    requires
        0 <= at <= i < next_item(items, at),
    ensures
        i < items.len(),
        items[i].blocks == 0,
    decreases items.len() - at,
{
    if at < items.len() && items[at].blocks == 0 && at < i {
        lemma_skipped_empty(items, at + 1, i);
    }
}

proof fn lemma_nothing_placed(it: ItemView, file: Seq<u8>, bufs: Seq<Seq<u8>>)
    requires
        lies_within(it, file, bufs),
        it.blocks >= 0,
    ensures
        placed(it, file, bufs, 0),
{
    let (a, d) = strides(it.ty);
    assert(0 * a == 0 && 0 * d == 0 && 0 <= it.blocks * a && 0 <= it.blocks * d)
        by (nonlinear_arith)
        requires
            it.blocks >= 0,
            a > 0,
            d > 0,
    ;
    let none = file.subrange(it.start, it.start);
    assert(none.len() == 0);
    assert(0int / a * d == 0) by (nonlinear_arith)
        requires
            a > 0,
    ;
    assert(encoded(it.ty, none) =~= Seq::empty());
    assert(bufs[it.buffer].subrange(it.base, it.base) =~= Seq::empty());
}

/// A piece extends what is in place of its tensor and leaves the others alone.
proof fn lemma_piece_placed(s: StreamView, file: Seq<u8>, bufs: Seq<Seq<u8>>)
    requires
        s.wf(),
        s.at < s.items.len(),
        s.head.len() == bufs.len(),
        laid_out(s.items, file, bufs),
        in_place(s, file, bufs),
    ensures
        ({
            let bytes = file.subrange(s.from(), s.from() + s.wanted());
            let w = s.write_of(bytes);
            let b = bufs.update(w.buffer, overlaid(bufs[w.buffer], w.offset, w.data));
            &&& s.stepped(bytes).wf()
            &&& laid_out(s.items, file, b)
            &&& in_place(s.stepped(bytes), file, b)
            &&& s.done < s.stepped(bytes).done
        }),
{
    let it = s.items[s.at];
    let (a, d) = strides(it.ty);
    let n = s.count();
    lemma_chunk(d);
    lemma_block_bounds(s.block, n, it.blocks, a);
    lemma_block_bounds(s.block, n, it.blocks, d);
    assert(lies_within(it, file, bufs));
    let bytes = file.subrange(s.from(), s.from() + s.wanted());
    lemma_stepped(s, bytes);
    let t = s.stepped(bytes);
    let w = s.write_of(bytes);
    let old_buf = bufs[w.buffer];
    let new_buf = overlaid(old_buf, w.offset, w.data);
    let b = bufs.update(w.buffer, new_buf);
    assert(n * d > 0) by (nonlinear_arith)
        requires
            n > 0,
            d > 0,
    ;
    assert forall|i: int| 0 <= i < s.items.len() implies lies_within(
        #[trigger] s.items[i],
        file,
        b,
    ) by {
        assert(lies_within(s.items[i], file, bufs));
    }
    let front = file.subrange(it.start, s.from());
    assert((s.block * a) % a == 0 && (n * a) % a == 0) by (nonlinear_arith)
        requires
            a > 0,
    ;
    pieces_make_the_whole(it.ty, front, bytes);
    assert((s.block + n) * a == s.block * a + n * a && (s.block + n) * d == s.block * d + n * d)
        by (nonlinear_arith);
    assert(front + bytes =~= file.subrange(it.start, it.start + (s.block + n) * a));
    assert(placed(it, file, bufs, behind(s, s.at)));
    assert(new_buf.subrange(it.base, it.base + (s.block + n) * d) =~= old_buf.subrange(
        it.base,
        it.base + s.block * d,
    ) + w.data);
    assert(placed(it, file, b, s.block + n));
    assert forall|i: int| 0 <= i < t.items.len() implies placed(
        #[trigger] t.items[i],
        file,
        b,
        behind(t, i),
    ) by {
        let x = s.items[i];
        assert(lies_within(x, file, b) && lies_within(x, file, bufs));
        lemma_skipped(s.items, s.at + 1);
        if i == s.at {
            assert(behind(t, i) == s.block + n);
        } else {
            if s.at < i < t.at {
                lemma_skipped_empty(s.items, s.at + 1, i);
            }
            assert(behind(t, i) == behind(s, i));
            let m = behind(s, i);
            let (e, f) = strides(x.ty);
            assert(placed(x, file, bufs, m));
            assert(0 <= m <= x.blocks);
            assert(0 <= m * f <= x.blocks * f) by (nonlinear_arith)
                requires
                    0 <= m <= x.blocks,
                    f > 0,
            ;
            if i < s.at {
                assert(disjoint(s.items[i], s.items[s.at]));
            } else {
                assert(disjoint(s.items[s.at], s.items[i]));
            }
            if x.buffer == it.buffer {
                assert(new_buf.subrange(x.base, x.base + m * f) =~= old_buf.subrange(
                    x.base,
                    x.base + m * f,
                ));
            }
        }
    }
}

proof fn lemma_streamed(s: StreamView, file: Seq<u8>, bufs: Seq<Seq<u8>>, n: nat)
    requires
        s.wf(),
        s.head.len() == bufs.len(),
        laid_out(s.items, file, bufs),
        in_place(s, file, bufs),
    ensures
        ({
            let (t, b) = streamed(s, file, bufs, n);
            &&& t.wf()
            &&& t.items == s.items
            &&& t.total == s.total
            &&& t.head.len() == b.len() == bufs.len()
            &&& laid_out(s.items, file, b)
            &&& in_place(t, file, b)
            &&& t.at == t.items.len() || s.done + n <= t.done
        }),
    decreases n,
{
    if n > 0 {
        lemma_streamed(s, file, bufs, (n - 1) as nat);
        let (t, b) = streamed(s, file, bufs, (n - 1) as nat);
        if t.at < t.items.len() {
            lemma_piece_placed(t, file, b);
        }
    }
}

/// Moving tensors a piece at a time puts every one of them in its place, whole and
/// repacked. It takes no more pieces than there are bytes.
pub proof fn streaming_places_every_tensor(
    items: Seq<ItemView>,
    file: Seq<u8>,
    bufs: Seq<Seq<u8>>,
)
    requires
        begun(items, bufs.len()).wf(),
        laid_out(items, file, bufs),
    ensures
        ({
            let s = begun(items, bufs.len());
            let (t, b) = streamed(s, file, bufs, size_sum(items) as nat);
            &&& t.at == items.len()
            &&& forall|i: int|
                0 <= i < items.len() ==> placed(#[trigger] items[i], file, b, items[i].blocks)
        }),
{
    let s = begun(items, bufs.len());
    let n = size_sum(items) as nat;
    assert forall|i: int| 0 <= i < items.len() implies placed(
        #[trigger] items[i],
        file,
        bufs,
        behind(s, i),
    ) by {
        lemma_nothing_placed(items[i], file, bufs);
        if i < s.at {
            lemma_skipped_empty(items, 0, i);
        }
    }
    lemma_sum_nonneg(items);
    lemma_streamed(s, file, bufs, n);
    let (t, b) = streamed(s, file, bufs, n);
    if t.at < t.items.len() {
        lemma_unfinished(t);
    }
    assert forall|i: int| 0 <= i < items.len() implies placed(
        #[trigger] items[i],
        file,
        b,
        items[i].blocks,
    ) by {
        assert(placed(t.items[i], file, b, behind(t, i)));
    }
}

/// An upload that is not at its end has bytes left.
proof fn lemma_unfinished(s: StreamView)
    requires
        s.wf(),
        s.at < s.items.len(),
    ensures
        s.done < s.total,
{
    let it = s.items[s.at];
    let d = strides(it.ty).1;
    lemma_size_sum(s.items, s.at);
    lemma_size_sum(s.items, s.at + 1);
    assert(s.block * d < it.blocks * d) by (nonlinear_arith)
        requires
            s.block < it.blocks,
            d > 0,
    ;
}

proof fn lemma_items(h: HeaderView, handles: Seq<(Seq<char>, Handle)>)
    requires
        forall|i: int| 0 <= i < handles.len() ==> tensor_named(h, (#[trigger] handles[i]).0) is Some,
    ensures
        items_of(h, handles) matches Ok(v) && v.len() == handles.len() && forall|i: int|
            0 <= i < v.len() ==> #[trigger] v[i] == item_of(h, handles[i]),
    decreases handles.len(),
{
    if handles.len() > 0 {
        let front = handles.drop_last();
        assert forall|i: int| 0 <= i < front.len() implies tensor_named(
            h,
            (#[trigger] front[i]).0,
        ) is Some by {
            assert(front[i] == handles[i]);
        }
        lemma_items(h, front);
    }
}

proof fn lemma_packed_names(h: HeaderView, names: Seq<Seq<char>>, target: u64, i: int)
    requires
        pack(h, names, target) is Ok,
        0 <= i < names.len(),
    ensures
        tensor_named(h, names[i]) is Some,
    decreases names.len(),
{
    if i < names.len() - 1 {
        lemma_packed_names(h, names.drop_last(), target, i);
    }
}

/// An upload in pieces leaves on the device what the plan names: behind the place of
/// every tensor's handle stand the tensor's bytes of the file, repacked, as an upload
/// of the whole file would leave them. Whatever the buffers held before is of no
/// matter.
pub proof fn streaming_uploads_the_plan(
    h: HeaderView,
    names: Seq<Seq<char>>,
    target: u64,
    file: Seq<u8>,
    bufs: Seq<Seq<u8>>,
    i: int,
)
    requires
        target < 0x4_0000_0000,
        names.len() < usize::MAX,
        pack(h, names, target) matches Ok(p) && bufs.len() == p.buffer_sizes.len() && (forall|b: int|
            0 <= b < bufs.len() ==> (#[trigger] bufs[b]).len() >= p.buffer_sizes[b]) && (
        items_of(h, p.handles) matches Ok(items) ==> begun(items, bufs.len()).wf()),
        0 <= h.data_offset,
        all_in_bounds(h, file.len() as int),
        0 <= i < names.len(),
    ensures
        ({
            let p = pack(h, names, target)->Ok_0;
            let items = items_of(h, p.handles)->Ok_0;
            let t = tensor_named(h, names[i])->0;
            let start = h.data_offset + t.offset;
            let (end, b) = streamed(begun(items, bufs.len()), file, bufs, size_sum(items) as nat);
            &&& end.at == items.len()
            &&& p.handles[i].0 == names[i]
            &&& b[p.handles[i].1.buffer as int].subrange(
                start_of(p.handles[i].1),
                start_of(p.handles[i].1) + tensor_gpu_size(t),
            ) == encoded(t.ty, file.subrange(start, start + t.bytes()))
        }),
{
    let p = pack(h, names, target)->Ok_0;
    packing_is_sound(h, names, target);
    assert forall|k: int| 0 <= k < p.handles.len() implies tensor_named(
        h,
        (#[trigger] p.handles[k]).0,
    ) is Some by {
        lemma_packed_names(h, names, target, k);
        assert(p.handles[k].0 == names[k]);
    }
    lemma_items(h, p.handles);
    let items = items_of(h, p.handles)->Ok_0;
    let s = begun(items, bufs.len());
    assert forall|k: int| 0 <= k < items.len() implies lies_within(
        #[trigger] items[k],
        file,
        bufs,
    ) && items[k].blocks * strides(items[k].ty).0 == tensor_named(h, p.handles[k].0)->0.bytes() by {
        lemma_item_within(h, p.handles[k], file);
        item_size_is_tensor_size(h, p.handles[k]);
        assert(crate::gpu::arena::in_buffer(h, p, k));
        assert(s.items[k].blocks >= 0);
        let b = p.handles[k].1.buffer as int;
        assert(bufs[b].len() >= p.buffer_sizes[b]);
    }
    assert forall|k: int, l: int| 0 <= k < l < items.len() implies disjoint(
        #[trigger] items[k],
        #[trigger] items[l],
    ) by {
        item_size_is_tensor_size(h, p.handles[k]);
        item_size_is_tensor_size(h, p.handles[l]);
        assert(crate::gpu::arena::apart(h, p, k, l));
    }
    streaming_places_every_tensor(items, file, bufs);
    let (end, b) = streamed(s, file, bufs, size_sum(items) as nat);
    item_size_is_tensor_size(h, p.handles[i]);
    assert(p.handles[i].0 == names[i]);
    assert(lies_within(items[i], file, bufs));
    assert(placed(items[i], file, b, items[i].blocks));
}

/// A tensor is a whole number of blocks, and lies within a file that holds it.
#[verifier::spinoff_prover]
proof fn lemma_item_within(h: HeaderView, e: (Seq<char>, Handle), file: Seq<u8>)
    requires
        tensor_named(h, e.0) is Some,
        0 <= h.data_offset,
        all_in_bounds(h, file.len() as int),
    ensures
        ({
            let it = item_of(h, e);
            let t = tensor_named(h, e.0)->0;
            &&& it.blocks * strides(t.ty).0 == t.bytes()
            &&& it.start >= 0
            &&& it.start + t.bytes() <= file.len()
        }),
{
    let t = tensor_named(h, e.0)->0;
    let n = t.elems() as int;
    let j = choose|j: int| #[trigger] crate::header::is_index_of(h.tensors, e.0, j);
    assert(t == h.tensors[j]);
    assert(!crate::header::out_of_bounds(h.data_offset, h.tensors[j], file.len() as int));
    assert(h.data_offset + t.offset + t.bytes() <= file.len());
    if t.ty == GgmlType::Q6K {
        assert(t.bytes() == n / 256 * 210);
        assert((n / 256 * 210) / 210 == n / 256);
    } else if t.ty == GgmlType::Q4K {
        assert(t.bytes() == n / 256 * 144);
        assert((n / 256 * 144) / 144 == n / 256);
    } else if t.ty == GgmlType::Q8_0 {
        assert(t.bytes() == n / 32 * 34);
        assert((n / 32 * 34) / 34 == n / 32);
    } else {
        let b = t.bytes() as int;
        assert(strides(t.ty) == (1int, 1int));
        assert(b / 1 == b && b * 1 == b);
    }
}

// ---------------------------------------------------------------------------
// Words about the device
// ---------------------------------------------------------------------------
/// What to call an adapter: its name; where it withholds that, what its driver
/// says; where that is silent too, the interface.
pub open spec fn adapter_words(
    name: Seq<char>,
    driver: Seq<char>,
    info: Seq<char>,
    backend: Seq<char>,
    browser: bool,
) -> Seq<char> {
    if name.len() > 0 {
        name
    } else if driver.len() > 0 && info.len() > 0 {
        driver + seq![' '] + info
    } else if driver.len() > 0 {
        driver
    } else if info.len() > 0 {
        info
    } else if browser {
        "WebGPU"@
    } else {
        backend + " adapter"@
    }
}

/// What to call an adapter.
pub fn adapter_name(name: &str, driver: &str, info: &str, backend: &str, browser: bool) -> (r:
    String)
    ensures
        r@ == adapter_words(name@, driver@, info@, backend@, browser),
{
    if !is_empty(name) {
        return name.to_owned();
    }
    if is_empty(driver) && is_empty(info) {
        if browser {
            return "WebGPU".to_owned();
        }
        let mut s = backend.to_owned();
        s.push_str(" adapter");
        return s;
    }
    let mut s = driver.to_owned();
    if !is_empty(driver) && !is_empty(info) {
        s.push(' ');
    }
    s.push_str(info);
    assert(s@ =~= adapter_words(name@, driver@, info@, backend@, browser));
    s
}

fn is_empty(s: &str) -> (r: bool)
    ensures
        r == (s@.len() == 0),
{
    let c = text::chars_of(s);
    c.len() == 0
}

} // verus!
