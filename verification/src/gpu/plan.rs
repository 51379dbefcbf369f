//! Dispatch plans as plain data.
//!
//! A pass over a batch is a list of [`Dispatch`]es. Each selects one 256-byte
//! uniform slot by its byte offset; several dispatches may share a slot. Decode
//! reuses a plan across tokens, so what varies with position is filled in when
//! the slots are written out rather than when the plan is made.

use crate::gguf::{Error, ErrorView, GgmlType};
use crate::gpu::arena::{tensor_named, Handle};
use crate::gpu::grid::{self, cell_groups, matvec_kernel, row_grid, token_grid, Kernel};
use crate::header::{Header, HeaderView};
use crate::text;
use vstd::hash_map::StringHashMap;
use vstd::prelude::*;

verus! {

/// Uniform slots are padded to the alignment dynamic offsets require.
pub const UNIFORM_SLOT: usize = 256;

/// 1.0 as single-precision bits.
pub const ONE: u32 = 0x3F80_0000;

/// The device buffers a dispatch can bind.
#[derive(Debug, Clone, Copy, PartialEq, Eq, Structural)]
pub enum Buf {
    Zero,
    Sink,
    H,
    X,
    Q,
    K,
    V,
    Attn,
    Proj,
    Gate,
    Up,
    Scores,
    Logits,
    /// Token ids of the batch.
    Tokens,
    Fused,
    Conv,
    ConvScratch,
    Z,
    Alpha,
    Beta,
    GateA,
    Pos,
    Pooled,
    Out,
    /// Keys of a layer's cache.
    CacheK(usize),
    /// Values of a layer's cache.
    CacheV(usize),
    /// Convolution window of a recurrent layer.
    ConvState(usize),
    /// Recurrent state of a layer.
    Recurrent(usize),
}

#[derive(Debug, Clone, Copy, PartialEq, Eq, Structural)]
pub struct MatvecParams {
    pub w_base: u32,
    pub in_dim: u32,
    pub out_dim: u32,
    pub n_tokens: u32,
}

/// Parameters of the elementwise and norm kernels. `f0` and `f1` are
/// single-precision bits.
#[derive(Debug, Clone, Copy, PartialEq, Eq, Structural)]
pub struct Op {
    pub n_rows: u32,
    pub dim: u32,
    pub off0: u32,
    pub off1: u32,
    pub f0: u32,
    pub f1: u32,
    pub u0: u32,
    pub u1: u32,
}

/// Parameters of the attention kernels. `scale` is single-precision bits.
#[derive(Debug, Clone, Copy, PartialEq, Eq, Structural)]
pub struct Attn {
    pub n_tokens: u32,
    pub n_heads: u32,
    pub n_kv_heads: u32,
    pub head_dim: u32,
    pub kv_dim: u32,
    pub base_pos: u32,
    pub window: u32,
    pub max_vis: u32,
    pub scale: u32,
    pub bidi: u32,
}

/// Parameters of the delta-net kernels. `eps` and `scale` are single-precision
/// bits.
#[derive(Debug, Clone, Copy, PartialEq, Eq, Structural)]
pub struct DOp {
    pub n_tok: u32,
    pub conv_dim: u32,
    pub key_dim: u32,
    pub d_inner: u32,
    pub s_dim: u32,
    pub n_vh: u32,
    pub n_kh: u32,
    pub kernel: u32,
    pub off_taps: u32,
    pub off_a: u32,
    pub off_dt: u32,
    pub eps: u32,
    pub scale: u32,
}

/// One uniform slot.
#[derive(Debug, Clone, Copy, PartialEq, Eq, Structural)]
pub enum Slot {
    Matvec(MatvecParams),
    Fixed(Op),
    /// `u1` becomes the batch's base position.
    Positioned(Op),
    /// `base_pos` and the visible length are recomputed per call.
    Attention(Attn),
    /// As it stands.
    FixedAttention(Attn),
    Delta(DOp),
}

/// The words of a slot when it is written for a batch of `n_tokens` tokens at
/// `base_pos`. A windowed layer sees at most its window.
pub open spec fn slot_words(s: Slot, base_pos: u32, n_tokens: u32) -> Seq<u32> {
    match s {
        Slot::Matvec(m) => seq![m.w_base, m.in_dim, m.out_dim, m.n_tokens],
        Slot::Fixed(o) => seq![o.n_rows, o.dim, o.off0, o.off1, o.f0, o.f1, o.u0, o.u1],
        Slot::Positioned(o) => seq![o.n_rows, o.dim, o.off0, o.off1, o.f0, o.f1, o.u0, base_pos],
        Slot::Attention(a) => {
            let end = (base_pos + n_tokens) as u32;
            let vis = if a.window == 0 || end < a.window {
                end
            } else {
                a.window
            };
            attn_words(Attn { base_pos, max_vis: vis, ..a })
        },
        Slot::FixedAttention(a) => attn_words(a),
        Slot::Delta(d) => seq![
            d.n_tok,
            d.conv_dim,
            d.key_dim,
            d.d_inner,
            d.s_dim,
            d.n_vh,
            d.n_kh,
            d.kernel,
            d.off_taps,
            d.off_a,
            d.off_dt,
            d.eps,
            d.scale,
        ],
    }
}

pub open spec fn attn_words(a: Attn) -> Seq<u32> {
    seq![
        a.n_tokens,
        a.n_heads,
        a.n_kv_heads,
        a.head_dim,
        a.kv_dim,
        a.base_pos,
        a.window,
        a.max_vis,
        a.scale,
        a.bidi,
    ]
}

/// Byte `k` of a word, least significant first.
pub open spec fn word_byte(w: u32, k: int) -> u8 {
    if k == 0 {
        (w % 0x100) as u8
    } else if k == 1 {
        (w / 0x100 % 0x100) as u8
    } else if k == 2 {
        (w / 0x1_0000 % 0x100) as u8
    } else {
        (w / 0x100_0000) as u8
    }
}

/// The words in little-endian order, zero-padded to a whole slot.
pub open spec fn slot_bytes(words: Seq<u32>) -> Seq<u8> {
    Seq::new(
        UNIFORM_SLOT as nat,
        |i: int|
            if i / 4 < words.len() {
                word_byte(words[i / 4], i % 4)
            } else {
                0u8
            },
    )
}

fn push_word(buf: &mut Vec<u8>, w: u32)
    ensures
        final(buf)@ == old(buf)@ + seq![
            word_byte(w, 0),
            word_byte(w, 1),
            word_byte(w, 2),
            word_byte(w, 3),
        ],
{
    buf.push((w % 0x100) as u8);
    buf.push((w / 0x100 % 0x100) as u8);
    buf.push((w / 0x1_0000 % 0x100) as u8);
    buf.push((w / 0x100_0000) as u8);
    assert(buf@ =~= old(buf)@ + seq![
        word_byte(w, 0),
        word_byte(w, 1),
        word_byte(w, 2),
        word_byte(w, 3),
    ]);
}

fn attn_vec(a: &Attn) -> (v: Vec<u32>)
    ensures
        v@ == attn_words(*a),
{
    let mut v: Vec<u32> = Vec::new();
    v.push(a.n_tokens);
    v.push(a.n_heads);
    v.push(a.n_kv_heads);
    v.push(a.head_dim);
    v.push(a.kv_dim);
    v.push(a.base_pos);
    v.push(a.window);
    v.push(a.max_vis);
    v.push(a.scale);
    v.push(a.bidi);
    assert(v@ =~= attn_words(*a));
    v
}

impl Slot {
    fn words(&self, base_pos: u32, n_tokens: u32) -> (v: Vec<u32>)
        requires
            base_pos + n_tokens <= u32::MAX,
        ensures
            v@ == slot_words(*self, base_pos, n_tokens),
            v@.len() <= 16,
    {
        match self {
            Slot::Matvec(m) => {
                let mut v: Vec<u32> = Vec::new();
                v.push(m.w_base);
                v.push(m.in_dim);
                v.push(m.out_dim);
                v.push(m.n_tokens);
                assert(v@ =~= slot_words(*self, base_pos, n_tokens));
                v
            },
            Slot::Fixed(o) => op_vec(o, o.u1),
            Slot::Positioned(o) => op_vec(o, base_pos),
            Slot::Attention(a) => {
                let end: u32 = base_pos + n_tokens;
                let vis: u32 = if a.window == 0 || end < a.window { end } else { a.window };
                let b = Attn {
                    n_tokens: a.n_tokens,
                    n_heads: a.n_heads,
                    n_kv_heads: a.n_kv_heads,
                    head_dim: a.head_dim,
                    kv_dim: a.kv_dim,
                    base_pos,
                    window: a.window,
                    max_vis: vis,
                    scale: a.scale,
                    bidi: a.bidi,
                };
                attn_vec(&b)
            },
            Slot::FixedAttention(a) => attn_vec(a),
            Slot::Delta(d) => {
                let mut v: Vec<u32> = Vec::new();
                v.push(d.n_tok);
                v.push(d.conv_dim);
                v.push(d.key_dim);
                v.push(d.d_inner);
                v.push(d.s_dim);
                v.push(d.n_vh);
                v.push(d.n_kh);
                v.push(d.kernel);
                v.push(d.off_taps);
                v.push(d.off_a);
                v.push(d.off_dt);
                v.push(d.eps);
                v.push(d.scale);
                assert(v@ =~= slot_words(*self, base_pos, n_tokens));
                v
            },
        }
    }

    /// Append this slot to the uniform bytes.
    pub fn emit(&self, base_pos: u32, n_tokens: u32, buf: &mut Vec<u8>)
        requires
            base_pos + n_tokens <= u32::MAX,
        ensures
            final(buf)@ == old(buf)@ + slot_bytes(slot_words(*self, base_pos, n_tokens)),
    {
        let words = self.words(base_pos, n_tokens);
        let ghost all = slot_bytes(words@);
        let mut i: usize = 0;
        assert(buf@ =~= old(buf)@ + all.take(0));
        while i < words.len()
            invariant
                i <= words@.len() <= 16,
                all == slot_bytes(words@),
                buf@ == old(buf)@ + all.take(4 * i),
            decreases words@.len() - i,
        {
            push_word(buf, words[i]);
            assert(all.take(4 * i + 4) =~= all.take(4 * i) + seq![
                word_byte(words@[i as int], 0),
                word_byte(words@[i as int], 1),
                word_byte(words@[i as int], 2),
                word_byte(words@[i as int], 3),
            ]) by {
                assert(all[4 * i] == word_byte(words@[i as int], 0));
                assert(all[4 * i + 1] == word_byte(words@[i as int], 1));
                assert(all[4 * i + 2] == word_byte(words@[i as int], 2));
                assert(all[4 * i + 3] == word_byte(words@[i as int], 3));
            }
            assert(buf@ =~= old(buf)@ + all.take(4 * i + 4));
            i = i + 1;
        }
        let mut k: usize = 4 * words.len();
        while k < UNIFORM_SLOT
            invariant
                4 * words@.len() <= k <= UNIFORM_SLOT,
                all == slot_bytes(words@),
                buf@ == old(buf)@ + all.take(k as int),
            decreases UNIFORM_SLOT - k,
        {
            buf.push(0);
            assert(all[k as int] == 0);
            assert(all.take(k + 1) =~= all.take(k as int).push(0u8));
            assert(buf@ =~= old(buf)@ + all.take(k + 1));
            k = k + 1;
        }
        assert(all.take(k as int) =~= all);
    }
}

fn op_vec(o: &Op, u1: u32) -> (v: Vec<u32>)
    ensures
        v@ == seq![o.n_rows, o.dim, o.off0, o.off1, o.f0, o.f1, o.u0, u1],
{
    let mut v: Vec<u32> = Vec::new();
    v.push(o.n_rows);
    v.push(o.dim);
    v.push(o.off0);
    v.push(o.off1);
    v.push(o.f0);
    v.push(o.f1);
    v.push(o.u0);
    v.push(u1);
    assert(v@ =~= seq![o.n_rows, o.dim, o.off0, o.off1, o.f0, o.f1, o.u0, u1]);
    v
}

/// The uniform bytes of all slots, in order.
pub open spec fn uniform_bytes(slots: Seq<Slot>, base_pos: u32, n_tokens: u32) -> Seq<u8>
    decreases slots.len(),
{
    if slots.len() == 0 {
        Seq::empty()
    } else {
        uniform_bytes(slots.drop_last(), base_pos, n_tokens) + slot_bytes(
            slot_words(slots.last(), base_pos, n_tokens),
        )
    }
}

/// Write out all slots for a batch.
pub fn emit_all(slots: &Vec<Slot>, base_pos: u32, n_tokens: u32) -> (buf: Vec<u8>)
    requires
        base_pos + n_tokens <= u32::MAX,
    ensures
        buf@ == uniform_bytes(slots@, base_pos, n_tokens),
{
    let mut buf: Vec<u8> = Vec::new();
    let mut i: usize = 0;
    assert(slots@.take(0) =~= Seq::empty());
    while i < slots.len()
        invariant
            i <= slots@.len(),
            base_pos + n_tokens <= u32::MAX,
            buf@ == uniform_bytes(slots@.take(i as int), base_pos, n_tokens),
        decreases slots@.len() - i,
    {
        slots[i].emit(base_pos, n_tokens, &mut buf);
        assert(slots@.take(i + 1).drop_last() =~= slots@.take(i as int));
        i = i + 1;
    }
    assert(slots@.take(i as int) =~= slots@);
    buf
}

/// Slot `i` stands at its byte offset: what a dispatch with that offset reads is
/// the slot it was recorded with.
pub proof fn slot_at_its_offset(slots: Seq<Slot>, base_pos: u32, n_tokens: u32, i: int)
    requires
        0 <= i < slots.len(),
    ensures
        uniform_bytes(slots, base_pos, n_tokens).len() == slots.len() * UNIFORM_SLOT,
        uniform_bytes(slots, base_pos, n_tokens).subrange(
            i * UNIFORM_SLOT,
            (i + 1) * UNIFORM_SLOT,
        ) == slot_bytes(slot_words(slots[i], base_pos, n_tokens)),
    decreases slots.len(),
{
    let all = uniform_bytes(slots, base_pos, n_tokens);
    let rest = slots.drop_last();
    let before = uniform_bytes(rest, base_pos, n_tokens);
    let last = slot_bytes(slot_words(slots.last(), base_pos, n_tokens));
    lemma_uniform_len(rest, base_pos, n_tokens);
    if i < rest.len() {
        slot_at_its_offset(rest, base_pos, n_tokens, i);
        assert(all.subrange(i * 256, (i + 1) * 256) =~= before.subrange(i * 256, (i + 1) * 256));
    } else {
        assert(all.subrange(i * 256, (i + 1) * 256) =~= last);
    }
}

proof fn lemma_uniform_len(slots: Seq<Slot>, base_pos: u32, n_tokens: u32)
    ensures
        uniform_bytes(slots, base_pos, n_tokens).len() == slots.len() * UNIFORM_SLOT,
    decreases slots.len(),
{
    if slots.len() > 0 {
        lemma_uniform_len(slots.drop_last(), base_pos, n_tokens);
    }
}

// ---------------------------------------------------------------------------
// Dispatches
// ---------------------------------------------------------------------------
/// What a dispatch binds besides its uniform slot. The parameter buffer is bound
/// by the `Ops` and `Delta` layouts, the token ids by `Matvec`.
#[derive(Debug, Clone, Copy, PartialEq, Eq, Structural)]
pub enum Bind {
    Ops { a: Buf, b: Buf, out: Buf },
    Matvec { weights: usize, x: Buf, y: Buf },
    Attn { q: Buf, k: Buf, v: Buf, scores: Buf, out: Buf },
    Delta { a: Buf, b: Buf, c: Buf, state: Buf, out: Buf },
}

/// A recorded dispatch: the kernel, its bindings, the slot's byte offset, and
/// the grid.
#[derive(Debug, Clone, Copy, PartialEq, Eq)]
pub struct Dispatch {
    pub kernel: Kernel,
    pub bind: Bind,
    pub offset: u32,
    pub groups: (u32, u32, u32),
}

/// A dispatch before its slot has an offset.
#[derive(Debug, Clone, Copy, PartialEq, Eq)]
pub struct Run {
    pub kernel: Kernel,
    pub bind: Bind,
    pub groups: (u32, u32, u32),
}

/// A step of a plan: a slot with the dispatches that read it, or a named point
/// at which a buffer can be inspected.
#[verifier::ext_equal]
pub ghost enum Node {
    Step { slot: Slot, runs: Seq<Run> },
    Mark { name: Seq<char>, buf: usize },
}

/// A plan as dispatches, slots and checkpoints. A checkpoint is its name, the
/// number of dispatches before it, and the buffer.
#[verifier::ext_equal]
pub ghost struct Lowered {
    pub plan: Seq<Dispatch>,
    pub slots: Seq<Slot>,
    pub marks: Seq<(Seq<char>, usize, usize)>,
}

pub open spec fn at_offset(r: Run, offset: u32) -> Dispatch {
    Dispatch { kernel: r.kernel, bind: r.bind, offset, groups: r.groups }
}

/// The byte offset of slot `i`.
pub open spec fn slot_offset(i: int) -> u32 {
    (i * UNIFORM_SLOT) as u32
}

pub open spec fn lower_one(l: Lowered, n: Node) -> Lowered {
    match n {
        Node::Step { slot, runs } => Lowered {
            plan: l.plan + runs.map_values(
                |r: Run| at_offset(r, slot_offset(l.slots.len() as int)),
            ),
            slots: l.slots.push(slot),
            marks: l.marks,
        },
        Node::Mark { name, buf } => Lowered {
            plan: l.plan,
            slots: l.slots,
            marks: l.marks.push((name, l.plan.len() as usize, buf)),
        },
    }
}

/// The plan that a list of steps stands for.
pub open spec fn lower(nodes: Seq<Node>) -> Lowered
    decreases nodes.len(),
{
    if nodes.len() == 0 {
        Lowered { plan: Seq::empty(), slots: Seq::empty(), marks: Seq::empty() }
    } else {
        lower_one(lower(nodes.drop_last()), nodes.last())
    }
}

/// Checkpoints by view.
pub open spec fn mark_views(v: Seq<(String, usize, usize)>) -> Seq<(Seq<char>, usize, usize)> {
    v.map_values(|m: (String, usize, usize)| (m.0@, m.1, m.2))
}

/// A plan under construction.
pub struct Builder {
    pub plan: Vec<Dispatch>,
    pub slots: Vec<Slot>,
    pub marks: Vec<(String, usize, usize)>,
    pub nodes: Ghost<Seq<Node>>,
}

/// More slots than a 32-bit byte offset can select are not recorded.
pub const MAX_SLOTS: usize = 0x80_0000;

impl Builder {
    pub open spec fn lowered(&self) -> Lowered {
        Lowered { plan: self.plan@, slots: self.slots@, marks: mark_views(self.marks@) }
    }

    pub open spec fn wf(&self) -> bool {
        self.lowered() == lower(self.nodes@)
    }

    pub fn new() -> (b: Builder)
        ensures
            b.wf(),
            b.nodes@ == Seq::<Node>::empty(),
            b.slots@.len() == 0,
    {
        let b = Builder {
            plan: Vec::new(),
            slots: Vec::new(),
            marks: Vec::new(),
            nodes: Ghost(Seq::empty()),
        };
        assert(b.lowered() =~= lower(b.nodes@));
        b
    }

    /// Record a slot and the dispatches that read it.
    pub fn steps(&mut self, slot: Slot, runs: &Vec<Run>)
        requires
            old(self).wf(),
            old(self).slots@.len() < MAX_SLOTS,
        ensures
            final(self).wf(),
            final(self).nodes@ == old(self).nodes@.push(Node::Step { slot, runs: runs@ }),
            final(self).slots@.len() == old(self).slots@.len() + 1,
    {
        let offset: u32 = self.slots.len() as u32 * 256;
        let ghost before = self.plan@;
        let ghost placed = runs@.map_values(|r: Run| at_offset(r, offset));
        let mut i: usize = 0;
        assert(self.plan@ =~= before + placed.take(0));
        while i < runs.len()
            invariant
                i <= runs@.len(),
                placed == runs@.map_values(|r: Run| at_offset(r, offset)),
                self.plan@ == before + placed.take(i as int),
                self.slots@ == old(self).slots@,
                self.marks@ == old(self).marks@,
                self.nodes@ == old(self).nodes@,
            decreases runs@.len() - i,
        {
            let r = runs[i];
            self.plan.push(
                Dispatch { kernel: r.kernel, bind: r.bind, offset, groups: r.groups },
            );
            assert(placed.take(i + 1) =~= placed.take(i as int).push(placed[i as int]));
            assert(self.plan@ =~= before + placed.take(i + 1));
            i = i + 1;
        }
        assert(placed.take(i as int) =~= placed);
        self.slots.push(slot);
        let ghost node = Node::Step { slot, runs: runs@ };
        proof {
            assert(old(self).nodes@.push(node).drop_last() =~= old(self).nodes@);
        }
        self.nodes = Ghost(self.nodes@.push(node));
        assert(self.lowered() =~= lower(self.nodes@));
    }

    /// Record a slot with one dispatch.
    pub fn step(&mut self, slot: Slot, kernel: Kernel, bind: Bind, groups: (u32, u32, u32))
        requires
            old(self).wf(),
            old(self).slots@.len() < MAX_SLOTS,
        ensures
            final(self).wf(),
            final(self).nodes@ == old(self).nodes@.push(one(slot, kernel, bind, groups)),
            final(self).slots@.len() == old(self).slots@.len() + 1,
    {
        let mut runs: Vec<Run> = Vec::new();
        runs.push(Run { kernel, bind, groups });
        assert(runs@ =~= seq![Run { kernel, bind, groups }]);
        self.steps(slot, &runs);
    }

    /// Name the point behind the dispatches so far.
    pub fn mark(&mut self, name: String, buf: usize)
        requires
            old(self).wf(),
        ensures
            final(self).wf(),
            final(self).nodes@ == old(self).nodes@.push(Node::Mark { name: name@, buf }),
            final(self).slots@.len() == old(self).slots@.len(),
    {
        let ghost node = Node::Mark { name: name@, buf };
        let ghost before = mark_views(self.marks@);
        let n: usize = self.plan.len();
        self.marks.push((name, n, buf));
        proof {
            assert(old(self).nodes@.push(node).drop_last() =~= old(self).nodes@);
            assert(mark_views(self.marks@) =~= before.push((node->name, n, buf)));
        }
        self.nodes = Ghost(self.nodes@.push(node));
        assert(self.lowered() =~= lower(self.nodes@));
    }
}

/// A step with one dispatch.
pub open spec fn one(slot: Slot, kernel: Kernel, bind: Bind, groups: (u32, u32, u32)) -> Node {
    Node::Step { slot, runs: seq![Run { kernel, bind, groups }] }
}

/// A dispatch plan plus its uniform slots, reusable across decode steps. The
/// tail runs over the last token's row only.
pub struct CachedPlan {
    pub plan: Vec<Dispatch>,
    pub slots: Vec<Slot>,
    pub tail: Vec<Dispatch>,
    pub tail_slots: Vec<Slot>,
    pub checkpoints: Vec<(String, usize, usize)>,
}

impl CachedPlan {
    pub open spec fn body(&self) -> Lowered {
        Lowered { plan: self.plan@, slots: self.slots@, marks: mark_views(self.checkpoints@) }
    }
}

/// Every dispatch of a lowered plan selects a slot that was recorded before it,
/// and every checkpoint lies within the plan.
pub proof fn lowered_is_closed(nodes: Seq<Node>)
    requires
        lower(nodes).slots.len() <= MAX_SLOTS,
        lower(nodes).plan.len() <= usize::MAX,
    ensures
        forall|i: int|
            0 <= i < lower(nodes).plan.len() ==> exists|k: int|
                0 <= k < lower(nodes).slots.len() && (#[trigger] lower(nodes).plan[i]).offset
                    == #[trigger] slot_offset(k),
        forall|m: int|
            0 <= m < lower(nodes).marks.len() ==> (#[trigger] lower(nodes).marks[m]).1
                <= lower(nodes).plan.len(),
    decreases nodes.len(),
{
    if nodes.len() > 0 {
        let l = lower(nodes.drop_last());
        let n = nodes.last();
        let after = lower(nodes);
        assert(l.slots.len() <= after.slots.len() && l.plan.len() <= after.plan.len());
        lowered_is_closed(nodes.drop_last());
        assert forall|i: int| 0 <= i < after.plan.len() implies exists|k: int|
            0 <= k < after.slots.len() && (#[trigger] after.plan[i]).offset == #[trigger] slot_offset(
                k,
            ) by {
            if i < l.plan.len() {
                assert(after.plan[i] == l.plan[i]);
                let k = choose|k: int|
                    0 <= k < l.slots.len() && l.plan[i].offset == #[trigger] slot_offset(k);
                assert(0 <= k < after.slots.len() && after.plan[i].offset == slot_offset(k));
            } else {
                let k = l.slots.len() as int;
                assert(after.plan[i].offset == slot_offset(k));
            }
        }
        assert forall|m: int| 0 <= m < after.marks.len() implies (#[trigger] after.marks[m]).1
            <= after.plan.len() by {
            if m < l.marks.len() {
                assert(after.marks[m] == l.marks[m]);
            }
        }
    }
}

// ---------------------------------------------------------------------------
// What a plan looks up
// ---------------------------------------------------------------------------
/// Why a plan could not be made.
#[derive(Debug)]
pub enum PlanError {
    /// A weight is not resident.
    Weight(String),
    /// A parameter tensor is missing.
    Param(String),
    /// There is no kernel for a weight's type.
    NoKernel(GgmlType),
    /// The batch is empty, or larger than the buffers.
    BatchOutOfRange(usize),
    /// The batch does not fit the context.
    ContextOverflow,
    /// No checkpoint of this name.
    UnknownCheckpoint(String),
    /// The image is smaller than one patch.
    TooSmall,
    /// The patch grid is not a multiple of the pooling kernel.
    NotPoolable { nx: usize, ny: usize },
    /// The patch grid exceeds the position table.
    PastPositions { nx: usize, ny: usize },
    /// The plan needs more uniform slots than there are.
    TooManySlots(usize),
}

#[verifier::ext_equal]
pub ghost enum PlanErrorView {
    Weight(Seq<char>),
    Param(Seq<char>),
    NoKernel(GgmlType),
    BatchOutOfRange(usize),
    ContextOverflow,
    UnknownCheckpoint(Seq<char>),
    TooSmall,
    NotPoolable { nx: usize, ny: usize },
    PastPositions { nx: usize, ny: usize },
    TooManySlots(int),
}

impl View for PlanError {
    type V = PlanErrorView;

    open spec fn view(&self) -> PlanErrorView {
        match self {
            PlanError::Weight(n) => PlanErrorView::Weight(n@),
            PlanError::Param(n) => PlanErrorView::Param(n@),
            PlanError::NoKernel(t) => PlanErrorView::NoKernel(*t),
            PlanError::BatchOutOfRange(n) => PlanErrorView::BatchOutOfRange(*n),
            PlanError::ContextOverflow => PlanErrorView::ContextOverflow,
            PlanError::UnknownCheckpoint(n) => PlanErrorView::UnknownCheckpoint(n@),
            PlanError::TooSmall => PlanErrorView::TooSmall,
            PlanError::NotPoolable { nx, ny } => PlanErrorView::NotPoolable { nx: *nx, ny: *ny },
            PlanError::PastPositions { nx, ny } => PlanErrorView::PastPositions {
                nx: *nx,
                ny: *ny,
            },
            PlanError::TooManySlots(n) => PlanErrorView::TooManySlots(*n as int),
        }
    }
}

/// Every model weight, by name.
pub struct Weights {
    pub handles: StringHashMap<Handle>,
}

pub open spec fn weight_at(w: Map<Seq<char>, Handle>, name: Seq<char>) -> Result<
    Handle,
    PlanErrorView,
> {
    if w.contains_key(name) {
        Ok(w[name])
    } else {
        Err(PlanErrorView::Weight(name))
    }
}

impl Weights {
    /// The handles of a packing. A name that comes twice keeps its last handle.
    pub fn new(handles: &Vec<(String, Handle)>) -> (w: Weights)
        ensures
            w.handles@ == handle_map(crate::gpu::arena::handle_views(handles@)),
    {
        let ghost all = crate::gpu::arena::handle_views(handles@);
        let mut m: StringHashMap<Handle> = StringHashMap::new();
        let mut i: usize = 0;
        assert(all.take(0) =~= Seq::empty());
        while i < handles.len()
            invariant
                i <= handles@.len(),
                all == crate::gpu::arena::handle_views(handles@),
                m@ == handle_map(all.take(i as int)),
            decreases handles@.len() - i,
        {
            m.insert(handles[i].0.clone(), handles[i].1);
            assert(all.take(i + 1).drop_last() =~= all.take(i as int));
            i = i + 1;
        }
        assert(all.take(i as int) =~= all);
        Weights { handles: m }
    }

    pub fn get(&self, name: &str) -> (r: Result<Handle, PlanError>)
        ensures
            match (r, weight_at(self.handles@, name@)) {
                (Ok(h), Ok(g)) => h == g,
                (Err(e), Err(f)) => e@ == f,
                _ => false,
            },
    {
        match self.handles.get(name) {
            Some(h) => Ok(*h),
            None => Err(PlanError::Weight(name.to_owned())),
        }
    }
}

pub open spec fn handle_map(v: Seq<(Seq<char>, Handle)>) -> Map<Seq<char>, Handle>
    decreases v.len(),
{
    if v.len() == 0 {
        Map::empty()
    } else {
        handle_map(v.drop_last()).insert(v.last().0, v.last().1)
    }
}

// ---------------------------------------------------------------------------
// Parameters
// ---------------------------------------------------------------------------
/// Where each parameter tensor starts in the one buffer that holds them all,
/// counted in elements.
pub struct ParamArena {
    pub offsets: StringHashMap<u32>,
    /// Elements in the buffer.
    pub len: u64,
}

#[verifier::ext_equal]
pub ghost struct ParamView {
    pub offsets: Map<Seq<char>, u32>,
    pub len: nat,
}

pub open spec fn param_at(p: Map<Seq<char>, u32>, name: Seq<char>) -> Result<u32, PlanErrorView> {
    if p.contains_key(name) {
        Ok(p[name])
    } else {
        Err(PlanErrorView::Param(name))
    }
}

/// The named tensors one behind the other, or the first name without a tensor.
pub open spec fn lay_out(h: HeaderView, names: Seq<Seq<char>>) -> Result<ParamView, ErrorView>
    decreases names.len(),
{
    if names.len() == 0 {
        Ok(ParamView { offsets: Map::empty(), len: 0 })
    } else {
        match lay_out(h, names.drop_last()) {
            Err(e) => Err(e),
            Ok(p) => match tensor_named(h, names.last()) {
                None => Err(ErrorView::NoTensor(names.last())),
                Some(t) => Ok(
                    ParamView {
                        offsets: p.offsets.insert(names.last(), p.len as u32),
                        len: p.len + t.elems(),
                    },
                ),
            },
        }
    }
}

/// The elements of the named tensors that are there.
pub open spec fn named_elems(h: HeaderView, names: Seq<Seq<char>>) -> nat
    decreases names.len(),
{
    if names.len() == 0 {
        0
    } else {
        named_elems(h, names.drop_last()) + match tensor_named(h, names.last()) {
            Some(t) => t.elems(),
            None => 0,
        }
    }
}

/// Every tensor of the table has a countable size.
pub open spec fn all_countable(h: HeaderView) -> bool {
    forall|i: int| 0 <= i < h.tensors.len() ==> (#[trigger] h.tensors[i]).countable()
}

impl ParamArena {
    pub open spec fn view(&self) -> ParamView {
        ParamView { offsets: self.offsets@, len: self.len as nat }
    }

    /// Lay the named tensors out one behind the other.
    pub fn build(h: &Header, names: &Vec<String>) -> (r: Result<ParamArena, Error>)
        requires
            h.wf(),
            all_countable(h@),
            named_elems(h@, text::views(names@)) <= u64::MAX,
        ensures
            match (r, lay_out(h@, text::views(names@))) {
                (Ok(p), Ok(q)) => p.view() == q,
                (Err(e), Err(f)) => e@ == f,
                _ => false,
            },
    {
        let ghost all = text::views(names@);
        let mut offsets: StringHashMap<u32> = StringHashMap::new();
        let mut len: u64 = 0;
        let mut i: usize = 0;
        assert(all.take(0) =~= Seq::empty());
        while i < names.len()
            invariant
                i <= names@.len(),
                h.wf(),
                all_countable(h@),
                all == text::views(names@),
                named_elems(h@, all) <= u64::MAX,
                len == named_elems(h@, all.take(i as int)),
                lay_out(h@, all.take(i as int)) == Ok::<ParamView, ErrorView>(
                    ParamView { offsets: offsets@, len: len as nat },
                ),
            decreases names@.len() - i,
        {
            let name = &names[i];
            proof {
                assert(all.take(i + 1).drop_last() =~= all.take(i as int));
                assert(all.take(i + 1).last() == name@);
                lemma_named_elems(h@, all, i + 1);
            }
            match h.info(name.as_str()) {
                Ok(t) => {
                    proof {
                        crate::gpu::arena::lemma_named(h@, name@, t@);
                    }
                    offsets.insert(name.clone(), len as u32);
                    len = len + t.elem_count() as u64;
                },
                Err(e) => {
                    proof {
                        assert(tensor_named(h@, name@) is None);
                        lemma_lay_out_err(h@, all, i + 1);
                    }
                    return Err(e);
                },
            }
            i = i + 1;
        }
        assert(all.take(i as int) =~= all);
        Ok(ParamArena { offsets, len })
    }

    pub fn at(&self, name: &str) -> (r: Result<u32, PlanError>)
        ensures
            match (r, param_at(self.offsets@, name@)) {
                (Ok(h), Ok(g)) => h == g,
                (Err(e), Err(f)) => e@ == f,
                _ => false,
            },
    {
        match self.offsets.get(name) {
            Some(o) => Ok(*o),
            None => Err(PlanError::Param(name.to_owned())),
        }
    }
}

proof fn lemma_named_elems(h: HeaderView, names: Seq<Seq<char>>, k: int)
    requires
        0 <= k <= names.len(),
    ensures
        named_elems(h, names.take(k)) <= named_elems(h, names),
    decreases names.len() - k,
{
    if k < names.len() {
        assert(names.take(k + 1).drop_last() =~= names.take(k));
        lemma_named_elems(h, names, k + 1);
    } else {
        assert(names.take(k) =~= names);
    }
}

proof fn lemma_lay_out_err(h: HeaderView, names: Seq<Seq<char>>, k: int)
    requires
        0 <= k <= names.len(),
    ensures
        lay_out(h, names.take(k)) is Err ==> lay_out(h, names) == lay_out(h, names.take(k)),
    decreases names.len() - k,
{
    if k < names.len() {
        assert(names.take(k + 1).drop_last() =~= names.take(k));
        lemma_lay_out_err(h, names, k + 1);
    } else {
        assert(names.take(k) =~= names);
    }
}

// ---------------------------------------------------------------------------
// The kinds of step
// ---------------------------------------------------------------------------
/// Parameters with everything but the row count and the width zero.
pub open spec fn plain(n_rows: u32, dim: u32) -> Op {
    Op { n_rows, dim, off0: 0, off1: 0, f0: 0, f1: 0, u0: 0, u1: 0 }
}

/// Parameters of a norm: the offset of its gains and the epsilon.
pub open spec fn norm_op(n_rows: u32, dim: u32, off0: u32, eps: u32) -> Op {
    Op { n_rows, dim, off0, off1: 0, f0: eps, f1: 0, u0: 1, u1: 0 }
}

/// Parameters of a norm without gains.
pub open spec fn bare_norm_op(n_rows: u32, dim: u32, eps: u32) -> Op {
    Op { n_rows, dim, off0: 0, off1: 0, f0: eps, f1: 0, u0: 0, u1: 0 }
}

/// Parameters with one factor.
pub open spec fn scaled_op(n_rows: u32, dim: u32, f0: u32) -> Op {
    Op { n_rows, dim, off0: 0, off1: 0, f0, f1: 0, u0: 0, u1: 0 }
}

/// An elementwise step: `n` cells in workgroups of `wg`.
pub open spec fn ops(op: Op, kernel: Kernel, a: Buf, b: Buf, out: Buf, n: u32, wg: u32) -> Node {
    one(
        Slot::Fixed(op),
        kernel,
        Bind::Ops { a, b, out },
        (cell_groups(n as int, wg as int) as u32, 1, 1),
    )
}

/// An elementwise step that depends on the position.
pub open spec fn positioned(
    op: Op,
    kernel: Kernel,
    a: Buf,
    b: Buf,
    out: Buf,
    n: u32,
    wg: u32,
) -> Node {
    one(
        Slot::Positioned(op),
        kernel,
        Bind::Ops { a, b, out },
        (cell_groups(n as int, wg as int) as u32, 1, 1),
    )
}

/// The device's limits that shape a grid.
#[derive(Debug, Clone, Copy, PartialEq, Eq, Structural)]
pub struct Grid {
    /// Workgroups per dimension.
    pub max_groups: u32,
    /// Tokens per tiled dispatch.
    pub tile: u32,
}

/// A projection of `n_tokens` rows by the weight at `h`.
pub open spec fn project(
    g: Grid,
    h: Handle,
    in_dim: u32,
    out_dim: u32,
    n_tokens: u32,
    x: Buf,
    y: Buf,
) -> Node {
    one(
        Slot::Matvec(MatvecParams { w_base: h.base_u32, in_dim, out_dim, n_tokens }),
        matvec_kernel(h.ty, n_tokens)->0,
        Bind::Matvec { weights: h.buffer, x, y },
        (
            row_grid(out_dim as int, g.max_groups as int) as u32,
            token_grid(n_tokens as int, g.tile as int) as u32,
            1,
        ),
    )
}

/// The three attention passes over one slot.
pub open spec fn attend(slot: Slot, bind: Bind, n_heads: u32, n_tokens: u32) -> Node {
    Node::Step {
        slot,
        runs: seq![
            Run { kernel: Kernel::ScoresPass, bind, groups: (n_heads, n_tokens, 1) },
            Run { kernel: Kernel::SoftmaxPass, bind, groups: (n_heads, n_tokens, 1) },
            Run { kernel: Kernel::WeightedV, bind, groups: (n_heads, n_tokens, 1) },
        ],
    }
}

/// A checkpoint of a layer.
pub open spec fn layer_mark(name: Seq<char>, il: int, buf: usize) -> Node {
    Node::Mark { name: text::tagged(name, il as nat), buf }
}

/// Why a projection cannot be planned: its weight is missing, or its type has no
/// kernel.
pub open spec fn projection_error(
    w: Map<Seq<char>, Handle>,
    name: Seq<char>,
    n_tokens: u32,
) -> Option<PlanErrorView> {
    match weight_at(w, name) {
        Err(e) => Some(e),
        Ok(h) => if matvec_kernel(h.ty, n_tokens) is None {
            Some(PlanErrorView::NoKernel(h.ty))
        } else {
            None
        },
    }
}

impl Weights {
    /// The handle of a weight that has a matvec kernel.
    pub fn projection(&self, name: &str, n_tokens: u32) -> (r: Result<Handle, PlanError>)
        ensures
            match r {
                Ok(h) => projection_error(self.handles@, name@, n_tokens) is None && weight_at(
                    self.handles@,
                    name@,
                ) == Ok::<Handle, PlanErrorView>(h) && matvec_kernel(h.ty, n_tokens) is Some,
                Err(e) => projection_error(self.handles@, name@, n_tokens) == Some(e@),
            },
    {
        let h = self.get(name)?;
        match grid::pipeline_for(h.ty, n_tokens) {
            Some(_) => Ok(h),
            None => Err(PlanError::NoKernel(h.ty)),
        }
    }
}

impl Builder {
    pub fn ops(&mut self, op: Op, kernel: Kernel, a: Buf, b: Buf, out: Buf, n: u32, wg: u32)
        requires
            old(self).wf(),
            old(self).slots@.len() < MAX_SLOTS,
            wg > 0,
        ensures
            final(self).wf(),
            final(self).nodes@ == old(self).nodes@.push(ops(op, kernel, a, b, out, n, wg)),
            final(self).slots@.len() == old(self).slots@.len() + 1,
    {
        self.step(Slot::Fixed(op), kernel, Bind::Ops { a, b, out }, (grid::cells(n, wg), 1, 1));
    }

    pub fn positioned(&mut self, op: Op, kernel: Kernel, a: Buf, b: Buf, out: Buf, n: u32, wg: u32)
        requires
            old(self).wf(),
            old(self).slots@.len() < MAX_SLOTS,
            wg > 0,
        ensures
            final(self).wf(),
            final(self).nodes@ == old(self).nodes@.push(positioned(op, kernel, a, b, out, n, wg)),
            final(self).slots@.len() == old(self).slots@.len() + 1,
    {
        self.step(
            Slot::Positioned(op),
            kernel,
            Bind::Ops { a, b, out },
            (grid::cells(n, wg), 1, 1),
        );
    }

    pub fn project(
        &mut self,
        g: Grid,
        h: Handle,
        in_dim: u32,
        out_dim: u32,
        n_tokens: u32,
        x: Buf,
        y: Buf,
    )
        requires
            old(self).wf(),
            old(self).slots@.len() < MAX_SLOTS,
            g.tile > 0,
            matvec_kernel(h.ty, n_tokens) is Some,
        ensures
            final(self).wf(),
            final(self).nodes@ == old(self).nodes@.push(
                project(g, h, in_dim, out_dim, n_tokens, x, y),
            ),
            final(self).slots@.len() == old(self).slots@.len() + 1,
    {
        match grid::pipeline_for(h.ty, n_tokens) {
            Some(kernel) => {
                self.step(
                    Slot::Matvec(MatvecParams { w_base: h.base_u32, in_dim, out_dim, n_tokens }),
                    kernel,
                    Bind::Matvec { weights: h.buffer, x, y },
                    (
                        grid::row_groups(out_dim, g.max_groups),
                        grid::token_groups(n_tokens, g.tile),
                        1,
                    ),
                );
            },
            None => {},
        }
    }

    pub fn attend(&mut self, slot: Slot, bind: Bind, n_heads: u32, n_tokens: u32)
        requires
            old(self).wf(),
            old(self).slots@.len() < MAX_SLOTS,
        ensures
            final(self).wf(),
            final(self).nodes@ == old(self).nodes@.push(attend(slot, bind, n_heads, n_tokens)),
            final(self).slots@.len() == old(self).slots@.len() + 1,
    {
        let mut runs: Vec<Run> = Vec::new();
        runs.push(Run { kernel: Kernel::ScoresPass, bind, groups: (n_heads, n_tokens, 1) });
        runs.push(Run { kernel: Kernel::SoftmaxPass, bind, groups: (n_heads, n_tokens, 1) });
        runs.push(Run { kernel: Kernel::WeightedV, bind, groups: (n_heads, n_tokens, 1) });
        let ghost want = attend(slot, bind, n_heads, n_tokens);
        assert(runs@ =~= want->runs);
        self.steps(slot, &runs);
    }

    pub fn layer_mark(&mut self, name: &str, il: usize, buf: usize)
        requires
            old(self).wf(),
        ensures
            final(self).wf(),
            final(self).nodes@ == old(self).nodes@.push(layer_mark(name@, il as int, buf)),
            final(self).slots@.len() == old(self).slots@.len(),
    {
        self.mark(text::tagged_string(name, il), buf);
    }
}

// ---------------------------------------------------------------------------
// Passes
// ---------------------------------------------------------------------------
/// What is left to do once the body of a plan has run.
pub enum Rest {
    /// Stopped at a checkpoint: give this buffer.
    Checkpoint(usize),
    /// Copy the last token's row, write these uniforms, and run the tail.
    Head { copy_from: u64, copy_bytes: u64, uniforms: Vec<u8> },
}

/// One execution of a plan.
pub struct Pass {
    /// The plan is the cached one for single tokens.
    pub cached: bool,
    /// How many dispatches of the body run.
    pub run: usize,
    pub uniforms: Vec<u8>,
    pub rest: Rest,
}

/// The first checkpoint of this name: the dispatches before it, and the buffer.
pub open spec fn find_mark(
    marks: Seq<(Seq<char>, usize, usize)>,
    name: Seq<char>,
) -> Option<(usize, usize)>
    decreases marks.len(),
{
    if marks.len() == 0 {
        None
    } else if marks[0].0 == name {
        Some((marks[0].1, marks[0].2))
    } else {
        find_mark(marks.drop_first(), name)
    }
}

/// What executing `p` for a batch of `t` at `base_pos` consists of. Only the
/// last token's row feeds the output projection.
pub open spec fn is_pass(
    pass: Pass,
    p: CachedPlan,
    stop: Option<Seq<char>>,
    t: int,
    base_pos: int,
    d: int,
) -> bool {
    &&& pass.uniforms@ == uniform_bytes(p.slots@, base_pos as u32, t as u32)
    &&& match stop {
        Some(name) => find_mark(mark_views(p.checkpoints@), name) matches Some((at, buf))
            && pass.run == at && pass.rest == Rest::Checkpoint(buf),
        None => pass.run == p.plan@.len() && match pass.rest {
            Rest::Checkpoint(_) => false,
            Rest::Head { copy_from, copy_bytes, uniforms } => copy_from == (t - 1) * d * 4
                && copy_bytes == d * 4 && uniforms@ == uniform_bytes(
                p.tail_slots@,
                base_pos as u32,
                t as u32,
            ),
        },
    }
}

fn locate(marks: &Vec<(String, usize, usize)>, name: &str) -> (r: Option<(usize, usize)>)
    ensures
        r == find_mark(mark_views(marks@), name@),
{
    let ghost all = mark_views(marks@);
    let mut i: usize = 0;
    assert(all.skip(0) =~= all);
    while i < marks.len()
        invariant
            i <= marks@.len(),
            all == mark_views(marks@),
            find_mark(all, name@) == find_mark(all.skip(i as int), name@),
        decreases marks@.len() - i,
    {
        assert(all.skip(i as int)[0] == all[i as int]);
        if text::str_eq(marks[i].0.as_str(), name) {
            return Some((marks[i].1, marks[i].2));
        }
        assert(all.skip(i as int).drop_first() =~= all.skip(i + 1));
        i = i + 1;
    }
    assert(all.skip(i as int).len() == 0);
    None
}

/// A string by its view.
pub open spec fn opt_view(s: Option<String>) -> Option<Seq<char>> {
    match s {
        Some(x) => Some(x@),
        None => None,
    }
}

/// Fill a plan in for a batch of `t` at `base_pos`.
pub fn make_pass(
    p: &CachedPlan,
    stop: &Option<String>,
    cached: bool,
    t: usize,
    base_pos: usize,
    d: usize,
) -> (r: Result<Pass, PlanError>)
    requires
        0 < t,
        base_pos + t <= u32::MAX,
        t * d * 4 <= usize::MAX,
    ensures
        match r {
            Ok(pass) => is_pass(pass, *p, opt_view(*stop), t as int, base_pos as int, d as int)
                && pass.cached == cached,
            Err(e) => stop is Some && e@ == PlanErrorView::UnknownCheckpoint(stop->0@) && find_mark(
                mark_views(p.checkpoints@),
                stop->0@,
            ) is None,
        },
{
    let uniforms = emit_all(&p.slots, base_pos as u32, t as u32);
    match stop {
        Some(name) => match locate(&p.checkpoints, name.as_str()) {
            Some((at, buf)) => Ok(
                Pass { cached, run: at, uniforms, rest: Rest::Checkpoint(buf) },
            ),
            None => Err(PlanError::UnknownCheckpoint(name.clone())),
        },
        None => {
            assert((t - 1) * d <= t * d && (t - 1) * d * 4 <= t * d * 4 && d * 4 <= t * d * 4 && 0
                <= (t - 1) * d) by (nonlinear_arith)
                requires
                    t >= 1,
                    d >= 0,
            ;
            let copy_from: u64 = ((t - 1) * d * 4) as u64;
            let copy_bytes: u64 = (d * 4) as u64;
            let tail = emit_all(&p.tail_slots, base_pos as u32, t as u32);
            Ok(
                Pass {
                    cached,
                    run: p.plan.len(),
                    uniforms,
                    rest: Rest::Head { copy_from, copy_bytes, uniforms: tail },
                },
            )
        },
    }
}

/// Bytes of `n` single-precision numbers.
pub fn floats(n: usize) -> (r: u64)
    requires
        n * 4 <= usize::MAX,
    ensures
        r == n * 4,
{
    (n * 4) as u64
}

/// `a * b` single-precision numbers.
pub fn float_rows(a: usize, b: usize) -> (r: u64)
    requires
        a * b * 4 <= usize::MAX,
    ensures
        r == a * b * 4,
{
    assert(0 <= a * b) by (nonlinear_arith);
    floats(a * b)
}

} // verus!
