//! KV cache.
//!
//! Sliding-window layers only ever read the last `window` positions, so they get a
//! ring buffer of exactly that size instead of a full-context allocation. With most
//! of the layers windowed, this is the difference between 2 GB and 90 GB at full
//! context.
//!
//! Keys and values are held as the bits of single-precision numbers; a zero is all
//! zero bits.

use crate::config::Config;
use crate::cpu::within;
use crate::secret::zero_vec;
use vstd::prelude::*;

verus! {

pub struct LayerCache {
    /// `slots * kv_dim`, row-major by slot.
    pub k: Vec<u32>,
    pub v: Vec<u32>,
    pub slots: usize,
    pub kv_dim: usize,
    /// `Some(w)` for a ring of size `w`; `None` for a linear full-context cache.
    pub window: Option<usize>,
}

/// Row `s` of a buffer.
pub open spec fn row(buf: Seq<u32>, s: int, dim: int) -> Seq<u32> {
    buf.subrange(s * dim, s * dim + dim)
}

/// A buffer with row `s` replaced.
pub open spec fn with_row(buf: Seq<u32>, s: int, dim: int, x: Seq<u32>) -> Seq<u32> {
    buf.take(s * dim) + x + buf.skip(s * dim + dim)
}

/// Zeros.
pub open spec fn zeros(n: nat) -> Seq<u32> {
    Seq::new(n, |i: int| 0u32)
}

/// Rows lie apart and within the buffer.
pub proof fn lemma_row(s: int, slots: int, dim: int)
    requires
        0 <= s < slots,
        0 <= dim,
    ensures
        0 <= s * dim,
        s * dim + dim <= slots * dim,
{
    assert(0 <= s * dim && s * dim + dim <= slots * dim) by (nonlinear_arith)
        requires
            0 <= s < slots,
            0 <= dim,
    ;
}

/// Copy `x` over the row at `at`.
fn put_row(buf: &mut Vec<u32>, at: usize, x: &[u32])
    requires
        at + x@.len() <= old(buf)@.len(),
    ensures
        final(buf)@ == old(buf)@.take(at as int) + x@ + old(buf)@.skip(at + x@.len()),
{
    let n: usize = x.len();
    let len: usize = buf.len();
    let mut i: usize = 0;
    assert(buf@ =~= buf@.take(at as int) + x@.take(0) + buf@.skip(at as int));
    while i < n
        invariant
            i <= n,
            n == x@.len(),
            at + n <= buf@.len(),
            at + n <= usize::MAX,
            buf@.len() == old(buf)@.len(),
            buf@ == old(buf)@.take(at as int) + x@.take(i as int) + old(buf)@.skip(at + i),
        decreases n - i,
    {
        let ghost before = buf@;
        buf.set(at + i, x[i]);
        i = i + 1;
        assert(buf@ =~= old(buf)@.take(at as int) + x@.take(i as int) + old(buf)@.skip(at + i));
    }
    assert(x@.take(n as int) =~= x@);
}

/// A buffer of zeros.
pub(crate) fn zeroed(n: usize) -> (r: Vec<u32>)
    ensures
        r@ == zeros(n as nat),
{
    let mut r: Vec<u32> = Vec::new();
    let mut i: usize = 0;
    while i < n
        invariant
            i <= n,
            r@ == zeros(i as nat),
        decreases n - i,
    {
        r.push(0);
        i = i + 1;
        assert(r@ =~= zeros(i as nat));
    }
    assert(r@ =~= zeros(n as nat));
    r
}

impl LayerCache {
    /// The buffers have a row for each slot, a ring as many slots as its window.
    pub open spec fn wf(&self) -> bool {
        &&& self.k@.len() == self.slots * self.kv_dim
        &&& self.v@.len() == self.slots * self.kv_dim
        &&& self.window matches Some(w) ==> 0 < w <= self.slots
    }

    /// A position that this cache can hold.
    pub open spec fn fits(&self, pos: int) -> bool {
        0 <= pos && (self.window is None ==> pos < self.slots)
    }

    pub open spec fn slot_of(&self, pos: int) -> int {
        match self.window {
            Some(w) => pos % (w as int),
            None => pos,
        }
    }

    /// The first position that is visible from `pos`.
    pub open spec fn first_of(&self, pos: int) -> int {
        match self.window {
            Some(w) => if pos < w {
                0
            } else {
                pos - w + 1
            },
            None => 0,
        }
    }

    /// The keys at a position.
    pub open spec fn keys(&self, pos: int) -> Seq<u32> {
        row(self.k@, self.slot_of(pos), self.kv_dim as int)
    }

    /// The values at a position.
    pub open spec fn values(&self, pos: int) -> Seq<u32> {
        row(self.v@, self.slot_of(pos), self.kv_dim as int)
    }

    /// Slot holding position `pos`. Ring layers wrap; global layers are direct.
    pub fn slot(&self, pos: usize) -> (r: usize)
        requires
            self.window matches Some(w) ==> w > 0,
        ensures
            r == self.slot_of(pos as int),
    {
        match self.window {
            Some(w) => pos % w,
            None => pos,
        }
    }

    /// The first and the last position visible from `pos`, both inclusive.
    pub fn visible(&self, pos: usize) -> (r: (usize, usize))
        requires
            self.window matches Some(w) ==> w > 0,
        ensures
            r.0 == self.first_of(pos as int),
            r.1 == pos,
    {
        let first: usize = match self.window {
            Some(w) => if pos < w {
                0
            } else {
                pos - w + 1
            },
            None => 0,
        };
        (first, pos)
    }

    proof fn lemma_slot(&self, pos: int)
        requires
            self.wf(),
            self.fits(pos),
        ensures
            0 <= self.slot_of(pos) < self.slots,
            0 <= self.slot_of(pos) * self.kv_dim,
            self.slot_of(pos) * self.kv_dim + self.kv_dim <= self.k@.len(),
            self.slot_of(pos) * self.kv_dim + self.kv_dim <= self.v@.len(),
    {
        match self.window {
            Some(w) => {
                assert(0 <= pos % (w as int) < w) by (nonlinear_arith)
                    requires
                        w > 0,
                        pos >= 0,
                ;
            },
            None => {},
        }
        lemma_row(self.slot_of(pos), self.slots as int, self.kv_dim as int);
    }

    pub fn k_at(&self, pos: usize) -> (r: &[u32])
        requires
            self.wf(),
            self.fits(pos as int),
        ensures
            r@ == self.keys(pos as int),
    {
        proof {
            self.lemma_slot(pos as int);
        }
        let len: usize = self.k.len();
        let s: usize = self.slot(pos) * self.kv_dim;
        vstd::slice::slice_subrange(self.k.as_slice(), s, s + self.kv_dim)
    }

    pub fn v_at(&self, pos: usize) -> (r: &[u32])
        requires
            self.wf(),
            self.fits(pos as int),
        ensures
            r@ == self.values(pos as int),
    {
        proof {
            self.lemma_slot(pos as int);
        }
        let len: usize = self.v.len();
        let s: usize = self.slot(pos) * self.kv_dim;
        vstd::slice::slice_subrange(self.v.as_slice(), s, s + self.kv_dim)
    }

    /// Overwrite this layer's keys and values in full.
    pub fn wipe(&mut self)
        ensures
            final(self).k@ == zeros(old(self).k@.len()),
            final(self).v@ == zeros(old(self).v@.len()),
            final(self).slots == old(self).slots,
            final(self).kv_dim == old(self).kv_dim,
            final(self).window == old(self).window,
    {
        zero_vec(&mut self.k);
        zero_vec(&mut self.v);
    }

    pub fn store(&mut self, pos: usize, k: &[u32], v: &[u32])
        requires
            old(self).wf(),
            old(self).fits(pos as int),
            k@.len() == old(self).kv_dim,
            v@.len() == old(self).kv_dim,
        ensures
            final(self).wf(),
            final(self).k@ == with_row(
                old(self).k@,
                old(self).slot_of(pos as int),
                old(self).kv_dim as int,
                k@,
            ),
            final(self).v@ == with_row(
                old(self).v@,
                old(self).slot_of(pos as int),
                old(self).kv_dim as int,
                v@,
            ),
            final(self).slots == old(self).slots,
            final(self).kv_dim == old(self).kv_dim,
            final(self).window == old(self).window,
    {
        proof {
            self.lemma_slot(pos as int);
        }
        let len: usize = self.k.len();
        let s: usize = self.slot(pos) * self.kv_dim;
        put_row(&mut self.k, s, k);
        put_row(&mut self.v, s, v);
    }
}

/// Any two distinct positions visible at once lie in distinct slots; otherwise the
/// ring would overwrite live entries.
pub proof fn visible_positions_never_collide(c: LayerCache, pos: int, a: int, b: int)
    requires
        c.wf(),
        c.first_of(pos) <= a < b <= pos,
        0 <= c.first_of(pos),
    ensures
        c.slot_of(a) != c.slot_of(b),
{
    match c.window {
        Some(w) => {
            let n = w as int;
            if a % n == b % n {
                assert(b - a == n * (b / n - a / n)) by (nonlinear_arith)
                    requires
                        n > 0,
                        a % n == b % n,
                ;
                let q = b / n - a / n;
                assert(n * q >= n || n * q <= 0) by (nonlinear_arith)
                    requires
                        n > 0,
                ;
            }
        },
        None => {},
    }
}

/// What was stored at a position is read back there, and every other position that
/// is visible with it reads as before.
pub proof fn stored_rows_read_back(
    before: LayerCache,
    after: LayerCache,
    pos: int,
    other: int,
    k: Seq<u32>,
    v: Seq<u32>,
)
    requires
        before.wf(),
        before.fits(pos),
        k.len() == before.kv_dim,
        v.len() == before.kv_dim,
        after.k@ == with_row(before.k@, before.slot_of(pos), before.kv_dim as int, k),
        after.v@ == with_row(before.v@, before.slot_of(pos), before.kv_dim as int, v),
        after.slots == before.slots,
        after.kv_dim == before.kv_dim,
        after.window == before.window,
        0 <= before.first_of(pos) <= other < pos,
    ensures
        after.keys(pos) == k,
        after.values(pos) == v,
        after.keys(other) == before.keys(other),
        after.values(other) == before.values(other),
{
    visible_positions_never_collide(before, pos, other, pos);
    assert(before.fits(other));
    before.lemma_slot(pos);
    before.lemma_slot(other);
    let d = before.kv_dim as int;
    let s = before.slot_of(pos);
    let o = before.slot_of(other);
    assert(s * d + d <= o * d || o * d + d <= s * d) by (nonlinear_arith)
        requires
            s != o,
            d >= 0,
    ;
    assert(after.keys(pos) =~= k);
    assert(after.values(pos) =~= v);
    assert(after.keys(other) =~= before.keys(other));
    assert(after.values(other) =~= before.values(other));
}

// ---------------------------------------------------------------------------
// The whole cache
// ---------------------------------------------------------------------------
pub struct KvCache {
    /// One entry per *owning* layer, not per layer. Checkpoints that share keys
    /// and values across the tail of the stack allocate far fewer of these than
    /// there are blocks.
    pub layers: Vec<LayerCache>,
    /// Layer index to position in `layers`. Shared layers point at the entry owned
    /// by an earlier layer.
    pub index: Vec<usize>,
    /// Number of positions written so far; the next token lands at this index.
    pub len: usize,
    pub capacity: usize,
}

/// Layer `i` reads its own cache, or that of an earlier layer that owns one; and
/// its cache has a size that can be computed.
pub open spec fn placeable(cfg: Config, n_ctx: int, i: int) -> bool {
    let lc = cfg.layers@[i];
    &&& lc.kv_source <= i
    &&& cfg.layers@[lc.kv_source as int].kv_source == lc.kv_source
    &&& lc.kv_width() <= usize::MAX
    &&& cfg.slots(i, n_ctx) * lc.kv_width() <= usize::MAX
    &&& lc.window matches Some(w) ==> w > 0
}

/// Every layer's cache can be placed.
pub open spec fn shareable(cfg: Config, n_ctx: int) -> bool {
    &&& cfg.layers@.len() == cfg.n_layers
    &&& forall|i: int| 0 <= i < cfg.n_layers ==> #[trigger] placeable(cfg, n_ctx, i)
}

/// Whether the caches for a context of `n_ctx` can be made.
pub fn can_hold(cfg: &Config, n_ctx: usize) -> (r: bool)
    ensures
        r == shareable(*cfg, n_ctx as int),
{
    let n: usize = cfg.n_layers;
    if cfg.layers.len() != n {
        return false;
    }
    let mut i: usize = 0;
    while i < n
        invariant
            i <= n,
            n == cfg.n_layers,
            n == cfg.layers@.len(),
            forall|k: int| 0 <= k < i ==> #[trigger] placeable(*cfg, n_ctx as int, k),
        decreases n - i,
    {
        let l = &cfg.layers[i];
        let window: bool = match l.window {
            Some(w) => w > 0,
            None => true,
        };
        let source: usize = l.kv_source;
        let slots: usize = cfg.kv_slots(i, n_ctx);
        if source > i || cfg.layers[source].kv_source != source || !within(
            l.n_kv_heads,
            l.head_dim,
        ) || !within(slots, l.n_kv_heads * l.head_dim) || !window {
            assert(!placeable(*cfg, n_ctx as int, i as int));
            return false;
        }
        i = i + 1;
    }
    true
}

/// How many of the first `n` layers own a cache.
pub open spec fn owners(cfg: Config, n: int) -> int
    decreases n,
{
    if n <= 0 {
        0
    } else {
        owners(cfg, n - 1) + if cfg.layers@[n - 1].kv_source == n - 1 {
            1int
        } else {
            0int
        }
    }
}

/// The window of a layer's ring, which is never longer than the context.
pub open spec fn ring(cfg: Config, i: int, n_ctx: int) -> Option<usize> {
    match cfg.layers@[i].window {
        Some(w) => if w < n_ctx {
            Some(w)
        } else {
            Some(n_ctx as usize)
        },
        None => None,
    }
}

/// The cache of layer `i`, empty.
pub open spec fn is_new(c: LayerCache, cfg: Config, i: int, n_ctx: int) -> bool {
    let slots = cfg.slots(i, n_ctx);
    let dim = cfg.layers@[i].kv_width();
    &&& c.slots == slots
    &&& c.kv_dim == dim
    &&& c.k@ == zeros((slots * dim) as nat)
    &&& c.v@ == zeros((slots * dim) as nat)
    &&& c.window == ring(cfg, i, n_ctx)
}

/// Layer `i` reads the cache of its source, which began empty.
pub open spec fn reads(
    layers: Seq<LayerCache>,
    index: Seq<usize>,
    cfg: Config,
    n_ctx: int,
    i: int,
) -> bool {
    let source = cfg.layers@[i].kv_source as int;
    &&& index[i] == owners(cfg, source)
    &&& index[i] < layers.len()
    &&& is_new(layers[index[i] as int], cfg, source, n_ctx)
}

fn new_layer(cfg: &Config, i: usize, n_ctx: usize) -> (c: LayerCache)
    requires
        i < cfg.layers@.len(),
        placeable(*cfg, n_ctx as int, i as int),
    ensures
        n_ctx > 0 ==> c.wf(),
        is_new(c, *cfg, i as int, n_ctx as int),
{
    let lc = &cfg.layers[i];
    let slots: usize = cfg.kv_slots(i, n_ctx);
    let kv_dim: usize = lc.kv_dim();
    let size: usize = slots * kv_dim;
    let window: Option<usize> = match lc.window {
        Some(w) => if w < n_ctx {
            Some(w)
        } else {
            Some(n_ctx)
        },
        None => None,
    };
    LayerCache { k: zeroed(size), v: zeroed(size), slots, kv_dim, window }
}

impl KvCache {
    /// Every layer has a cache to read, and each cache is in order.
    pub open spec fn wf(&self) -> bool {
        &&& forall|i: int|
            0 <= i < self.index@.len() ==> (#[trigger] self.index@[i]) < self.layers@.len()
        &&& forall|j: int| 0 <= j < self.layers@.len() ==> (#[trigger] self.layers@[j]).wf()
    }

    /// The first `n` layers have their caches, empty, and know them.
    pub open spec fn placed(
        layers: Seq<LayerCache>,
        index: Seq<usize>,
        cfg: Config,
        n_ctx: int,
        n: int,
    ) -> bool {
        &&& layers.len() == owners(cfg, n)
        &&& index.len() == n
        &&& forall|i: int| 0 <= i < n ==> #[trigger] reads(layers, index, cfg, n_ctx, i)
    }

    pub fn new(cfg: &Config, n_ctx: usize) -> (r: Self)
        requires
            shareable(*cfg, n_ctx as int),
        ensures
            n_ctx > 0 ==> r.wf(),
            r.len == 0,
            r.capacity == n_ctx,
            Self::placed(r.layers@, r.index@, *cfg, n_ctx as int, cfg.n_layers as int),
    {
        let n: usize = cfg.n_layers;
        let mut layers: Vec<LayerCache> = Vec::new();
        let mut index: Vec<usize> = Vec::new();
        let mut i: usize = 0;
        while i < n
            invariant
                i <= n,
                n == cfg.n_layers,
                shareable(*cfg, n_ctx as int),
                Self::placed(layers@, index@, *cfg, n_ctx as int, i as int),
                n_ctx > 0 ==> forall|j: int|
                    0 <= j < layers@.len() ==> (#[trigger] layers@[j]).wf(),
            decreases n - i,
        {
            assert(placeable(*cfg, n_ctx as int, i as int));
            let lc = &cfg.layers[i];
            let ghost had = layers@;
            let ghost knew = index@;
            if lc.owns_kv(i) {
                index.push(layers.len());
                layers.push(new_layer(cfg, i, n_ctx));
            } else {
                // The source is always below, and therefore already placed.
                let from: usize = lc.kv_source;
                assert(reads(layers@, index@, *cfg, n_ctx as int, from as int));
                let at: usize = index[from];
                index.push(at);
            }
            proof {
                assert forall|k: int| 0 <= k < i + 1 implies #[trigger] reads(
                    layers@,
                    index@,
                    *cfg,
                    n_ctx as int,
                    k,
                ) by {
                    if k < i {
                        assert(reads(had, knew, *cfg, n_ctx as int, k));
                    }
                }
            }
            i = i + 1;
        }
        assert forall|k: int| 0 <= k < index@.len() implies (#[trigger] index@[k])
            < layers@.len() by {
            assert(reads(layers@, index@, *cfg, n_ctx as int, k));
        }
        KvCache { layers, index, len: 0, capacity: n_ctx }
    }

    /// The cache layer `il` reads from: its own, or an earlier layer's.
    pub fn layer(&self, il: usize) -> (r: &LayerCache)
        requires
            self.wf(),
            il < self.index@.len(),
        ensures
            *r == self.layers@[self.index@[il as int] as int],
    {
        &self.layers[self.index[il]]
    }

    /// The cache layer `il` reads from, to write to. What is written there is what
    /// every layer that shares it reads.
    pub fn layer_mut(&mut self, il: usize) -> (r: &mut LayerCache)
        requires
            old(self).wf(),
            il < old(self).index@.len(),
        ensures
            *r == old(self).layers@[old(self).index@[il as int] as int],
            final(self).layers@ == old(self).layers@.update(
                old(self).index@[il as int] as int,
                *final(r),
            ),
            final(self).index == old(self).index,
            final(self).len == old(self).len,
            final(self).capacity == old(self).capacity,
    {
        let at: usize = self.index[il];
        &mut self.layers[at]
    }

    /// Store a position's keys and values in the cache of layer `il`.
    pub fn store(&mut self, il: usize, pos: usize, k: &[u32], v: &[u32])
        requires
            old(self).wf(),
            il < old(self).index@.len(),
            old(self).layers@[old(self).index@[il as int] as int].fits(pos as int),
            k@.len() == old(self).layers@[old(self).index@[il as int] as int].kv_dim,
            v@.len() == old(self).layers@[old(self).index@[il as int] as int].kv_dim,
        ensures
            final(self).wf(),
            final(self).index == old(self).index,
            final(self).len == old(self).len,
            final(self).capacity == old(self).capacity,
            final(self).layers@.len() == old(self).layers@.len(),
            forall|j: int|
                0 <= j < old(self).layers@.len() && j != old(self).index@[il as int]
                    ==> #[trigger] final(self).layers@[j] == old(self).layers@[j],
            ({
                let at = old(self).index@[il as int] as int;
                let was = old(self).layers@[at];
                let now = final(self).layers@[at];
                let s = was.slot_of(pos as int);
                &&& now.k@ == with_row(was.k@, s, was.kv_dim as int, k@)
                &&& now.v@ == with_row(was.v@, s, was.kv_dim as int, v@)
                &&& now.slots == was.slots
                &&& now.kv_dim == was.kv_dim
                &&& now.window == was.window
            }),
    {
        self.layer_mut(il).store(pos, k, v);
    }

    pub fn clear(&mut self)
        ensures
            *final(self) == (KvCache { len: 0, ..*old(self) }),
    {
        self.len = 0;
    }

    /// Overwrite the cache, not just rewind it.
    ///
    /// `clear` resets the write position and leaves the keys and values of the
    /// previous conversation in place, which is correct for inference, since
    /// nothing reads past `len`; but they are still there to be read by anything
    /// else. The wipe covers the full allocation: a shorter follow-up conversation
    /// must not leave the tail of a longer one exposed.
    pub fn wipe(&mut self)
        ensures
            final(self).len == 0,
            final(self).index == old(self).index,
            final(self).capacity == old(self).capacity,
            final(self).layers@.len() == old(self).layers@.len(),
            forall|j: int|
                0 <= j < old(self).layers@.len() ==> wiped(
                    #[trigger] final(self).layers@[j],
                    old(self).layers@[j],
                ),
    {
        self.len = 0;
        let n: usize = self.layers.len();
        let mut j: usize = 0;
        while j < n
            invariant
                j <= n,
                n == self.layers@.len(),
                n == old(self).layers@.len(),
                self.len == 0,
                self.index == old(self).index,
                self.capacity == old(self).capacity,
                forall|i: int|
                    0 <= i < j ==> wiped(#[trigger] self.layers@[i], old(self).layers@[i]),
                forall|i: int| j <= i < n ==> #[trigger] self.layers@[i] == old(self).layers@[i],
            decreases n - j,
        {
            let layer = &mut self.layers[j];
            layer.wipe();
            j = j + 1;
        }
    }

    /// Drop everything from `pos` onward, as when a prefix is reused.
    pub fn truncate(&mut self, pos: usize)
        ensures
            *final(self) == (KvCache {
                len: if old(self).len < pos {
                    old(self).len
                } else {
                    pos
                },
                ..*old(self)
            }),
    {
        if pos < self.len {
            self.len = pos;
        }
    }

    /// Bytes held: keys and values at four bytes each.
    pub fn bytes(&self) -> (r: usize)
        requires
            held(self.layers@, self.layers@.len() as int) <= usize::MAX,
        ensures
            r == held(self.layers@, self.layers@.len() as int),
    {
        let n: usize = self.layers.len();
        let mut sum: usize = 0;
        let mut j: usize = 0;
        while j < n
            invariant
                j <= n,
                n == self.layers@.len(),
                held(self.layers@, n as int) <= usize::MAX,
                sum == held(self.layers@, j as int),
            decreases n - j,
        {
            proof {
                lemma_held(self.layers@, j + 1, n as int);
            }
            let l = &self.layers[j];
            sum = sum + (l.k.len() + l.v.len()) * 4;
            j = j + 1;
        }
        sum
    }
}

/// Nothing is left of what a layer held.
pub open spec fn wiped(now: LayerCache, was: LayerCache) -> bool {
    &&& now.k@ == zeros(was.k@.len())
    &&& now.v@ == zeros(was.v@.len())
    &&& now.slots == was.slots
    &&& now.kv_dim == was.kv_dim
    &&& now.window == was.window
}

/// Bytes held by the first `n` layers.
pub open spec fn held(layers: Seq<LayerCache>, n: int) -> int
    decreases n,
{
    if n <= 0 {
        0
    } else {
        held(layers, n - 1) + (layers[n - 1].k@.len() + layers[n - 1].v@.len()) * 4
    }
}

proof fn lemma_held(layers: Seq<LayerCache>, k: int, n: int)
    requires
        k <= n,
    ensures
        held(layers, k) <= held(layers, n),
        0 <= held(layers, k),
    decreases n,
{
    if n > 0 && k < n {
        lemma_held(layers, k, n - 1);
    } else if k > 0 {
        lemma_held(layers, k - 1, k - 1);
    }
}

/// Nothing of a wiped conversation can be read: every position reads as zeros.
pub proof fn wiped_rows_are_zero(now: LayerCache, was: LayerCache, pos: int)
    requires
        was.wf(),
        was.fits(pos),
        wiped(now, was),
    ensures
        now.keys(pos) == zeros(was.kv_dim as nat),
        now.values(pos) == zeros(was.kv_dim as nat),
{
    was.lemma_slot(pos);
    assert(now.keys(pos) =~= zeros(was.kv_dim as nat));
    assert(now.values(pos) =~= zeros(was.kv_dim as nat));
}

} // verus!
