//! Per-layer inference state for the hybrid stack.
//!
//! Full-attention layers keep an ordinary KV cache with no window: they see the
//! whole context. Gated-delta-net layers keep two small fixed-size buffers
//! instead: the last `kernel - 1` fused vectors of the convolution, and one square
//! matrix per v-head.
//!
//! Recurrent state cannot rewind: that of a position has already absorbed
//! everything before it. Prefix reuse therefore only works by appending, so this
//! type only grows or resets.

use crate::cache::{wiped, zeroed, zeros, LayerCache};
use crate::cpu::within;
use crate::qwen35::config::Config;
use crate::secret::zero_vec;
use vstd::prelude::*;

verus! {

pub enum LayerState {
    Linear {
        /// `(kernel - 1) * conv_dim`, time-major, oldest row first.
        conv: Vec<u32>,
        /// `n_v_heads * head_dim * head_dim`.
        s: Vec<u32>,
    },
    Attn(LayerCache),
}

pub struct State {
    pub layers: Vec<LayerState>,
    /// Number of positions absorbed so far.
    pub len: usize,
    pub capacity: usize,
}

/// Length of the convolution's window.
pub open spec fn conv_len(cfg: Config) -> int {
    (cfg.conv_kernel - 1) * cfg.conv_width()
}

/// Length of the recurrent state.
pub open spec fn state_len(cfg: Config) -> int {
    cfg.n_v_heads * cfg.lin_head_dim * cfg.lin_head_dim
}

/// The buffers that the description implies can be allocated.
pub open spec fn buffers_fit(cfg: Config, n_ctx: int) -> bool {
    &&& cfg.recurrent@.len() == cfg.n_layers
    &&& cfg.kv_width() <= usize::MAX
    &&& n_ctx * cfg.kv_width() <= usize::MAX
    &&& cfg.recurrent@.contains(true) ==> {
        &&& 1 <= cfg.conv_kernel
        &&& 2 * cfg.n_k_heads <= usize::MAX
        &&& 0 <= cfg.conv_width() <= usize::MAX
        &&& conv_len(cfg) <= usize::MAX
        &&& cfg.n_v_heads * cfg.lin_head_dim <= usize::MAX
        &&& state_len(cfg) <= usize::MAX
    }
}

/// Whether the state for a context of `n_ctx` can be made.
pub fn can_hold(cfg: &Config, n_ctx: usize) -> (r: bool)
    ensures
        r == buffers_fit(*cfg, n_ctx as int),
{
    if cfg.recurrent.len() != cfg.n_layers || !within(cfg.n_kv_heads, cfg.head_dim) || !within(
        n_ctx,
        cfg.n_kv_heads * cfg.head_dim,
    ) {
        return false;
    }
    if !cfg.any_recurrent() {
        return true;
    }
    let conv: usize = match cfg.counted_conv() {
        Some(w) => w,
        None => {
            return false;
        },
    };
    cfg.conv_kernel >= 1 && within(cfg.conv_kernel - 1, conv) && within(
        cfg.n_v_heads,
        cfg.lin_head_dim,
    ) && within(cfg.n_v_heads * cfg.lin_head_dim, cfg.lin_head_dim)
}

/// The state of layer `i` before anything was absorbed.
pub open spec fn is_new(l: LayerState, cfg: Config, i: int, n_ctx: int) -> bool {
    match l {
        LayerState::Linear { conv, s } => {
            &&& cfg.recurrent@[i]
            &&& conv@ == zeros(conv_len(cfg) as nat)
            &&& s@ == zeros(state_len(cfg) as nat)
        },
        LayerState::Attn(c) => {
            &&& !cfg.recurrent@[i]
            &&& c.k@ == zeros((n_ctx * cfg.kv_width()) as nat)
            &&& c.v@ == zeros((n_ctx * cfg.kv_width()) as nat)
            &&& c.slots == n_ctx
            &&& c.kv_dim == cfg.kv_width()
            &&& c.window is None
        },
    }
}

/// The recurrent buffers zeroed, the attention caches left alone: nothing reads
/// past the length.
pub open spec fn cleared(now: LayerState, was: LayerState) -> bool {
    match (now, was) {
        (LayerState::Linear { conv, s }, LayerState::Linear { conv: conv0, s: s0 }) => conv@
            == zeros(conv0@.len()) && s@ == zeros(s0@.len()),
        (LayerState::Attn(c), LayerState::Attn(c0)) => c == c0,
        _ => false,
    }
}

/// Nothing is left of what a layer held.
pub open spec fn erased(now: LayerState, was: LayerState) -> bool {
    match (now, was) {
        (LayerState::Linear { conv, s }, LayerState::Linear { conv: conv0, s: s0 }) => conv@
            == zeros(conv0@.len()) && s@ == zeros(s0@.len()),
        (LayerState::Attn(c), LayerState::Attn(c0)) => wiped(c, c0),
        _ => false,
    }
}

/// A window that has moved on by one row: the oldest is gone, `row` is the newest.
pub open spec fn slid(conv: Seq<u32>, row: Seq<u32>) -> Seq<u32> {
    conv.skip(row.len() as int) + row
}

/// A window that has moved on by each of `rows`, in order.
pub open spec fn slid_by(conv: Seq<u32>, rows: Seq<Seq<u32>>) -> Seq<u32>
    decreases rows.len(),
{
    if rows.len() == 0 {
        conv
    } else {
        slid(slid_by(conv, rows.drop_last()), rows.last())
    }
}

/// The rows one behind the other.
pub open spec fn flat(rows: Seq<Seq<u32>>) -> Seq<u32>
    decreases rows.len(),
{
    if rows.len() == 0 {
        Seq::empty()
    } else {
        flat(rows.drop_last()) + rows.last()
    }
}

/// However many rows have come, the window keeps its length and holds the newest of
/// what it held and what came.
pub proof fn window_holds_the_newest(conv: Seq<u32>, rows: Seq<Seq<u32>>)
    requires
        forall|i: int| 0 <= i < rows.len() ==> (#[trigger] rows[i]).len() <= conv.len(),
    ensures
        slid_by(conv, rows).len() == conv.len(),
        slid_by(conv, rows) == (conv + flat(rows)).skip(flat(rows).len() as int),
    decreases rows.len(),
{
    if rows.len() == 0 {
        assert((conv + flat(rows)).skip(0) =~= conv);
    } else {
        let front = rows.drop_last();
        let last = rows.last();
        assert(last == rows[rows.len() - 1]);
        assert forall|i: int| 0 <= i < front.len() implies (#[trigger] front[i]).len()
            <= conv.len() by {
            assert(front[i] == rows[i]);
        }
        window_holds_the_newest(conv, front);
        assert(slid_by(conv, rows) =~= (conv + flat(rows)).skip(flat(rows).len() as int));
    }
}

/// Rows that come in two batches leave the window that they leave when they come in
/// one.
pub proof fn windows_join(conv: Seq<u32>, a: Seq<Seq<u32>>, b: Seq<Seq<u32>>)
    ensures
        slid_by(conv, a + b) == slid_by(slid_by(conv, a), b),
    decreases b.len(),
{
    if b.len() == 0 {
        assert(a + b =~= a);
    } else {
        assert((a + b).drop_last() =~= a + b.drop_last());
        windows_join(conv, a, b.drop_last());
    }
}

/// Move the convolution's window on by a row: drop the oldest, append this one.
pub fn slide(conv: &mut Vec<u32>, row: &[u32])
    requires
        row@.len() <= old(conv)@.len(),
    ensures
        final(conv)@ == slid(old(conv)@, row@),
{
    let n: usize = conv.len();
    let width: usize = row.len();
    let mut i: usize = 0;
    while i < n
        invariant
            i <= n,
            n == conv@.len(),
            n == old(conv)@.len(),
            width == row@.len(),
            width <= n,
            forall|k: int| 0 <= k < i ==> conv@[k] == slid(old(conv)@, row@)[k],
            forall|k: int| i <= k < n ==> conv@[k] == old(conv)@[k],
        decreases n - i,
    {
        let x: u32 = if i < n - width { conv[i + width] } else { row[i - (n - width)] };
        conv.set(i, x);
        i = i + 1;
    }
    assert(conv@ =~= slid(old(conv)@, row@));
}

/// How many numbers a layer holds.
pub open spec fn numbers(l: LayerState) -> int {
    match l {
        LayerState::Linear { conv, s } => conv@.len() as int + s@.len(),
        LayerState::Attn(c) => c.k@.len() as int + c.v@.len(),
    }
}

/// How many numbers the first `n` layers hold.
pub open spec fn held(layers: Seq<LayerState>, n: int) -> int
    decreases n,
{
    if n <= 0 {
        0
    } else {
        held(layers, n - 1) + numbers(layers[n - 1])
    }
}

proof fn lemma_held(layers: Seq<LayerState>, k: int, n: int)
    requires
        k <= n,
    ensures
        held(layers, k) <= held(layers, n),
        0 <= held(layers, k),
    decreases n,
{
    if n > 0 && k < n {
        lemma_held(layers, k, n - 1);
    } else if k > 0 {
        lemma_held(layers, k - 1, k - 1);
    }
}

impl State {
    pub fn new(cfg: &Config, n_ctx: usize) -> (r: Self)
        requires
            buffers_fit(*cfg, n_ctx as int),
        ensures
            r.len == 0,
            r.capacity == n_ctx,
            r.layers@.len() == cfg.n_layers,
            forall|i: int|
                0 <= i < cfg.n_layers ==> is_new(
                    #[trigger] r.layers@[i],
                    *cfg,
                    i,
                    n_ctx as int,
                ),
    {
        let n: usize = cfg.n_layers;
        let mut layers: Vec<LayerState> = Vec::new();
        let mut i: usize = 0;
        while i < n
            invariant
                i <= n,
                n == cfg.n_layers,
                buffers_fit(*cfg, n_ctx as int),
                layers@.len() == i,
                forall|k: int|
                    0 <= k < i ==> is_new(#[trigger] layers@[k], *cfg, k, n_ctx as int),
            decreases n - i,
        {
            let l = if cfg.recurrent[i] {
                assert(cfg.recurrent@.contains(cfg.recurrent@[i as int]));
                let width: usize = cfg.conv_dim();
                let conv: usize = (cfg.conv_kernel - 1) * width;
                let s: usize = cfg.n_v_heads * cfg.lin_head_dim * cfg.lin_head_dim;
                LayerState::Linear { conv: zeroed(conv), s: zeroed(s) }
            } else {
                let kv_dim: usize = cfg.kv_dim();
                let size: usize = n_ctx * kv_dim;
                LayerState::Attn(
                    LayerCache {
                        k: zeroed(size),
                        v: zeroed(size),
                        slots: n_ctx,
                        kv_dim,
                        window: None,
                    },
                )
            };
            layers.push(l);
            i = i + 1;
        }
        State { layers, len: 0, capacity: n_ctx }
    }

    /// Start over. The recurrent buffers are zeroed, because the recurrence is
    /// cumulative.
    pub fn clear(&mut self)
        ensures
            final(self).len == 0,
            final(self).capacity == old(self).capacity,
            final(self).layers@.len() == old(self).layers@.len(),
            forall|i: int|
                0 <= i < old(self).layers@.len() ==> cleared(
                    #[trigger] final(self).layers@[i],
                    old(self).layers@[i],
                ),
    {
        self.len = 0;
        let n: usize = self.layers.len();
        let mut j: usize = 0;
        while j < n
            invariant
                j <= n,
                n == self.layers@.len(),
                n == old(self).layers@.len(),
                self.len == 0,
                self.capacity == old(self).capacity,
                forall|i: int|
                    0 <= i < j ==> cleared(#[trigger] self.layers@[i], old(self).layers@[i]),
                forall|i: int| j <= i < n ==> #[trigger] self.layers@[i] == old(self).layers@[i],
            decreases n - j,
        {
            let layer = &mut self.layers[j];
            match layer {
                LayerState::Linear { conv, s } => {
                    zero_vec(conv);
                    zero_vec(s);
                },
                LayerState::Attn(_) => {},
            }
            j = j + 1;
        }
    }

    /// Overwrite every layer's state, attention caches included, for when the goal
    /// is that the conversation stops existing.
    pub fn wipe(&mut self)
        ensures
            final(self).len == 0,
            final(self).capacity == old(self).capacity,
            final(self).layers@.len() == old(self).layers@.len(),
            forall|i: int|
                0 <= i < old(self).layers@.len() ==> erased(
                    #[trigger] final(self).layers@[i],
                    old(self).layers@[i],
                ),
    {
        self.len = 0;
        let n: usize = self.layers.len();
        let mut j: usize = 0;
        while j < n
            invariant
                j <= n,
                n == self.layers@.len(),
                n == old(self).layers@.len(),
                self.len == 0,
                self.capacity == old(self).capacity,
                forall|i: int|
                    0 <= i < j ==> erased(#[trigger] self.layers@[i], old(self).layers@[i]),
                forall|i: int| j <= i < n ==> #[trigger] self.layers@[i] == old(self).layers@[i],
            decreases n - j,
        {
            let layer = &mut self.layers[j];
            match layer {
                LayerState::Linear { conv, s } => {
                    zero_vec(conv);
                    zero_vec(s);
                },
                LayerState::Attn(c) => {
                    c.wipe();
                },
            }
            j = j + 1;
        }
    }

    /// Bytes held, at four a number.
    pub fn bytes(&self) -> (r: usize)
        requires
            held(self.layers@, self.layers@.len() as int) * 4 <= usize::MAX,
        ensures
            r == held(self.layers@, self.layers@.len() as int) * 4,
    {
        let n: usize = self.layers.len();
        let mut sum: usize = 0;
        let mut j: usize = 0;
        while j < n
            invariant
                j <= n,
                n == self.layers@.len(),
                held(self.layers@, n as int) * 4 <= usize::MAX,
                sum == held(self.layers@, j as int),
            decreases n - j,
        {
            proof {
                lemma_held(self.layers@, j + 1, n as int);
            }
            sum = sum + match &self.layers[j] {
                LayerState::Linear { conv, s } => conv.len() + s.len(),
                LayerState::Attn(c) => c.k.len() + c.v.len(),
            };
            j = j + 1;
        }
        sum * 4
    }
}

} // verus!
