//! The gemma4 forward pass as a dispatch plan.
//!
//! The plan mirrors the reference forward pass step for step; the checkpoints
//! carry the same names, so the two can be compared buffer by buffer.

use crate::checks::{first_error, lemma_first_error, lemma_first_error_concat, lemma_no_error};
use crate::config::{Config, LayerConfig};
use crate::cpu::within;
use crate::gguf::GgmlType;
use crate::gpu::arena::{tensor_named, Handle};
use crate::gpu::grid::{self, matvec_kernel, row_grid, Kernel, WG_OPS};
use crate::gpu::plan::{
    attend, bare_norm_op, find_mark, float_rows, floats, is_pass, layer_mark, lower, make_pass, norm_op, one, ops,
    opt_view, param_at, plain, positioned, project, projection_error, scaled_op, slot_offset,
    weight_at, Attn, Bind, Buf, Builder, CachedPlan, Dispatch, Grid, MatvecParams, Node, Op,
    ParamArena, Pass, PlanError, PlanErrorView, Slot, Weights, MAX_SLOTS, ONE,
};
use crate::header::{Header, HeaderView, TensorInfoView};
use crate::text;
use vstd::prelude::*;

verus! {

/// The floating-point parameters of a model, as single-precision bits.
pub struct Scalars {
    /// Embeddings are multiplied by this on the way in.
    pub embed_scale: u32,
    pub rms_eps: u32,
    /// Logits are squashed by this cap, where there is one.
    pub softcap: Option<u32>,
    /// Attention softmax scale.
    pub attn_scale: u32,
    /// RoPE base of each layer.
    pub rope_bases: Vec<u32>,
    /// Scalar applied to the whole residual stream at the end of each layer.
    pub layer_scales: Vec<u32>,
}

/// A resident gemma4 model: what a plan is made from.
pub struct Resident {
    pub cfg: Config,
    pub weights: Weights,
    pub param_off: ParamArena,
    pub scalars: Scalars,
    pub grid: Grid,
    pub n_ctx: usize,
}

/// The gemma4 model on the device, as far as planning needs to know it.
pub struct GpuModel {
    pub res: Resident,
    pub max_batch: usize,
    pub pos: usize,
    /// When set, a pass stops at the named checkpoint and gives that buffer
    /// instead of logits.
    pub debug_stop: Option<String>,
    /// Plan for single tokens, made once: decode is one token at a time with a
    /// fixed shape.
    pub decode: Option<CachedPlan>,
    /// The plan of the last batch that was not a cached decode step.
    pub prefill: Option<CachedPlan>,
}

/// What one layer looks up.
#[derive(Clone, Copy)]
pub struct LayerRefs {
    pub attn_norm: u32,
    pub q: Handle,
    pub k: Handle,
    /// `None` where V is projected with K's weight.
    pub v: Option<Handle>,
    pub q_norm: u32,
    pub k_norm: u32,
    pub output: Handle,
    pub post_attention_norm: u32,
    pub ffn_norm: u32,
    pub gate: Handle,
    pub up: Handle,
    pub down: Handle,
    pub post_ffw_norm: u32,
}

/// The name of a tensor of layer `il`; `suffix` starts with a dot.
pub open spec fn blk(il: int, suffix: Seq<char>) -> Seq<char> {
    text::numbered("blk."@, il as nat, suffix)
}

pub(crate) fn blk_name(il: usize, suffix: &str) -> (s: String)
    ensures
        s@ == blk(il as int, suffix@),
{
    text::numbered_string("blk.", il, suffix)
}

/// The largest number that a batch of up to `max` comes to as a 32-bit word.
pub open spec fn most_words(max: int) -> int {
    if max <= u32::MAX {
        max
    } else {
        u32::MAX as int
    }
}

/// Whether `x` rows per token can be counted in words, for every batch of up to `max`.
pub(crate) fn words_fit(max: usize, x: u32) -> (r: bool)
    ensures
        r == (most_words(max as int) * x <= u32::MAX),
{
    let most: u32 = if max <= u32::MAX as usize {
        max as u32
    } else {
        u32::MAX
    };
    most.checked_mul(x).is_some()
}

pub(crate) proof fn lemma_words(t: int, max: int, x: u32)
    requires
        0 < t <= max <= usize::MAX,
        most_words(max) * x <= u32::MAX,
    ensures
        (t as u32) * x <= u32::MAX,
{
    let w = (t as u32) as int;
    let m = most_words(max);
    assert(w <= m);
    assert(w * x <= m * x) by (nonlinear_arith)
        requires
            0 <= w <= m,
    ;
}

/// Whether `a` rows of `b` numbers can be sized in bytes.
pub(crate) fn bytes_fit(a: usize, b: usize) -> (r: bool)
    ensures
        r == (a * b * 4 <= usize::MAX),
{
    match a.checked_mul(b) {
        Some(n) => n.checked_mul(4).is_some(),
        None => false,
    }
}

impl Resident {
    // -- dimensions ---------------------------------------------------------
    pub open spec fn layer(&self, il: int) -> LayerConfig {
        self.cfg.layers@[il]
    }

    pub open spec fn q_dim(&self, il: int) -> int {
        self.cfg.n_heads * self.layer(il).head_dim
    }

    /// The numbers that a batch of `t` multiplies out fit their types.
    pub open spec fn fits(&self, t: int) -> bool {
        &&& t * self.cfg.d_model <= usize::MAX
        &&& t * self.cfg.ffn_dim <= usize::MAX
        &&& (t as u32) * (self.cfg.n_heads as u32) <= u32::MAX
        &&& forall|il: int| 0 <= il < self.cfg.n_layers ==> #[trigger] self.layer_fits(il, t)
    }

    pub open spec fn layer_fits(&self, il: int, t: int) -> bool {
        &&& self.q_dim(il) <= usize::MAX
        &&& self.layer(il).kv_width() <= usize::MAX
        &&& (t as u32) * (self.layer(il).n_kv_heads as u32) <= u32::MAX
        &&& (t as u32) * (self.layer(il).kv_width() as u32) <= u32::MAX
    }

    /// The parts of the model agree on the number of layers, and a plan's slots
    /// can be numbered.
    pub open spec fn wf(&self) -> bool {
        &&& self.cfg.layers@.len() >= self.cfg.n_layers
        &&& self.scalars.rope_bases@.len() >= self.cfg.n_layers
        &&& self.scalars.layer_scales@.len() >= self.cfg.n_layers
        &&& self.grid.tile > 0
        &&& 32 * self.cfg.n_layers + 8 <= MAX_SLOTS
    }

    /// Batches of up to `max` can be planned, and positions are 32-bit words.
    pub open spec fn runs(&self, max: int) -> bool {
        &&& self.wf()
        &&& self.n_ctx <= u32::MAX
        &&& forall|t: int| 0 < t <= max ==> #[trigger] self.fits(t)
        &&& forall|t: int| 0 < t <= max ==> #[trigger] (t * self.cfg.d_model) * 4 <= usize::MAX
    }

    /// Whether a layer's rows fit for every batch of up to `max`.
    fn layer_runs(&self, il: usize, max: usize) -> (r: bool)
        requires
            il < self.cfg.layers@.len(),
            0 < max,
        ensures
            r ==> forall|t: int| 0 < t <= max ==> #[trigger] self.layer_fits(il as int, t),
            !r ==> exists|t: int| 0 < t <= max && !(#[trigger] self.layer_fits(il as int, t)),
    {
        let l = &self.cfg.layers[il];
        let ghost m = max as int;
        if !within(self.cfg.n_heads, l.head_dim) || !within(l.n_kv_heads, l.head_dim) {
            assert(!self.layer_fits(il as int, m));
            return false;
        }
        let kv: usize = l.n_kv_heads * l.head_dim;
        if !words_fit(max, l.n_kv_heads as u32) || !words_fit(max, kv as u32) {
            assert(!self.layer_fits(il as int, most_words(m)));
            return false;
        }
        assert forall|t: int| 0 < t <= max implies #[trigger] self.layer_fits(il as int, t) by {
            lemma_words(t, m, l.n_kv_heads as u32);
            lemma_words(t, m, kv as u32);
        }
        true
    }

    /// Whether batches of up to `max` can be planned.
    pub fn can_run(&self, max: usize) -> (r: bool)
        ensures
            r == self.runs(max as int),
    {
        let n: usize = self.cfg.n_layers;
        if self.cfg.layers.len() < n || self.scalars.rope_bases.len() < n
            || self.scalars.layer_scales.len() < n || self.grid.tile == 0 || n > (MAX_SLOTS - 8)
            / 32 || self.n_ctx > u32::MAX as usize {
            return false;
        }
        if max == 0 {
            return true;
        }
        let ghost m = max as int;
        if !bytes_fit(max, self.cfg.d_model) || !within(max, self.cfg.ffn_dim) || !words_fit(
            max,
            self.cfg.n_heads as u32,
        ) {
            proof {
                assert(!self.fits(m) || !((m * self.cfg.d_model) * 4 <= usize::MAX) || !self.fits(
                    most_words(m),
                ));
            }
            return false;
        }
        let mut i: usize = 0;
        while i < n
            invariant
                i <= n,
                n == self.cfg.n_layers,
                n <= self.cfg.layers@.len(),
                0 < max,
                forall|il: int, t: int|
                    0 <= il < i && 0 < t <= max ==> #[trigger] self.layer_fits(il, t),
            decreases n - i,
        {
            if !self.layer_runs(i, max) {
                proof {
                    let t = choose|t: int|
                        0 < t <= max && !(#[trigger] self.layer_fits(i as int, t));
                    assert(!self.fits(t));
                }
                return false;
            }
            i = i + 1;
        }
        proof {
            let (d, f) = (self.cfg.d_model as int, self.cfg.ffn_dim as int);
            assert forall|t: int| 0 < t <= max implies #[trigger] self.fits(t) by {
                lemma_words(t, m, self.cfg.n_heads as u32);
                assert(t * d <= m * d && t * f <= m * f) by (nonlinear_arith)
                    requires
                        0 < t <= m,
                        0 <= d,
                        0 <= f,
                ;
            }
            assert forall|t: int| 0 < t <= max implies #[trigger] (t * self.cfg.d_model) * 4
                <= usize::MAX by {
                assert(t * d <= m * d) by (nonlinear_arith)
                    requires
                        0 < t <= m,
                        0 <= d,
                ;
            }
        }
        true
    }

    // -- lookups ------------------------------------------------------------
    pub open spec fn param_error(&self, name: Seq<char>) -> Option<PlanErrorView> {
        crate::checks::err_of(param_at(self.param_off.offsets@, name))
    }

    pub open spec fn weight_error(&self, name: Seq<char>, t: int) -> Option<PlanErrorView> {
        projection_error(self.weights.handles@, name, t as u32)
    }

    pub open spec fn param(&self, name: Seq<char>) -> u32 {
        param_at(self.param_off.offsets@, name)->Ok_0
    }

    pub open spec fn weight(&self, name: Seq<char>) -> Handle {
        weight_at(self.weights.handles@, name)->Ok_0
    }

    /// What can be missing from layer `il`, in the order in which it is noticed.
    pub open spec fn layer_errors(&self, il: int, t: int) -> Seq<Option<PlanErrorView>> {
        seq![
            self.param_error(blk(il, ".attn_norm.weight"@)),
            self.weight_error(blk(il, ".attn_q.weight"@), t),
            self.weight_error(blk(il, ".attn_k.weight"@), t),
            if self.layer(il).v_from_k {
                None
            } else {
                self.weight_error(blk(il, ".attn_v.weight"@), t)
            },
            self.param_error(blk(il, ".attn_q_norm.weight"@)),
            self.param_error(blk(il, ".attn_k_norm.weight"@)),
            self.weight_error(blk(il, ".attn_output.weight"@), t),
            self.param_error(blk(il, ".post_attention_norm.weight"@)),
            self.param_error(blk(il, ".ffn_norm.weight"@)),
            self.weight_error(blk(il, ".ffn_gate.weight"@), t),
            self.weight_error(blk(il, ".ffn_up.weight"@), t),
            self.weight_error(blk(il, ".ffn_down.weight"@), t),
            self.param_error(blk(il, ".post_ffw_norm.weight"@)),
        ]
    }

    pub open spec fn refs_of(&self, il: int) -> LayerRefs {
        LayerRefs {
            attn_norm: self.param(blk(il, ".attn_norm.weight"@)),
            q: self.weight(blk(il, ".attn_q.weight"@)),
            k: self.weight(blk(il, ".attn_k.weight"@)),
            v: if self.layer(il).v_from_k {
                None
            } else {
                Some(self.weight(blk(il, ".attn_v.weight"@)))
            },
            q_norm: self.param(blk(il, ".attn_q_norm.weight"@)),
            k_norm: self.param(blk(il, ".attn_k_norm.weight"@)),
            output: self.weight(blk(il, ".attn_output.weight"@)),
            post_attention_norm: self.param(blk(il, ".post_attention_norm.weight"@)),
            ffn_norm: self.param(blk(il, ".ffn_norm.weight"@)),
            gate: self.weight(blk(il, ".ffn_gate.weight"@)),
            up: self.weight(blk(il, ".ffn_up.weight"@)),
            down: self.weight(blk(il, ".ffn_down.weight"@)),
            post_ffw_norm: self.param(blk(il, ".post_ffw_norm.weight"@)),
        }
    }

    /// Every weight that was found has a kernel.
    pub open spec fn runnable(r: LayerRefs, t: int) -> bool {
        &&& matvec_kernel(r.q.ty, t as u32) is Some
        &&& matvec_kernel(r.k.ty, t as u32) is Some
        &&& r.v is Some ==> matvec_kernel(r.v->0.ty, t as u32) is Some
        &&& matvec_kernel(r.output.ty, t as u32) is Some
        &&& matvec_kernel(r.gate.ty, t as u32) is Some
        &&& matvec_kernel(r.up.ty, t as u32) is Some
        &&& matvec_kernel(r.down.ty, t as u32) is Some
    }

    /// What can be missing from layer `il` on, then from the output head.
    pub open spec fn errors_from(&self, il: int, t: int) -> Seq<Option<PlanErrorView>>
        decreases self.cfg.n_layers - il,
    {
        if il >= self.cfg.n_layers {
            seq![
                self.param_error("output_norm.weight"@),
                self.weight_error("token_embd.weight"@, 1),
            ]
        } else {
            self.layer_errors(il, t) + self.errors_from(il + 1, t)
        }
    }

    /// What can be missing, in the order in which it is noticed.
    pub open spec fn errors(&self, t: int) -> Seq<Option<PlanErrorView>> {
        seq![
            crate::checks::err_of(weight_at(self.weights.handles@, "token_embd.weight"@)),
        ] + self.errors_from(0, t)
    }

    // -- steps --------------------------------------------------------------
    /// The embedding gather, scaled.
    pub open spec fn embed_nodes(&self, t: int) -> Seq<Node> {
        let e = self.weight("token_embd.weight"@);
        let (tt, d) = (t as u32, self.cfg.d_model as u32);
        seq![
            one(
                Slot::Matvec(
                    MatvecParams {
                        w_base: e.base_u32,
                        in_dim: d,
                        out_dim: self.cfg.vocab as u32,
                        n_tokens: tt,
                    },
                ),
                Kernel::Embed { ty: GgmlType::Q6K },
                Bind::Matvec { weights: e.buffer, x: Buf::Zero, y: Buf::H },
                (16, tt, 1),
            ),
            ops(
                scaled_op(tt, d, self.scalars.embed_scale),
                Kernel::Scale,
                Buf::Zero,
                Buf::Zero,
                Buf::H,
                (t * self.cfg.d_model) as u32,
                WG_OPS,
            ),
            Node::Mark { name: "inp_scaled"@, buf: 0 },
        ]
    }

    /// Pre-attention norm and the Q, K and V projections. On global layers V has
    /// no weight of its own and copies the raw K projection.
    pub open spec fn qkv_nodes(&self, r: LayerRefs, il: int, t: int) -> Seq<Node> {
        let (tt, d) = (t as u32, self.cfg.d_model as u32);
        let td = (t * self.cfg.d_model) as u32;
        let kv = self.layer(il).kv_width() as u32;
        seq![
            ops(plain(tt, d), Kernel::Copy, Buf::H, Buf::Zero, Buf::X, td, WG_OPS),
            ops(
                norm_op(tt, d, r.attn_norm, self.scalars.rms_eps),
                Kernel::RmsNorm,
                Buf::Zero,
                Buf::Zero,
                Buf::X,
                tt,
                1,
            ),
            layer_mark("attn_norm-"@, il, 1),
            project(self.grid, r.q, d, self.q_dim(il) as u32, tt, Buf::X, Buf::Q),
            project(self.grid, r.k, d, kv, tt, Buf::X, Buf::K),
            match r.v {
                Some(v) => project(self.grid, v, d, kv, tt, Buf::X, Buf::V),
                None => ops(
                    plain(tt, kv),
                    Kernel::Copy,
                    Buf::K,
                    Buf::Zero,
                    Buf::V,
                    (tt * kv) as u32,
                    WG_OPS,
                ),
            },
            layer_mark("Vcur-"@, il, 4),
            layer_mark("Qcur-"@, il, 2),
        ]
    }

    /// RoPE of one of Q and K.
    pub open spec fn rope_op(&self, il: int, t: int, heads: u32) -> Op {
        let l = self.layer(il);
        Op {
            n_rows: ((t as u32) * heads) as u32,
            dim: l.head_dim as u32,
            off0: match param_at(self.param_off.offsets@, "rope_freqs.weight"@) {
                Ok(o) => o,
                Err(_) => 0,
            },
            off1: if l.rope_factors {
                1
            } else {
                0
            },
            f0: self.scalars.rope_bases@[il],
            f1: 0,
            u0: heads,
            u1: 0,
        }
    }

    /// Per-head norms, then RoPE. V gets a bare norm and no rotation.
    pub open spec fn rotate_nodes(&self, r: LayerRefs, il: int, t: int) -> Seq<Node> {
        let tt = t as u32;
        let hd = self.layer(il).head_dim as u32;
        let (nh, nkv) = (self.cfg.n_heads as u32, self.layer(il).n_kv_heads as u32);
        let (tq, tk) = ((tt * nh) as u32, (tt * nkv) as u32);
        let eps = self.scalars.rms_eps;
        let z = Buf::Zero;
        seq![
            ops(norm_op(tq, hd, r.q_norm, eps), Kernel::RmsNorm, z, z, Buf::Q, tq, 1),
            ops(norm_op(tk, hd, r.k_norm, eps), Kernel::RmsNorm, z, z, Buf::K, tk, 1),
            ops(bare_norm_op(tk, hd, eps), Kernel::RmsNorm, z, z, Buf::V, tk, 1),
            layer_mark("Vcur_normed-"@, il, 4),
            layer_mark("Qcur_normed-"@, il, 2),
            positioned(self.rope_op(il, t, nh), Kernel::Rope, z, z, Buf::Q, tq, 1),
            positioned(self.rope_op(il, t, nkv), Kernel::Rope, z, z, Buf::K, tk, 1),
            layer_mark("Qcur_pos-"@, il, 2),
        ]
    }

    /// The ring size of a layer's cache, or 0 for a linear one.
    pub open spec fn window(&self, il: int) -> u32 {
        match self.layer(il).window {
            Some(w) => (if w < self.n_ctx {
                w
            } else {
                self.n_ctx
            }) as u32,
            None => 0,
        }
    }

    /// The smallest ring among the first `n` layers, or 0 where none has one.
    pub open spec fn narrowest(&self, n: int) -> u32
        decreases n,
    {
        if n <= 0 {
            0
        } else {
            let before = self.narrowest(n - 1);
            let w = self.window(n - 1);
            if before == 0 || 0 < w < before {
                w
            } else {
                before
            }
        }
    }

    /// How many of `t` tokens at `pos` run as one batch. A plan writes all rows of a
    /// batch before its first token attends, and rings hold just the window's rows.
    /// So where a batch would wrap a ring it stops short of that, and from there on
    /// tokens run one by one.
    pub open spec fn stretch(&self, pos: int, t: int) -> int {
        let ring = self.narrowest(self.cfg.n_layers as int);
        if ring == 0 || pos + t <= ring {
            t
        } else if pos + 1 < ring {
            ring - pos
        } else {
            1
        }
    }

    /// The slot of a position in a layer's cache.
    pub open spec fn slot(&self, il: int, p: int) -> int {
        let w = self.window(il);
        if w == 0 {
            p
        } else {
            p % (w as int)
        }
    }

    pub open spec fn write_op(&self, il: int, t: int) -> Op {
        Op {
            n_rows: t as u32,
            dim: self.layer(il).kv_width() as u32,
            off0: 0,
            off1: 0,
            f0: 0,
            f1: 0,
            u0: self.window(il),
            u1: 0,
        }
    }

    pub open spec fn attn_slot(&self, il: int, t: int) -> Slot {
        Slot::Attention(
            Attn {
                n_tokens: t as u32,
                n_heads: self.cfg.n_heads as u32,
                n_kv_heads: self.layer(il).n_kv_heads as u32,
                head_dim: self.layer(il).head_dim as u32,
                kv_dim: self.layer(il).kv_width() as u32,
                base_pos: 0,
                window: self.window(il),
                max_vis: 0,
                scale: self.scalars.attn_scale,
                bidi: 0,
            },
        )
    }

    /// Cache write, the three attention passes, output projection, post-norm and
    /// residual.
    pub open spec fn attn_nodes(&self, r: LayerRefs, il: int, t: int) -> Seq<Node> {
        let (tt, d) = (t as u32, self.cfg.d_model as u32);
        let td = (t * self.cfg.d_model) as u32;
        let tkv = (tt * (self.layer(il).kv_width() as u32)) as u32;
        let w = self.write_op(il, t);
        let ck = Buf::CacheK(il as usize);
        let cv = Buf::CacheV(il as usize);
        seq![
            positioned(w, Kernel::WriteCache, Buf::K, Buf::Zero, ck, tkv, WG_OPS),
            positioned(w, Kernel::WriteCache, Buf::V, Buf::Zero, cv, tkv, WG_OPS),
            attend(
                self.attn_slot(il, t),
                Bind::Attn { q: Buf::Q, k: ck, v: cv, scores: Buf::Scores, out: Buf::Attn },
                self.cfg.n_heads as u32,
                tt,
            ),
            layer_mark("kqv_out-"@, il, 5),
            project(self.grid, r.output, self.q_dim(il) as u32, d, tt, Buf::Attn, Buf::Proj),
            ops(
                norm_op(tt, d, r.post_attention_norm, self.scalars.rms_eps),
                Kernel::RmsNorm,
                Buf::Zero,
                Buf::Zero,
                Buf::Proj,
                tt,
                1,
            ),
            ops(
                scaled_op(tt, d, ONE),
                Kernel::AddScale,
                Buf::Zero,
                Buf::Proj,
                Buf::H,
                td,
                WG_OPS,
            ),
            layer_mark("attn_out-"@, il, 0),
        ]
    }

    /// The feed-forward block. The residual add is fused with the layer's scale.
    pub open spec fn ffn_nodes(&self, r: LayerRefs, il: int, t: int) -> Seq<Node> {
        let (tt, d) = (t as u32, self.cfg.d_model as u32);
        let td = (t * self.cfg.d_model) as u32;
        let f = self.cfg.ffn_dim as u32;
        let eps = self.scalars.rms_eps;
        let z = Buf::Zero;
        seq![
            ops(plain(tt, d), Kernel::Copy, Buf::H, z, Buf::X, td, WG_OPS),
            ops(norm_op(tt, d, r.ffn_norm, eps), Kernel::RmsNorm, z, z, Buf::X, tt, 1),
            project(self.grid, r.gate, d, f, tt, Buf::X, Buf::Gate),
            project(self.grid, r.up, d, f, tt, Buf::X, Buf::Up),
            ops(
                plain(tt, f),
                Kernel::Geglu,
                z,
                Buf::Up,
                Buf::Gate,
                (t * self.cfg.ffn_dim) as u32,
                WG_OPS,
            ),
            layer_mark("ffn_geglu-"@, il, 7),
            project(self.grid, r.down, f, d, tt, Buf::Gate, Buf::Proj),
            ops(norm_op(tt, d, r.post_ffw_norm, eps), Kernel::RmsNorm, z, z, Buf::Proj, tt, 1),
            ops(
                scaled_op(tt, d, self.scalars.layer_scales@[il]),
                Kernel::AddScale,
                z,
                Buf::Proj,
                Buf::H,
                td,
                WG_OPS,
            ),
            layer_mark("l_out-"@, il, 0),
        ]
    }

    /// One layer.
    pub open spec fn layer_nodes(&self, il: int, t: int) -> Seq<Node> {
        let r = self.refs_of(il);
        self.qkv_nodes(r, il, t) + self.rotate_nodes(r, il, t) + self.attn_nodes(r, il, t)
            + self.ffn_nodes(r, il, t)
    }

    /// The embeddings and the first `n` layers.
    pub open spec fn nodes_to(&self, n: int, t: int) -> Seq<Node>
        decreases n,
    {
        if n <= 0 {
            self.embed_nodes(t)
        } else {
            self.nodes_to(n - 1, t) + self.layer_nodes(n - 1, t)
        }
    }

    /// The whole pass up to the final norm.
    pub open spec fn nodes(&self, t: int) -> Seq<Node> {
        let (tt, d) = (t as u32, self.cfg.d_model as u32);
        self.nodes_to(self.cfg.n_layers as int, t) + seq![
            ops(
                norm_op(tt, d, self.param("output_norm.weight"@), self.scalars.rms_eps),
                Kernel::RmsNorm,
                Buf::Zero,
                Buf::Zero,
                Buf::H,
                tt,
                1,
            ),
            Node::Mark { name: "h_nextn"@, buf: 0 },
        ]
    }

    /// The slots of the output head: the projection, then the cap.
    pub open spec fn tail_slots(&self) -> Seq<Slot> {
        let h = self.weight("token_embd.weight"@);
        seq![
            Slot::Matvec(
                MatvecParams {
                    w_base: h.base_u32,
                    in_dim: self.cfg.d_model as u32,
                    out_dim: self.cfg.vocab as u32,
                    n_tokens: 1,
                },
            ),
            Slot::Fixed(
                scaled_op(
                    0,
                    self.cfg.vocab as u32,
                    match self.scalars.softcap {
                        Some(c) => c,
                        None => 0,
                    },
                ),
            ),
        ]
    }

    /// The output head: the tied projection, then the cap where there is one.
    pub open spec fn tail(&self) -> Seq<Dispatch> {
        let h = self.weight("token_embd.weight"@);
        let out = Dispatch {
            kernel: matvec_kernel(h.ty, 1)->0,
            bind: Bind::Matvec { weights: h.buffer, x: Buf::X, y: Buf::Logits },
            offset: slot_offset(0),
            groups: (
                row_grid((self.cfg.vocab as u32) as int, self.grid.max_groups as int) as u32,
                1,
                1,
            ),
        };
        let cap = Dispatch {
            kernel: Kernel::SoftCap,
            bind: Bind::Ops { a: Buf::Zero, b: Buf::Zero, out: Buf::Logits },
            offset: slot_offset(1),
            groups: (
                grid::cell_groups((self.cfg.vocab as u32) as int, WG_OPS as int) as u32,
                1,
                1,
            ),
        };
        if self.scalars.softcap is Some {
            seq![out, cap]
        } else {
            seq![out]
        }
    }

    /// The plan for a batch of `t`.
    pub open spec fn is_plan(&self, p: CachedPlan, t: int) -> bool {
        &&& p.body() == lower(self.nodes(t))
        &&& p.tail@ == self.tail()
        &&& p.tail_slots@ == self.tail_slots()
    }
}

/// Parameters with everything but the row count and the width zero.
pub fn plain_of(n_rows: u32, dim: u32) -> (o: Op)
    ensures
        o == plain(n_rows, dim),
{
    Op { n_rows, dim, off0: 0, off1: 0, f0: 0, f1: 0, u0: 0, u1: 0 }
}

/// Parameters of a norm.
pub fn norm_of(n_rows: u32, dim: u32, off0: u32, eps: u32) -> (o: Op)
    ensures
        o == norm_op(n_rows, dim, off0, eps),
{
    Op { n_rows, dim, off0, off1: 0, f0: eps, f1: 0, u0: 1, u1: 0 }
}

/// Parameters with one factor; also those of a norm without gains.
pub fn scaled_of(n_rows: u32, dim: u32, f0: u32) -> (o: Op)
    ensures
        o == scaled_op(n_rows, dim, f0),
        o == bare_norm_op(n_rows, dim, f0),
{
    Op { n_rows, dim, off0: 0, off1: 0, f0, f1: 0, u0: 0, u1: 0 }
}

impl Resident {
    fn layer_refs(&self, il: usize, t: usize) -> (r: Result<LayerRefs, PlanError>)
        requires
            self.wf(),
            il < self.cfg.n_layers,
        ensures
            match r {
                Ok(x) => first_error(self.layer_errors(il as int, t as int)) is None && x
                    == self.refs_of(il as int) && Self::runnable(x, t as int),
                Err(e) => first_error(self.layer_errors(il as int, t as int)) == Some(e@),
            },
    {
        let ghost errs = self.layer_errors(il as int, t as int);
        let tt: u32 = t as u32;
        let attn_norm: u32 = match self.param_off.at(blk_name(il, ".attn_norm.weight").as_str()) {
            Ok(x) => x,
            Err(e) => {
                proof {
                    lemma_first_error(errs, 0);
                }
                return Err(e);
            },
        };
        let q = match self.weights.projection(blk_name(il, ".attn_q.weight").as_str(), tt) {
            Ok(x) => x,
            Err(e) => {
                proof {
                    lemma_first_error(errs, 1);
                }
                return Err(e);
            },
        };
        let k = match self.weights.projection(blk_name(il, ".attn_k.weight").as_str(), tt) {
            Ok(x) => x,
            Err(e) => {
                proof {
                    lemma_first_error(errs, 2);
                }
                return Err(e);
            },
        };
        let v: Option<Handle> = if self.cfg.layers[il].v_from_k {
            None
        } else {
            match self.weights.projection(blk_name(il, ".attn_v.weight").as_str(), tt) {
                Ok(x) => Some(x),
                Err(e) => {
                    proof {
                        lemma_first_error(errs, 3);
                    }
                    return Err(e);
                },
            }
        };
        let q_norm: u32 = match self.param_off.at(blk_name(il, ".attn_q_norm.weight").as_str()) {
            Ok(x) => x,
            Err(e) => {
                proof {
                    lemma_first_error(errs, 4);
                }
                return Err(e);
            },
        };
        let k_norm: u32 = match self.param_off.at(blk_name(il, ".attn_k_norm.weight").as_str()) {
            Ok(x) => x,
            Err(e) => {
                proof {
                    lemma_first_error(errs, 5);
                }
                return Err(e);
            },
        };
        let output = match self.weights.projection(blk_name(il, ".attn_output.weight").as_str(), tt) {
            Ok(x) => x,
            Err(e) => {
                proof {
                    lemma_first_error(errs, 6);
                }
                return Err(e);
            },
        };
        let post_attention_norm: u32 = match self.param_off.at(blk_name(il, ".post_attention_norm.weight").as_str()) {
            Ok(x) => x,
            Err(e) => {
                proof {
                    lemma_first_error(errs, 7);
                }
                return Err(e);
            },
        };
        let ffn_norm: u32 = match self.param_off.at(blk_name(il, ".ffn_norm.weight").as_str()) {
            Ok(x) => x,
            Err(e) => {
                proof {
                    lemma_first_error(errs, 8);
                }
                return Err(e);
            },
        };
        let gate = match self.weights.projection(blk_name(il, ".ffn_gate.weight").as_str(), tt) {
            Ok(x) => x,
            Err(e) => {
                proof {
                    lemma_first_error(errs, 9);
                }
                return Err(e);
            },
        };
        let up = match self.weights.projection(blk_name(il, ".ffn_up.weight").as_str(), tt) {
            Ok(x) => x,
            Err(e) => {
                proof {
                    lemma_first_error(errs, 10);
                }
                return Err(e);
            },
        };
        let down = match self.weights.projection(blk_name(il, ".ffn_down.weight").as_str(), tt) {
            Ok(x) => x,
            Err(e) => {
                proof {
                    lemma_first_error(errs, 11);
                }
                return Err(e);
            },
        };
        let post_ffw_norm: u32 = match self.param_off.at(blk_name(il, ".post_ffw_norm.weight").as_str()) {
            Ok(x) => x,
            Err(e) => {
                proof {
                    lemma_first_error(errs, 12);
                }
                return Err(e);
            },
        };
        proof {
            lemma_no_error(errs);
        }
        Ok(
            LayerRefs {
                attn_norm,
                q,
                k,
                v,
                q_norm,
                k_norm,
                output,
                post_attention_norm,
                ffn_norm,
                gate,
                up,
                down,
                post_ffw_norm,
            },
        )
    }

    fn plan_qkv(&self, b: &mut Builder, r: &LayerRefs, il: usize, t: usize)
        requires
            self.wf(),
            self.fits(t as int),
            il < self.cfg.n_layers,
            old(b).wf(),
            old(b).slots@.len() + 8 <= MAX_SLOTS,
            Self::runnable(*r, t as int),
        ensures
            final(b).wf(),
            final(b).slots@.len() <= old(b).slots@.len() + 5,
            final(b).nodes@ == old(b).nodes@ + self.qkv_nodes(*r, il as int, t as int),
    {
        let ghost before = b.nodes@;
        assert(self.layer_fits(il as int, t as int));
        let tt: u32 = t as u32;
        let l = &self.cfg.layers[il];
        let d: u32 = self.cfg.d_model as u32;
        let td: u32 = (t * self.cfg.d_model) as u32;
        let kv: u32 = l.kv_dim() as u32;
        let q_dim: u32 = (self.cfg.n_heads * l.head_dim) as u32;
        b.ops(plain_of(tt, d), Kernel::Copy, Buf::H, Buf::Zero, Buf::X, td, WG_OPS);
        b.ops(
            norm_of(tt, d, r.attn_norm, self.scalars.rms_eps),
            Kernel::RmsNorm,
            Buf::Zero,
            Buf::Zero,
            Buf::X,
            tt,
            1,
        );
        b.layer_mark("attn_norm-", il, 1);
        b.project(self.grid, r.q, d, q_dim, tt, Buf::X, Buf::Q);
        b.project(self.grid, r.k, d, kv, tt, Buf::X, Buf::K);
        match r.v {
            Some(v) => {
                b.project(self.grid, v, d, kv, tt, Buf::X, Buf::V);
            },
            None => {
                b.ops(plain_of(tt, kv), Kernel::Copy, Buf::K, Buf::Zero, Buf::V, tt * kv, WG_OPS);
            },
        }
        b.layer_mark("Vcur-", il, 4);
        b.layer_mark("Qcur-", il, 2);
        assert(b.nodes@ =~= before + self.qkv_nodes(*r, il as int, t as int));
    }

    fn rope_of(&self, il: usize, t: usize, heads: u32) -> (o: Op)
        requires
            self.wf(),
            il < self.cfg.n_layers,
            (t as u32) * heads <= u32::MAX,
        ensures
            o == self.rope_op(il as int, t as int, heads),
    {
        let l = &self.cfg.layers[il];
        let off0: u32 = match self.param_off.at("rope_freqs.weight") {
            Ok(o) => o,
            Err(_) => 0,
        };
        Op {
            n_rows: t as u32 * heads,
            dim: l.head_dim as u32,
            off0,
            off1: if l.rope_factors { 1 } else { 0 },
            f0: self.scalars.rope_bases[il],
            f1: 0,
            u0: heads,
            u1: 0,
        }
    }

    fn window_of(&self, il: usize) -> (w: u32)
        requires
            self.wf(),
            il < self.cfg.n_layers,
        ensures
            w == self.window(il as int),
    {
        match self.cfg.layers[il].window {
            Some(w) => (if w < self.n_ctx { w } else { self.n_ctx }) as u32,
            None => 0,
        }
    }

    fn narrowest_ring(&self) -> (w: u32)
        requires
            self.wf(),
        ensures
            w == self.narrowest(self.cfg.n_layers as int),
    {
        let mut ring: u32 = 0;
        let mut il: usize = 0;
        while il < self.cfg.n_layers
            invariant
                self.wf(),
                il <= self.cfg.n_layers,
                ring == self.narrowest(il as int),
            decreases self.cfg.n_layers - il,
        {
            let w: u32 = self.window_of(il);
            if ring == 0 || (0 < w && w < ring) {
                ring = w;
            }
            il = il + 1;
        }
        ring
    }

    /// How many of the next `t` tokens run as one batch.
    fn stretch_of(&self, pos: usize, t: usize) -> (n: usize)
        requires
            self.wf(),
            pos + t <= usize::MAX,
        ensures
            n == self.stretch(pos as int, t as int),
    {
        let ring: usize = self.narrowest_ring() as usize;
        if ring == 0 || pos + t <= ring {
            t
        } else if pos < ring - 1 {
            ring - pos
        } else {
            1
        }
    }

    fn plan_rotate(&self, b: &mut Builder, r: &LayerRefs, il: usize, t: usize)
        requires
            self.wf(),
            self.fits(t as int),
            il < self.cfg.n_layers,
            old(b).wf(),
            old(b).slots@.len() + 8 <= MAX_SLOTS,
            Self::runnable(*r, t as int),
        ensures
            final(b).wf(),
            final(b).slots@.len() <= old(b).slots@.len() + 5,
            final(b).nodes@ == old(b).nodes@ + self.rotate_nodes(*r, il as int, t as int),
    {
        let ghost before = b.nodes@;
        assert(self.layer_fits(il as int, t as int));
        let tt: u32 = t as u32;
        let l = &self.cfg.layers[il];
        let hd: u32 = l.head_dim as u32;
        let nh: u32 = self.cfg.n_heads as u32;
        let nkv: u32 = l.n_kv_heads as u32;
        let tq: u32 = tt * nh;
        let tk: u32 = tt * nkv;
        let eps: u32 = self.scalars.rms_eps;
        let z = Buf::Zero;
        b.ops(norm_of(tq, hd, r.q_norm, eps), Kernel::RmsNorm, z, z, Buf::Q, tq, 1);
        b.ops(norm_of(tk, hd, r.k_norm, eps), Kernel::RmsNorm, z, z, Buf::K, tk, 1);
        b.ops(scaled_of(tk, hd, eps), Kernel::RmsNorm, z, z, Buf::V, tk, 1);
        b.layer_mark("Vcur_normed-", il, 4);
        b.layer_mark("Qcur_normed-", il, 2);
        b.positioned(self.rope_of(il, t, nh), Kernel::Rope, z, z, Buf::Q, tq, 1);
        b.positioned(self.rope_of(il, t, nkv), Kernel::Rope, z, z, Buf::K, tk, 1);
        b.layer_mark("Qcur_pos-", il, 2);
        assert(b.nodes@ =~= before + self.rotate_nodes(*r, il as int, t as int));
    }

    fn plan_attn(&self, b: &mut Builder, r: &LayerRefs, il: usize, t: usize)
        requires
            self.wf(),
            self.fits(t as int),
            il < self.cfg.n_layers,
            old(b).wf(),
            old(b).slots@.len() + 8 <= MAX_SLOTS,
            Self::runnable(*r, t as int),
        ensures
            final(b).wf(),
            final(b).slots@.len() <= old(b).slots@.len() + 6,
            final(b).nodes@ == old(b).nodes@ + self.attn_nodes(*r, il as int, t as int),
    {
        let ghost before = b.nodes@;
        assert(self.layer_fits(il as int, t as int));
        let tt: u32 = t as u32;
        let l = &self.cfg.layers[il];
        let d: u32 = self.cfg.d_model as u32;
        let td: u32 = (t * self.cfg.d_model) as u32;
        let kv: u32 = l.kv_dim() as u32;
        let q_dim: u32 = (self.cfg.n_heads * l.head_dim) as u32;
        let window: u32 = self.window_of(il);
        let w = Op { n_rows: tt, dim: kv, off0: 0, off1: 0, f0: 0, f1: 0, u0: window, u1: 0 };
        b.positioned(w, Kernel::WriteCache, Buf::K, Buf::Zero, Buf::CacheK(il), tt * kv, WG_OPS);
        b.positioned(w, Kernel::WriteCache, Buf::V, Buf::Zero, Buf::CacheV(il), tt * kv, WG_OPS);
        let a = Attn {
            n_tokens: tt,
            n_heads: self.cfg.n_heads as u32,
            n_kv_heads: l.n_kv_heads as u32,
            head_dim: l.head_dim as u32,
            kv_dim: kv,
            base_pos: 0,
            window,
            max_vis: 0,
            scale: self.scalars.attn_scale,
            bidi: 0,
        };
        b.attend(
            Slot::Attention(a),
            Bind::Attn {
                q: Buf::Q,
                k: Buf::CacheK(il),
                v: Buf::CacheV(il),
                scores: Buf::Scores,
                out: Buf::Attn,
            },
            self.cfg.n_heads as u32,
            tt,
        );
        b.layer_mark("kqv_out-", il, 5);
        b.project(self.grid, r.output, q_dim, d, tt, Buf::Attn, Buf::Proj);
        b.ops(
            norm_of(tt, d, r.post_attention_norm, self.scalars.rms_eps),
            Kernel::RmsNorm,
            Buf::Zero,
            Buf::Zero,
            Buf::Proj,
            tt,
            1,
        );
        b.ops(scaled_of(tt, d, ONE), Kernel::AddScale, Buf::Zero, Buf::Proj, Buf::H, td, WG_OPS);
        b.layer_mark("attn_out-", il, 0);
        assert(b.nodes@ =~= before + self.attn_nodes(*r, il as int, t as int));
    }

    fn plan_ffn(&self, b: &mut Builder, r: &LayerRefs, il: usize, t: usize)
        requires
            self.wf(),
            self.fits(t as int),
            il < self.cfg.n_layers,
            old(b).wf(),
            old(b).slots@.len() + 8 <= MAX_SLOTS,
            Self::runnable(*r, t as int),
        ensures
            final(b).wf(),
            final(b).slots@.len() <= old(b).slots@.len() + 8,
            final(b).nodes@ == old(b).nodes@ + self.ffn_nodes(*r, il as int, t as int),
    {
        let ghost before = b.nodes@;
        assert(self.layer_fits(il as int, t as int));
        let tt: u32 = t as u32;
        let l = &self.cfg.layers[il];
        let d: u32 = self.cfg.d_model as u32;
        let td: u32 = (t * self.cfg.d_model) as u32;
        let f: u32 = self.cfg.ffn_dim as u32;
        let tf: u32 = (t * self.cfg.ffn_dim) as u32;
        let eps: u32 = self.scalars.rms_eps;
        let z = Buf::Zero;
        b.ops(plain_of(tt, d), Kernel::Copy, Buf::H, z, Buf::X, td, WG_OPS);
        b.ops(norm_of(tt, d, r.ffn_norm, eps), Kernel::RmsNorm, z, z, Buf::X, tt, 1);
        b.project(self.grid, r.gate, d, f, tt, Buf::X, Buf::Gate);
        b.project(self.grid, r.up, d, f, tt, Buf::X, Buf::Up);
        b.ops(plain_of(tt, f), Kernel::Geglu, z, Buf::Up, Buf::Gate, tf, WG_OPS);
        b.layer_mark("ffn_geglu-", il, 7);
        b.project(self.grid, r.down, f, d, tt, Buf::Gate, Buf::Proj);
        b.ops(norm_of(tt, d, r.post_ffw_norm, eps), Kernel::RmsNorm, z, z, Buf::Proj, tt, 1);
        let scale: u32 = self.scalars.layer_scales[il];
        b.ops(scaled_of(tt, d, scale), Kernel::AddScale, z, Buf::Proj, Buf::H, td, WG_OPS);
        b.layer_mark("l_out-", il, 0);
        assert(b.nodes@ =~= before + self.ffn_nodes(*r, il as int, t as int));
    }

    fn plan_layer(&self, b: &mut Builder, il: usize, t: usize) -> (r: Result<(), PlanError>)
        requires
            self.wf(),
            self.fits(t as int),
            il < self.cfg.n_layers,
            old(b).wf(),
            old(b).slots@.len() + 32 <= MAX_SLOTS,
        ensures
            match r {
                Ok(_) => final(b).wf() && final(b).slots@.len() <= old(b).slots@.len() + 24
                    && first_error(self.layer_errors(il as int, t as int)) is None
                    && final(b).nodes@ == old(b).nodes@ + self.layer_nodes(il as int, t as int),
                Err(e) => first_error(self.layer_errors(il as int, t as int)) == Some(e@),
            },
    {
        let refs = self.layer_refs(il, t)?;
        self.plan_qkv(b, &refs, il, t);
        self.plan_rotate(b, &refs, il, t);
        self.plan_attn(b, &refs, il, t);
        self.plan_ffn(b, &refs, il, t);
        assert(b.nodes@ =~= old(b).nodes@ + self.layer_nodes(il as int, t as int));
        Ok(())
    }

    /// Plan a batch of `t` tokens.
    pub fn build_plan(&self, t: usize) -> (r: Result<CachedPlan, PlanError>)
        requires
            self.wf(),
            self.fits(t as int),
        ensures
            match r {
                Ok(p) => first_error(self.errors(t as int)) is None && self.is_plan(p, t as int),
                Err(e) => first_error(self.errors(t as int)) == Some(e@),
            },
    {
        let ghost head = seq![
            crate::checks::err_of(weight_at(self.weights.handles@, "token_embd.weight"@)),
        ];
        proof {
            lemma_first_error_concat(head, self.errors_from(0, t as int));
        }
        let embd = match self.weights.get("token_embd.weight") {
            Ok(h) => h,
            Err(e) => {
                proof {
                    lemma_first_error(head, 0);
                }
                return Err(e);
            },
        };
        proof {
            lemma_no_error(head);
        }
        let tt: u32 = t as u32;
        let d: u32 = self.cfg.d_model as u32;
        let td: u32 = (t * self.cfg.d_model) as u32;
        let vocab: u32 = self.cfg.vocab as u32;
        let mut b = Builder::new();
        b.step(
            Slot::Matvec(
                MatvecParams { w_base: embd.base_u32, in_dim: d, out_dim: vocab, n_tokens: tt },
            ),
            Kernel::Embed { ty: GgmlType::Q6K },
            Bind::Matvec { weights: embd.buffer, x: Buf::Zero, y: Buf::H },
            (16, tt, 1),
        );
        b.ops(
            scaled_of(tt, d, self.scalars.embed_scale),
            Kernel::Scale,
            Buf::Zero,
            Buf::Zero,
            Buf::H,
            td,
            WG_OPS,
        );
        b.mark("inp_scaled".to_owned(), 0);
        assert(b.nodes@ =~= self.nodes_to(0, t as int));
        let mut il: usize = 0;
        while il < self.cfg.n_layers
            invariant
                il <= self.cfg.n_layers,
                self.wf(),
                self.fits(t as int),
                b.wf(),
                b.slots@.len() <= 2 + 24 * il,
                b.nodes@ == self.nodes_to(il as int, t as int),
                first_error(self.errors(t as int)) == first_error(
                    self.errors_from(il as int, t as int),
                ),
            decreases self.cfg.n_layers - il,
        {
            proof {
                lemma_first_error_concat(
                    self.layer_errors(il as int, t as int),
                    self.errors_from(il + 1, t as int),
                );
            }
            self.plan_layer(&mut b, il, t)?;
            il = il + 1;
        }
        let ghost last = self.errors_from(il as int, t as int);
        let off0: u32 = match self.param_off.at("output_norm.weight") {
            Ok(o) => o,
            Err(e) => {
                proof {
                    lemma_first_error(last, 0);
                }
                return Err(e);
            },
        };
        let ghost before = b.nodes@;
        b.ops(
            norm_of(tt, d, off0, self.scalars.rms_eps),
            Kernel::RmsNorm,
            Buf::Zero,
            Buf::Zero,
            Buf::H,
            tt,
            1,
        );
        b.mark("h_nextn".to_owned(), 0);
        assert(b.nodes@ =~= self.nodes(t as int));
        let out = match self.weights.projection("token_embd.weight", 1) {
            Ok(h) => h,
            Err(e) => {
                proof {
                    lemma_first_error(last, 1);
                }
                return Err(e);
            },
        };
        proof {
            lemma_no_error(last);
        }
        let mut tail_slots: Vec<Slot> = Vec::new();
        tail_slots.push(
            Slot::Matvec(
                MatvecParams { w_base: out.base_u32, in_dim: d, out_dim: vocab, n_tokens: 1 },
            ),
        );
        let cap: u32 = match self.scalars.softcap {
            Some(c) => c,
            None => 0,
        };
        tail_slots.push(Slot::Fixed(scaled_of(0, vocab, cap)));
        let mut tail: Vec<Dispatch> = Vec::new();
        match grid::pipeline_for(out.ty, 1) {
            Some(kernel) => {
                tail.push(
                    Dispatch {
                        kernel,
                        bind: Bind::Matvec { weights: out.buffer, x: Buf::X, y: Buf::Logits },
                        offset: 0,
                        groups: (grid::row_groups(vocab, self.grid.max_groups), 1, 1),
                    },
                );
            },
            None => {},
        }
        if self.scalars.softcap.is_some() {
            tail.push(
                Dispatch {
                    kernel: Kernel::SoftCap,
                    bind: Bind::Ops { a: Buf::Zero, b: Buf::Zero, out: Buf::Logits },
                    offset: 256,
                    groups: (grid::cells(vocab, WG_OPS), 1, 1),
                },
            );
        }
        assert(tail@ =~= self.tail());
        assert(tail_slots@ =~= self.tail_slots());
        Ok(CachedPlan { plan: b.plan, slots: b.slots, tail, tail_slots, checkpoints: b.marks })
    }
}

/// Why a batch of `t` cannot run at position `pos`.
pub open spec fn batch_error(
    t: usize,
    max_batch: usize,
    pos: usize,
    n_ctx: usize,
) -> Option<PlanErrorView> {
    if t == 0 || t > max_batch {
        Some(PlanErrorView::BatchOutOfRange(t))
    } else if pos + t > n_ctx {
        Some(PlanErrorView::ContextOverflow)
    } else {
        None
    }
}

/// Whether a batch of `t` can run at position `pos`.
pub fn check_batch(t: usize, max_batch: usize, pos: usize, n_ctx: usize) -> (r: Result<
    (),
    PlanError,
>)
    ensures
        match r {
            Ok(_) => batch_error(t, max_batch, pos, n_ctx) is None,
            Err(e) => batch_error(t, max_batch, pos, n_ctx) == Some(e@),
        },
{
    if t == 0 || t > max_batch {
        return Err(PlanError::BatchOutOfRange(t));
    }
    if pos > n_ctx || t > n_ctx - pos {
        return Err(PlanError::ContextOverflow);
    }
    Ok(())
}

/// The device buffer that a checkpoint's number stands for.
pub fn debug_buffer(i: usize) -> (b: Buf)
    ensures
        b == match i {
            1 => Buf::X,
            2 => Buf::Q,
            3 => Buf::K,
            4 => Buf::V,
            5 => Buf::Attn,
            6 => Buf::Proj,
            7 => Buf::Gate,
            _ => Buf::H,
        },
{
    match i {
        1 => Buf::X,
        2 => Buf::Q,
        3 => Buf::K,
        4 => Buf::V,
        5 => Buf::Attn,
        6 => Buf::Proj,
        7 => Buf::Gate,
        _ => Buf::H,
    }
}

impl GpuModel {
    /// Batches up to the largest fit, positions are 32-bit words, and a cached
    /// plan is the plan for one token.
    pub open spec fn wf(&self) -> bool {
        &&& self.res.runs(self.max_batch as int)
        &&& self.decode is Some ==> self.res.is_plan(self.decode->0, 1)
    }

    /// The plan that a pass runs.
    pub open spec fn plan_of(&self, cached: bool) -> Option<CachedPlan> {
        if cached {
            self.decode
        } else {
            self.prefill
        }
    }

    pub fn config(&self) -> (r: &Config)
        ensures
            r == self.res.cfg,
    {
        &self.res.cfg
    }

    pub fn context_len(&self) -> (r: usize)
        ensures
            r == self.res.n_ctx,
    {
        self.res.n_ctx
    }

    /// Largest prefill batch the scratch buffers were sized for.
    pub fn max_batch(&self) -> (r: usize)
        ensures
            r == self.max_batch,
    {
        self.max_batch
    }

    /// Rewind to an empty context.
    pub fn reset(&mut self)
        requires
            old(self).wf(),
        ensures
            final(self).wf(),
            final(self).pos == 0,
            final(self).res == old(self).res,
            final(self).max_batch == old(self).max_batch,
            final(self).debug_stop == old(self).debug_stop,
            final(self).decode == old(self).decode,
    {
        self.pos = 0;
    }

    /// Plan the pass over the next of `t` tokens at the current position, as many as
    /// can run at once, and advance past them; the other result is their number. A
    /// pass that stops at a checkpoint does not advance.
    pub fn forward(&mut self, t: usize) -> (r: Result<(Pass, usize), PlanError>)
        requires
            old(self).wf(),
        ensures
            final(self).wf(),
            final(self).res == old(self).res,
            final(self).max_batch == old(self).max_batch,
            final(self).debug_stop == old(self).debug_stop,
            match r {
                Ok((pass, n)) => {
                    &&& batch_error(t, old(self).max_batch, old(self).pos, old(self).res.n_ctx)
                        is None
                    &&& n == old(self).res.stretch(old(self).pos as int, t as int)
                    &&& 0 < n <= t
                    &&& pass.cached == (n == 1 && old(self).debug_stop is None)
                    &&& final(self).plan_of(pass.cached) matches Some(p) && old(self).res.is_plan(
                        p,
                        n as int,
                    ) && is_pass(
                        pass,
                        p,
                        opt_view(old(self).debug_stop),
                        n as int,
                        old(self).pos as int,
                        old(self).res.cfg.d_model as int,
                    )
                    &&& final(self).pos == if old(self).debug_stop is None {
                        old(self).pos + n
                    } else {
                        old(self).pos as int
                    }
                },
                Err(e) => {
                    let n = old(self).res.stretch(old(self).pos as int, t as int);
                    &&& final(self).pos == old(self).pos
                    &&& match batch_error(t, old(self).max_batch, old(self).pos, old(self).res.n_ctx) {
                        Some(f) => e@ == f,
                        None => match first_error(old(self).res.errors(n)) {
                            Some(f) => e@ == f,
                            None => old(self).debug_stop matches Some(name) && e@
                                == PlanErrorView::UnknownCheckpoint(name@) && find_mark(
                                lower(old(self).res.nodes(n)).marks,
                                name@,
                            ) is None,
                        },
                    }
                },
            },
    {
        check_batch(t, self.max_batch, self.pos, self.res.n_ctx)?;
        let d: usize = self.res.cfg.d_model;
        let base: usize = self.pos;
        let n: usize = self.res.stretch_of(base, t);
        assert(self.res.fits(n as int));
        assert((n * self.res.cfg.d_model) * 4 <= usize::MAX);
        let cached: bool = n == 1 && self.debug_stop.is_none();
        let p = if cached {
            match self.decode.take() {
                Some(p) => p,
                None => self.res.build_plan(1)?,
            }
        } else {
            self.res.build_plan(n)?
        };
        let pass = make_pass(&p, &self.debug_stop, cached, n, base, d);
        if cached {
            self.decode = Some(p);
        } else {
            self.prefill = Some(p);
        }
        let pass = pass?;
        if self.debug_stop.is_none() {
            self.pos = base + n;
        }
        Ok((pass, n))
    }
}

proof fn lemma_narrowest(res: Resident, n: int, il: int)
    requires
        0 <= il < n,
        res.window(il) > 0,
    ensures
        0 < res.narrowest(n) <= res.window(il),
    decreases n,
{
    if il < n - 1 {
        lemma_narrowest(res, n - 1, il);
    }
}

/// A batch overwrites no row that one of its tokens sees: where it writes position
/// `q`, and its token at `at` sees position `p`, the two lie in different slots.
pub proof fn batches_spare_visible_rows(
    res: Resident,
    pos: int,
    t: int,
    il: int,
    at: int,
    p: int,
    q: int,
)
    requires
        0 <= pos,
        0 < t,
        pos + t <= res.n_ctx <= u32::MAX,
        0 <= il < res.cfg.n_layers,
        res.layer(il).window matches Some(w) ==> w > 0,
        pos <= at < pos + res.stretch(pos, t),
        pos <= q < pos + res.stretch(pos, t),
        0 <= crate::cpu::seen_from(res.layer(il).window, at) <= p <= at,
        p != q,
    ensures
        res.slot(il, p) != res.slot(il, q),
{
    let w = res.window(il) as int;
    if w > 0 {
        lemma_narrowest(res, res.cfg.n_layers as int, il);
        if pos + res.stretch(pos, t) <= w {
            assert(p % w == p && q % w == q) by (nonlinear_arith)
                requires
                    0 <= p < w,
                    0 <= q < w,
            ;
        } else {
            assert(at == pos && q == pos);
            assert(p < q && q - p < w);
            if p % w == q % w {
                assert(q - p == w * (q / w - p / w)) by (nonlinear_arith)
                    requires
                        w > 0,
                        p % w == q % w,
                ;
                let d = q / w - p / w;
                assert(w * d >= w || w * d <= 0) by (nonlinear_arith)
                    requires
                        w > 0,
                ;
            }
        }
    }
}

// ---------------------------------------------------------------------------
// What is resident
// ---------------------------------------------------------------------------
/// The tensors of a table that are quantized, by name and in order. They go to
/// the weight buffers; everything else is a parameter.
pub open spec fn quantized_names(tensors: Seq<TensorInfoView>) -> Seq<Seq<char>>
    decreases tensors.len(),
{
    if tensors.len() == 0 {
        Seq::empty()
    } else {
        let before = quantized_names(tensors.drop_last());
        let t = tensors.last();
        if t.ty == GgmlType::Q8_0 || t.ty == GgmlType::Q4K || t.ty == GgmlType::Q6K {
            before.push(t.name)
        } else {
            before
        }
    }
}

/// The tensors that go to the weight buffers.
pub fn arena_tensors(h: &Header) -> (names: Vec<String>)
    ensures
        text::views(names@) == quantized_names(h@.tensors),
{
    let ghost all = h@.tensors;
    let mut names: Vec<String> = Vec::new();
    let mut i: usize = 0;
    assert(all.take(0) =~= Seq::empty());
    assert(text::views(names@) =~= Seq::empty());
    while i < h.tensors.len()
        invariant
            i <= all.len(),
            all == h@.tensors,
            text::views(names@) == quantized_names(all.take(i as int)),
        decreases all.len() - i,
    {
        let t = &h.tensors[i];
        assert(all[i as int] == t@);
        assert(all.take(i + 1).drop_last() =~= all.take(i as int));
        if t.ty.is_quantized() {
            let ghost before = text::views(names@);
            names.push(t.name.clone());
            assert(text::views(names@) =~= before.push(t.name@));
        }
        i = i + 1;
    }
    assert(all.take(i as int) =~= all);
    names
}

/// The parameters of one layer, in the order in which they are laid out.
pub open spec fn layer_params(il: int) -> Seq<Seq<char>> {
    seq![
        blk(il, ".attn_norm.weight"@),
        blk(il, ".attn_q_norm.weight"@),
        blk(il, ".attn_k_norm.weight"@),
        blk(il, ".post_attention_norm.weight"@),
        blk(il, ".ffn_norm.weight"@),
        blk(il, ".post_ffw_norm.weight"@),
    ]
}

/// The output norm and the RoPE factors where the file has them, then the
/// parameters of the first `n` layers.
pub open spec fn params_to(h: HeaderView, n: int) -> Seq<Seq<char>>
    decreases n,
{
    if n <= 0 {
        let a = if tensor_named(h, "output_norm.weight"@) is Some {
            seq!["output_norm.weight"@]
        } else {
            Seq::empty()
        };
        if tensor_named(h, "rope_freqs.weight"@) is Some {
            a.push("rope_freqs.weight"@)
        } else {
            a
        }
    } else {
        params_to(h, n - 1) + layer_params(n - 1)
    }
}

/// The parameter tensors, in the order in which they are laid out.
pub fn param_names(h: &Header, n_layers: usize) -> (names: Vec<String>)
    requires
        h.wf(),
    ensures
        text::views(names@) == params_to(h@, n_layers as int),
{
    let mut names: Vec<String> = Vec::new();
    if has_named(h, "output_norm.weight") {
        names.push("output_norm.weight".to_owned());
    }
    if has_named(h, "rope_freqs.weight") {
        names.push("rope_freqs.weight".to_owned());
    }
    assert(text::views(names@) =~= params_to(h@, 0));
    let mut il: usize = 0;
    while il < n_layers
        invariant
            il <= n_layers,
            text::views(names@) == params_to(h@, il as int),
        decreases n_layers - il,
    {
        let ghost before = text::views(names@);
        names.push(blk_name(il, ".attn_norm.weight"));
        names.push(blk_name(il, ".attn_q_norm.weight"));
        names.push(blk_name(il, ".attn_k_norm.weight"));
        names.push(blk_name(il, ".post_attention_norm.weight"));
        names.push(blk_name(il, ".ffn_norm.weight"));
        names.push(blk_name(il, ".post_ffw_norm.weight"));
        assert(text::views(names@) =~= before + layer_params(il as int));
        il = il + 1;
    }
    names
}

/// Whether the table has a tensor of this name.
pub fn has_named(h: &Header, name: &str) -> (r: bool)
    requires
        h.wf(),
    ensures
        r == (tensor_named(h@, name@) is Some),
{
    h.has_tensor(name)
}

/// The widest head among the layers.
pub open spec fn widest_head(layers: Seq<LayerConfig>) -> int
    decreases layers.len(),
{
    if layers.len() == 0 {
        0
    } else if layers.last().head_dim > widest_head(layers.drop_last()) {
        layers.last().head_dim as int
    } else {
        widest_head(layers.drop_last())
    }
}

/// The widest key row among the layers.
pub open spec fn widest_kv(layers: Seq<LayerConfig>) -> int
    decreases layers.len(),
{
    if layers.len() == 0 {
        0
    } else if layers.last().kv_width() > widest_kv(layers.drop_last()) {
        layers.last().kv_width()
    } else {
        widest_kv(layers.drop_last())
    }
}

/// The activations, sized for the largest layer geometry. Scores are bounded by
/// the context on global layers, so they are the dominant allocation.
pub open spec fn activation_sizes(cfg: Config, n_ctx: int, max_batch: int) -> Seq<(Buf, int)> {
    let q = cfg.n_heads * widest_head(cfg.layers@);
    let kv = widest_kv(cfg.layers@);
    seq![
        (Buf::H, max_batch * cfg.d_model * 4),
        (Buf::X, max_batch * cfg.d_model * 4),
        (Buf::Q, max_batch * q * 4),
        (Buf::K, max_batch * kv * 4),
        (Buf::V, max_batch * kv * 4),
        (Buf::Attn, max_batch * q * 4),
        (Buf::Proj, max_batch * cfg.d_model * 4),
        (Buf::Gate, max_batch * cfg.ffn_dim * 4),
        (Buf::Up, max_batch * cfg.ffn_dim * 4),
        (Buf::Scores, max_batch * cfg.n_heads * n_ctx * 4),
        (Buf::Logits, cfg.vocab * 4),
        (Buf::Tokens, max_batch * 4),
    ]
}

/// The caches of the first `n` layers, keys before values.
pub open spec fn cache_sizes(cfg: Config, n_ctx: int, n: int) -> Seq<(Buf, int)>
    decreases n,
{
    if n <= 0 {
        Seq::empty()
    } else {
        let bytes = cfg.slots(n - 1, n_ctx) * cfg.layers@[n - 1].kv_width() * 4;
        cache_sizes(cfg, n_ctx, n - 1) + seq![
            (Buf::CacheK((n - 1) as usize), bytes),
            (Buf::CacheV((n - 1) as usize), bytes),
        ]
    }
}

/// Sizes as integers.
pub open spec fn size_views(v: Seq<(Buf, u64)>) -> Seq<(Buf, int)> {
    v.map_values(|e: (Buf, u64)| (e.0, e.1 as int))
}

/// Every size is representable.
pub open spec fn sizes_fit(v: Seq<(Buf, int)>) -> bool {
    forall|i: int| 0 <= i < v.len() ==> (#[trigger] v[i]).1 <= usize::MAX
}

fn widest(layers: &Vec<LayerConfig>) -> (r: (usize, usize))
    requires
        forall|i: int| 0 <= i < layers@.len() ==> (#[trigger] layers@[i]).kv_width() <= usize::MAX,
    ensures
        r.0 == widest_head(layers@),
        r.1 == widest_kv(layers@),
{
    let mut head: usize = 0;
    let mut kv: usize = 0;
    let mut i: usize = 0;
    assert(layers@.take(0) =~= Seq::empty());
    while i < layers.len()
        invariant
            i <= layers@.len(),
            forall|k: int|
                0 <= k < layers@.len() ==> (#[trigger] layers@[k]).kv_width() <= usize::MAX,
            head == widest_head(layers@.take(i as int)),
            kv == widest_kv(layers@.take(i as int)),
        decreases layers@.len() - i,
    {
        assert(layers@.take(i + 1).drop_last() =~= layers@.take(i as int));
        let l = &layers[i];
        if l.head_dim > head {
            head = l.head_dim;
        }
        let w: usize = l.kv_dim();
        if w > kv {
            kv = w;
        }
        i = i + 1;
    }
    assert(layers@.take(i as int) =~= layers@);
    (head, kv)
}

/// The products that sizing multiplies out fit.
pub open spec fn sizable(cfg: Config, n_ctx: int, max_batch: int) -> bool {
    &&& cfg.layers@.len() >= cfg.n_layers
    &&& forall|i: int|
        0 <= i < cfg.layers@.len() ==> (#[trigger] cfg.layers@[i]).kv_width() <= usize::MAX
    &&& cfg.n_heads * widest_head(cfg.layers@) <= usize::MAX
    &&& max_batch * cfg.n_heads <= usize::MAX
    &&& sizes_fit(activation_sizes(cfg, n_ctx, max_batch))
    &&& sizes_fit(cache_sizes(cfg, n_ctx, cfg.n_layers as int))
}

proof fn lemma_cache_size(cfg: Config, n_ctx: int, i: int, n: int)
    requires
        0 <= i < n,
    ensures
        cache_sizes(cfg, n_ctx, n).len() == 2 * n,
        cache_sizes(cfg, n_ctx, n)[2 * i].1 == cfg.slots(i, n_ctx) * cfg.layers@[i].kv_width() * 4,
    decreases n,
{
    if i < n - 1 {
        lemma_cache_size(cfg, n_ctx, i, n - 1);
    } else if n > 1 {
        lemma_cache_size(cfg, n_ctx, 0, n - 1);
    }
}

fn widths_counted(layers: &Vec<LayerConfig>) -> (r: bool)
    ensures
        r == (forall|i: int|
            0 <= i < layers@.len() ==> (#[trigger] layers@[i]).kv_width() <= usize::MAX),
{
    let mut i: usize = 0;
    while i < layers.len()
        invariant
            i <= layers@.len(),
            forall|k: int| 0 <= k < i ==> (#[trigger] layers@[k]).kv_width() <= usize::MAX,
        decreases layers@.len() - i,
    {
        let l = &layers[i];
        if !within(l.n_kv_heads, l.head_dim) {
            assert(layers@[i as int].kv_width() > usize::MAX);
            return false;
        }
        i = i + 1;
    }
    true
}

/// Whether the device buffers of a model can be sized.
pub fn can_size(cfg: &Config, n_ctx: usize, max_batch: usize) -> (r: bool)
    ensures
        r == sizable(*cfg, n_ctx as int, max_batch as int),
{
    if cfg.layers.len() < cfg.n_layers || !widths_counted(&cfg.layers) {
        return false;
    }
    let (head, kv) = widest(&cfg.layers);
    if !within(cfg.n_heads, head) || !within(max_batch, cfg.n_heads) {
        return false;
    }
    let ghost acts = activation_sizes(*cfg, n_ctx as int, max_batch as int);
    let q: usize = cfg.n_heads * head;
    if !bytes_fit(max_batch, cfg.d_model) || !bytes_fit(max_batch, q) || !bytes_fit(max_batch, kv)
        || !bytes_fit(max_batch, cfg.ffn_dim) || !bytes_fit(max_batch * cfg.n_heads, n_ctx)
        || !within(cfg.vocab, 4) || !within(max_batch, 4) {
        proof {
            assert(acts[0].1 > usize::MAX || acts[2].1 > usize::MAX || acts[3].1 > usize::MAX
                || acts[7].1 > usize::MAX || acts[9].1 > usize::MAX || acts[10].1 > usize::MAX
                || acts[11].1 > usize::MAX);
        }
        return false;
    }
    assert(sizes_fit(acts));
    let mut i: usize = 0;
    while i < cfg.n_layers
        invariant
            i <= cfg.n_layers,
            cfg.n_layers <= cfg.layers@.len(),
            forall|k: int|
                0 <= k < cfg.layers@.len() ==> (#[trigger] cfg.layers@[k]).kv_width() <= usize::MAX,
            sizes_fit(cache_sizes(*cfg, n_ctx as int, i as int)),
        decreases cfg.n_layers - i,
    {
        let slots: usize = cfg.kv_slots(i, n_ctx);
        let width: usize = cfg.layers[i].kv_dim();
        if !bytes_fit(slots, width) {
            proof {
                lemma_cache_size(*cfg, n_ctx as int, i as int, cfg.n_layers as int);
                assert(cache_sizes(*cfg, n_ctx as int, cfg.n_layers as int)[2 * i as int].1
                    > usize::MAX);
            }
            return false;
        }
        i = i + 1;
    }
    true
}

/// The device buffers of a model besides its weights and parameters, with their
/// sizes in bytes: the activations, then the caches.
pub fn buffer_sizes(cfg: &Config, n_ctx: usize, max_batch: usize) -> (v: Vec<(Buf, u64)>)
    requires
        sizable(*cfg, n_ctx as int, max_batch as int),
    ensures
        size_views(v@) == activation_sizes(*cfg, n_ctx as int, max_batch as int) + cache_sizes(
            *cfg,
            n_ctx as int,
            cfg.n_layers as int,
        ),
{
    let ghost acts = activation_sizes(*cfg, n_ctx as int, max_batch as int);
    let (head, kv) = widest(&cfg.layers);
    let q: usize = cfg.n_heads * head;
    let mut v: Vec<(Buf, u64)> = Vec::new();
    proof {
        assert(acts[0].1 <= usize::MAX && acts[2].1 <= usize::MAX && acts[3].1 <= usize::MAX);
        assert(acts[7].1 <= usize::MAX && acts[9].1 <= usize::MAX && acts[10].1 <= usize::MAX);
        assert(acts[11].1 <= usize::MAX);
        assert(0 <= max_batch * cfg.n_heads) by (nonlinear_arith);
    }
    v.push((Buf::H, float_rows(max_batch, cfg.d_model)));
    v.push((Buf::X, float_rows(max_batch, cfg.d_model)));
    v.push((Buf::Q, float_rows(max_batch, q)));
    v.push((Buf::K, float_rows(max_batch, kv)));
    v.push((Buf::V, float_rows(max_batch, kv)));
    v.push((Buf::Attn, float_rows(max_batch, q)));
    v.push((Buf::Proj, float_rows(max_batch, cfg.d_model)));
    v.push((Buf::Gate, float_rows(max_batch, cfg.ffn_dim)));
    v.push((Buf::Up, float_rows(max_batch, cfg.ffn_dim)));
    v.push((Buf::Scores, float_rows(max_batch * cfg.n_heads, n_ctx)));
    v.push((Buf::Logits, floats(cfg.vocab)));
    v.push((Buf::Tokens, floats(max_batch)));
    assert(size_views(v@) =~= acts);
    let mut il: usize = 0;
    assert(size_views(v@) =~= acts + cache_sizes(*cfg, n_ctx as int, 0));
    while il < cfg.n_layers
        invariant
            il <= cfg.n_layers,
            cfg.layers@.len() >= cfg.n_layers,
            forall|i: int|
                0 <= i < cfg.layers@.len() ==> (#[trigger] cfg.layers@[i]).kv_width() <= usize::MAX,
            sizes_fit(cache_sizes(*cfg, n_ctx as int, cfg.n_layers as int)),
            size_views(v@) == acts + cache_sizes(*cfg, n_ctx as int, il as int),
        decreases cfg.n_layers - il,
    {
        let ghost before = size_views(v@);
        proof {
            lemma_cache_sizes(*cfg, n_ctx as int, il + 1, cfg.n_layers as int);
            let all = cache_sizes(*cfg, n_ctx as int, cfg.n_layers as int);
            let here = cache_sizes(*cfg, n_ctx as int, il + 1);
            lemma_cache_sizes_len(*cfg, n_ctx as int, il + 1);
            lemma_cache_sizes_len(*cfg, n_ctx as int, il as int);
            assert(here[2 * il] == all[2 * il]);
            assert(all[2 * il].1 <= usize::MAX);
        }
        let slots: usize = cfg.kv_slots(il, n_ctx);
        let bytes: u64 = float_rows(slots, cfg.layers[il].kv_dim());
        v.push((Buf::CacheK(il), bytes));
        v.push((Buf::CacheV(il), bytes));
        assert(size_views(v@) =~= before + seq![
            (Buf::CacheK(il), bytes as int),
            (Buf::CacheV(il), bytes as int),
        ]);
        assert(size_views(v@) =~= acts + cache_sizes(*cfg, n_ctx as int, il + 1));
        il = il + 1;
    }
    v
}

proof fn lemma_cache_sizes_len(cfg: Config, n_ctx: int, n: int)
    requires
        0 <= n,
    ensures
        cache_sizes(cfg, n_ctx, n).len() == 2 * n,
    decreases n,
{
    if n > 0 {
        lemma_cache_sizes_len(cfg, n_ctx, n - 1);
    }
}

/// Fewer layers have the first of the caches.
proof fn lemma_cache_sizes(cfg: Config, n_ctx: int, m: int, n: int)
    requires
        0 <= m <= n,
    ensures
        cache_sizes(cfg, n_ctx, m).len() <= cache_sizes(cfg, n_ctx, n).len(),
        forall|i: int|
            0 <= i < cache_sizes(cfg, n_ctx, m).len() ==> #[trigger] cache_sizes(cfg, n_ctx, m)[i]
                == cache_sizes(cfg, n_ctx, n)[i],
    decreases n,
{
    if m < n {
        lemma_cache_sizes(cfg, n_ctx, m, n - 1);
    }
}

} // verus!
