//! The qwen35 and qwen3 forward pass as a dispatch plan.
//!
//! The hybrid stack needs two kinds of per-layer state: full-attention layers keep
//! a KV cache, gated-delta-net layers keep a conv window plus one matrix per
//! v-head. The delta recurrence runs inside a single dispatch per layer, since
//! tokens are inherently sequential there.

use crate::checks::{
    err_of, first_error, lemma_first_error, lemma_first_error_concat, lemma_no_error,
};
use crate::cpu::within;
use crate::gpu::arena::{tensor_named, Handle};
use crate::gpu::forward::{
    batch_error, blk, blk_name, bytes_fit, check_batch, lemma_words, most_words, norm_of, plain_of,
    scaled_of, size_views, sizes_fit, words_fit,
};
use crate::gpu::grid::{self, cell_groups, embed_kernel, matvec_kernel, row_grid, Kernel, WG_OPS};
use crate::gpu::plan::{
    attend, find_mark, float_rows, floats, is_pass, layer_mark, lower, make_pass, norm_op, one, ops,
    opt_view, param_at, plain, positioned, project, projection_error, scaled_op, slot_offset,
    weight_at, Attn, Bind, Buf, Builder, CachedPlan, DOp, Dispatch, Grid, MatvecParams, Node, Op,
    ParamArena, Pass, PlanError, PlanErrorView, Run, Slot, Weights, MAX_SLOTS, ONE,
};
use crate::header::{Header, HeaderView};
use crate::qwen35::config::Config;
use crate::text;
use vstd::prelude::*;

verus! {

/// The floating-point parameters of a model, as single-precision bits.
#[derive(Debug, Clone, Copy, PartialEq, Eq, Structural)]
pub struct Scalars {
    pub rms_eps: u32,
    pub rope_base: u32,
    /// Softmax scale of the full-attention layers.
    pub attn_scale: u32,
    /// Scale of the recurrence's output.
    pub delta_scale: u32,
}

/// A resident model: what a plan is made from.
pub struct Resident {
    pub cfg: Config,
    pub weights: Weights,
    pub param_off: ParamArena,
    pub scalars: Scalars,
    pub grid: Grid,
}

/// What a recurrent layer looks up besides what every layer does.
#[derive(Clone, Copy)]
pub struct LinearRefs {
    pub qkv: Handle,
    pub gate: Handle,
    pub alpha: Handle,
    pub beta: Handle,
    pub taps: u32,
    pub a: u32,
    pub dt: u32,
    pub norm: u32,
    pub out: Handle,
}

/// What a full-attention layer looks up besides what every layer does.
#[derive(Clone, Copy)]
pub struct FullRefs {
    pub q: Handle,
    pub k: Handle,
    pub v: Handle,
    pub q_norm: u32,
    pub k_norm: u32,
    pub output: Handle,
}

/// What every layer looks up for its feed-forward block.
#[derive(Clone, Copy)]
pub struct FfnRefs {
    pub post_attention_norm: u32,
    pub gate: Handle,
    pub up: Handle,
    pub down: Handle,
}

/// A step of the delta net.
pub open spec fn delta_run(
    kernel: Kernel,
    a: Buf,
    b: Buf,
    c: Buf,
    state: Buf,
    out: Buf,
    groups: u32,
) -> Run {
    Run { kernel, bind: Bind::Delta { a, b, c, state, out }, groups: (groups, 1, 1) }
}

fn delta_of(
    kernel: Kernel,
    a: Buf,
    b: Buf,
    c: Buf,
    state: Buf,
    out: Buf,
    groups: u32,
) -> (r: Run)
    ensures
        r == delta_run(kernel, a, b, c, state, out, groups),
{
    Run { kernel, bind: Bind::Delta { a, b, c, state, out }, groups: (groups, 1, 1) }
}

proof fn lemma_smaller(t: int, m: int, x: int)
    requires
        t <= m,
        0 <= x,
    ensures
        t * x <= m * x,
{
    assert(t * x <= m * x) by (nonlinear_arith)
        requires
            t <= m,
            0 <= x,
    ;
}

impl Resident {
    // -- dimensions ---------------------------------------------------------
    pub open spec fn q_dim(&self) -> int {
        self.cfg.n_heads * self.cfg.head_dim
    }

    pub open spec fn key_dim(&self) -> int {
        self.cfg.n_k_heads * self.cfg.lin_head_dim
    }

    /// The conv window's rows before the current one, times its width.
    pub open spec fn conv_rows(&self) -> int {
        (self.cfg.conv_kernel - 1) * self.cfg.conv_width()
    }

    /// The numbers that a batch of `t` multiplies out fit their types.
    pub open spec fn fits(&self, t: int) -> bool {
        &&& t * self.cfg.d_model <= usize::MAX
        &&& t * self.cfg.ffn_dim <= usize::MAX
        &&& t * self.cfg.conv_width() <= usize::MAX
        &&& t * 2 <= usize::MAX
        &&& t * 2 * self.cfg.n_k_heads <= usize::MAX
        &&& t * self.cfg.n_v_heads <= usize::MAX
        &&& t * self.cfg.d_inner <= usize::MAX
        &&& t * self.cfg.n_heads <= usize::MAX
        &&& t * self.q_dim() <= usize::MAX
        &&& t * self.cfg.kv_width() <= usize::MAX
        &&& (t as u32) * (self.cfg.n_heads as u32) <= u32::MAX
        &&& (t as u32) * (self.cfg.n_kv_heads as u32) <= u32::MAX
    }

    /// The parts of the model agree, its widths are representable, and a plan's
    /// slots can be numbered.
    pub open spec fn wf(&self) -> bool {
        &&& self.cfg.recurrent@.len() >= self.cfg.n_layers
        &&& self.grid.tile > 0
        &&& 32 * self.cfg.n_layers + 8 <= MAX_SLOTS
        &&& 2 * self.cfg.n_k_heads <= usize::MAX
        &&& self.cfg.conv_width() <= usize::MAX
        &&& self.cfg.kv_width() <= usize::MAX
        &&& self.key_dim() <= usize::MAX
        &&& 2 * self.q_dim() <= usize::MAX
        &&& (exists|i: int| 0 <= i < self.cfg.n_layers && #[trigger] self.cfg.recurrent@[i])
            ==> self.cfg.conv_kernel >= 1 && self.conv_rows() <= usize::MAX
    }

    /// Batches of up to `max` can be planned, and positions are 32-bit words.
    pub open spec fn runs(&self, n_ctx: int, max: int) -> bool {
        &&& self.wf()
        &&& n_ctx <= u32::MAX
        &&& forall|t: int| 0 < t <= max ==> #[trigger] self.fits(t)
        &&& forall|t: int| 0 < t <= max ==> #[trigger] (t * self.cfg.d_model) * 4 <= usize::MAX
    }

    /// Whether the parts of the model agree and its widths can be counted.
    fn is_whole(&self) -> (r: bool)
        ensures
            r == self.wf(),
    {
        let c = &self.cfg;
        let n: usize = c.n_layers;
        if c.recurrent.len() < n || self.grid.tile == 0 || n > (MAX_SLOTS - 8) / 32 || !within(
            c.n_kv_heads,
            c.head_dim,
        ) || !within(c.n_k_heads, c.lin_head_dim) || !within(c.n_heads, c.head_dim) || !within(
            2,
            c.n_heads * c.head_dim,
        ) {
            return false;
        }
        let conv: usize = match c.counted_conv() {
            Some(w) => w,
            None => {
                return false;
            },
        };
        let mut recurs: bool = false;
        let mut i: usize = 0;
        while i < n
            invariant
                i <= n,
                n <= c.recurrent@.len(),
                recurs == (exists|k: int| 0 <= k < i && #[trigger] c.recurrent@[k]),
            decreases n - i,
        {
            if c.recurrent[i] {
                assert(c.recurrent@[i as int]);
                recurs = true;
            }
            i = i + 1;
        }
        !recurs || (c.conv_kernel >= 1 && within(c.conv_kernel - 1, conv))
    }

    /// Whether batches of up to `max` can be planned.
    pub fn can_run(&self, n_ctx: usize, max: usize) -> (r: bool)
        ensures
            r == self.runs(n_ctx as int, max as int),
    {
        if !self.is_whole() || n_ctx > u32::MAX as usize {
            return false;
        }
        if max == 0 {
            return true;
        }
        let c = &self.cfg;
        let ghost m = max as int;
        let conv: usize = c.conv_dim();
        let q: usize = c.n_heads * c.head_dim;
        let kv: usize = c.kv_dim();
        if !bytes_fit(max, c.d_model) || !within(max, c.ffn_dim) || !within(max, conv) || !within(
            max,
            2,
        ) || !within(max * 2, c.n_k_heads) || !within(max, c.n_v_heads) || !within(max, c.d_inner)
            || !within(max, c.n_heads) || !within(max, q) || !within(max, kv) {
            proof {
                assert(!self.fits(m) || !((m * self.cfg.d_model) * 4 <= usize::MAX));
            }
            return false;
        }
        if !words_fit(max, c.n_heads as u32) || !words_fit(max, c.n_kv_heads as u32) {
            assert(!self.fits(most_words(m)));
            return false;
        }
        proof {
            assert forall|t: int| 0 < t <= max implies #[trigger] self.fits(t) by {
                lemma_words(t, m, c.n_heads as u32);
                lemma_words(t, m, c.n_kv_heads as u32);
                lemma_smaller(t, m, c.d_model as int);
                lemma_smaller(t, m, c.ffn_dim as int);
                lemma_smaller(t, m, conv as int);
                lemma_smaller(t * 2, m * 2, c.n_k_heads as int);
                lemma_smaller(t, m, c.n_v_heads as int);
                lemma_smaller(t, m, c.d_inner as int);
                lemma_smaller(t, m, c.n_heads as int);
                lemma_smaller(t, m, q as int);
                lemma_smaller(t, m, kv as int);
            }
            assert forall|t: int| 0 < t <= max implies #[trigger] (t * self.cfg.d_model) * 4
                <= usize::MAX by {
                lemma_smaller(t, m, c.d_model as int);
            }
        }
        true
    }

    // -- lookups ------------------------------------------------------------
    pub open spec fn param_error(&self, name: Seq<char>) -> Option<PlanErrorView> {
        err_of(param_at(self.param_off.offsets@, name))
    }

    pub open spec fn weight_error(&self, name: Seq<char>, t: int) -> Option<PlanErrorView> {
        projection_error(self.weights.handles@, name, t as u32)
    }

    pub open spec fn param(&self, name: Seq<char>) -> u32 {
        param_at(self.param_off.offsets@, name)->Ok_0
    }

    pub open spec fn weight(&self, name: Seq<char>) -> Handle {
        weight_at(self.weights.handles@, name)->Ok_0
    }

    /// What can be missing from a recurrent layer.
    pub open spec fn linear_errors(&self, il: int, t: int) -> Seq<Option<PlanErrorView>> {
        seq![
            self.weight_error(blk(il, ".attn_qkv.weight"@), t),
            self.weight_error(blk(il, ".attn_gate.weight"@), t),
            self.weight_error(blk(il, ".ssm_alpha.weight"@), t),
            self.weight_error(blk(il, ".ssm_beta.weight"@), t),
            self.param_error(blk(il, ".ssm_conv1d.weight"@)),
            self.param_error(blk(il, ".ssm_a"@)),
            self.param_error(blk(il, ".ssm_dt.bias"@)),
            self.param_error(blk(il, ".ssm_norm.weight"@)),
            self.weight_error(blk(il, ".ssm_out.weight"@), t),
        ]
    }

    /// What can be missing from a full-attention layer.
    pub open spec fn full_errors(&self, il: int, t: int) -> Seq<Option<PlanErrorView>> {
        seq![
            self.weight_error(blk(il, ".attn_q.weight"@), t),
            self.weight_error(blk(il, ".attn_k.weight"@), t),
            self.weight_error(blk(il, ".attn_v.weight"@), t),
            self.param_error(blk(il, ".attn_q_norm.weight"@)),
            self.param_error(blk(il, ".attn_k_norm.weight"@)),
            self.weight_error(blk(il, ".attn_output.weight"@), t),
        ]
    }

    /// What can be missing from a layer's feed-forward block.
    pub open spec fn ffn_errors(&self, il: int, t: int) -> Seq<Option<PlanErrorView>> {
        seq![
            self.param_error(blk(il, ".post_attention_norm.weight"@)),
            self.weight_error(blk(il, ".ffn_gate.weight"@), t),
            self.weight_error(blk(il, ".ffn_up.weight"@), t),
            self.weight_error(blk(il, ".ffn_down.weight"@), t),
        ]
    }

    pub open spec fn linear_refs(&self, il: int) -> LinearRefs {
        LinearRefs {
            qkv: self.weight(blk(il, ".attn_qkv.weight"@)),
            gate: self.weight(blk(il, ".attn_gate.weight"@)),
            alpha: self.weight(blk(il, ".ssm_alpha.weight"@)),
            beta: self.weight(blk(il, ".ssm_beta.weight"@)),
            taps: self.param(blk(il, ".ssm_conv1d.weight"@)),
            a: self.param(blk(il, ".ssm_a"@)),
            dt: self.param(blk(il, ".ssm_dt.bias"@)),
            norm: self.param(blk(il, ".ssm_norm.weight"@)),
            out: self.weight(blk(il, ".ssm_out.weight"@)),
        }
    }

    /// Every weight that was found has a kernel.
    pub open spec fn linear_runnable(r: LinearRefs, t: int) -> bool {
        &&& matvec_kernel(r.qkv.ty, t as u32) is Some
        &&& matvec_kernel(r.gate.ty, t as u32) is Some
        &&& matvec_kernel(r.alpha.ty, t as u32) is Some
        &&& matvec_kernel(r.beta.ty, t as u32) is Some
        &&& matvec_kernel(r.out.ty, t as u32) is Some
    }

    pub open spec fn full_refs(&self, il: int) -> FullRefs {
        FullRefs {
            q: self.weight(blk(il, ".attn_q.weight"@)),
            k: self.weight(blk(il, ".attn_k.weight"@)),
            v: self.weight(blk(il, ".attn_v.weight"@)),
            q_norm: self.param(blk(il, ".attn_q_norm.weight"@)),
            k_norm: self.param(blk(il, ".attn_k_norm.weight"@)),
            output: self.weight(blk(il, ".attn_output.weight"@)),
        }
    }

    /// Every weight that was found has a kernel.
    pub open spec fn full_runnable(r: FullRefs, t: int) -> bool {
        &&& matvec_kernel(r.q.ty, t as u32) is Some
        &&& matvec_kernel(r.k.ty, t as u32) is Some
        &&& matvec_kernel(r.v.ty, t as u32) is Some
        &&& matvec_kernel(r.output.ty, t as u32) is Some
    }

    pub open spec fn ffn_refs(&self, il: int) -> FfnRefs {
        FfnRefs {
            post_attention_norm: self.param(blk(il, ".post_attention_norm.weight"@)),
            gate: self.weight(blk(il, ".ffn_gate.weight"@)),
            up: self.weight(blk(il, ".ffn_up.weight"@)),
            down: self.weight(blk(il, ".ffn_down.weight"@)),
        }
    }

    /// Every weight that was found has a kernel.
    pub open spec fn ffn_runnable(r: FfnRefs, t: int) -> bool {
        &&& matvec_kernel(r.gate.ty, t as u32) is Some
        &&& matvec_kernel(r.up.ty, t as u32) is Some
        &&& matvec_kernel(r.down.ty, t as u32) is Some
    }

    /// What can be missing from layer `il`, in the order in which it is noticed.
    pub open spec fn layer_errors(&self, il: int, t: int) -> Seq<Option<PlanErrorView>> {
        seq![self.param_error(blk(il, ".attn_norm.weight"@))] + (if self.cfg.recurrent@[il] {
            self.linear_errors(il, t)
        } else {
            self.full_errors(il, t)
        }) + self.ffn_errors(il, t)
    }

    /// The output projection: a matrix of its own, or the embedding table.
    pub open spec fn output_name(&self) -> Seq<char> {
        if self.weights.handles@.contains_key("output.weight"@) {
            "output.weight"@
        } else {
            "token_embd.weight"@
        }
    }

    /// What can be missing from layer `il` on, then from the output head.
    pub open spec fn errors_from(&self, il: int, t: int) -> Seq<Option<PlanErrorView>>
        decreases self.cfg.n_layers - il,
    {
        if il >= self.cfg.n_layers {
            seq![
                self.param_error("output_norm.weight"@),
                self.weight_error(self.output_name(), 1),
            ]
        } else {
            self.layer_errors(il, t) + self.errors_from(il + 1, t)
        }
    }

    /// Why the embedding table cannot be gathered from.
    pub open spec fn embed_error(&self) -> Option<PlanErrorView> {
        match weight_at(self.weights.handles@, "token_embd.weight"@) {
            Err(e) => Some(e),
            Ok(h) => if embed_kernel(h.ty) is None {
                Some(PlanErrorView::NoKernel(h.ty))
            } else {
                None
            },
        }
    }

    /// What can be missing, in the order in which it is noticed.
    pub open spec fn errors(&self, t: int) -> Seq<Option<PlanErrorView>> {
        seq![self.embed_error()] + self.errors_from(0, t)
    }

    // -- steps --------------------------------------------------------------
    /// The embedding gather.
    pub open spec fn embed_nodes(&self, t: int) -> Seq<Node> {
        let e = self.weight("token_embd.weight"@);
        seq![
            one(
                Slot::Matvec(
                    MatvecParams {
                        w_base: e.base_u32,
                        in_dim: self.cfg.d_model as u32,
                        out_dim: self.cfg.vocab as u32,
                        n_tokens: t as u32,
                    },
                ),
                embed_kernel(e.ty)->0,
                Bind::Matvec { weights: e.buffer, x: Buf::Zero, y: Buf::H },
                (16, t as u32, 1),
            ),
            Node::Mark { name: "model.input_embed"@, buf: 0 },
        ]
    }

    /// A projection whose input width is the weight's own.
    pub open spec fn proj(&self, h: Handle, t: int, x: Buf, y: Buf, out_dim: int) -> Node {
        project(self.grid, h, h.in_dim, out_dim as u32, t as u32, x, y)
    }

    /// A copy of the residual stream, normed.
    pub open spec fn normed(&self, off0: u32, t: int) -> Seq<Node> {
        let (tt, d) = (t as u32, self.cfg.d_model as u32);
        let td = (t * self.cfg.d_model) as u32;
        let z = Buf::Zero;
        seq![
            ops(plain(tt, d), Kernel::Copy, Buf::H, z, Buf::X, td, WG_OPS),
            ops(norm_op(tt, d, off0, self.scalars.rms_eps), Kernel::RmsNorm, z, z, Buf::X, tt, 1),
        ]
    }

    /// The projections of a recurrent layer.
    pub open spec fn linear_proj_nodes(&self, r: LinearRefs, il: int, t: int) -> Seq<Node> {
        seq![
            self.proj(r.qkv, t, Buf::X, Buf::Fused, self.cfg.conv_width()),
            layer_mark("linear_attn_qkv_mixed-"@, il, 2),
            self.proj(r.gate, t, Buf::X, Buf::Z, self.cfg.d_inner as int),
            layer_mark("z-"@, il, 4),
            self.proj(r.alpha, t, Buf::X, Buf::Alpha, self.cfg.n_v_heads as int),
            layer_mark("alpha-"@, il, 5),
            self.proj(r.beta, t, Buf::X, Buf::Beta, self.cfg.n_v_heads as int),
            layer_mark("beta-"@, il, 6),
        ]
    }

    pub open spec fn delta_op(&self, r: LinearRefs, t: int) -> DOp {
        DOp {
            n_tok: t as u32,
            conv_dim: self.cfg.conv_width() as u32,
            key_dim: self.key_dim() as u32,
            d_inner: self.cfg.d_inner as u32,
            s_dim: self.cfg.lin_head_dim as u32,
            n_vh: self.cfg.n_v_heads as u32,
            n_kh: self.cfg.n_k_heads as u32,
            kernel: self.cfg.conv_kernel as u32,
            off_taps: r.taps,
            off_a: r.a,
            off_dt: r.dt,
            eps: self.scalars.rms_eps,
            scale: self.scalars.delta_scale,
        }
    }

    /// Conv, state shift, commit, head norms and the recurrence share one slot:
    /// they read the same geometry.
    pub open spec fn delta_runs(&self, il: int, t: int) -> Seq<Run> {
        let z = Buf::Zero;
        let conv = Buf::ConvState(il as usize);
        let s = Buf::Recurrent(il as usize);
        let wg = WG_OPS as int;
        let rows = cell_groups((self.conv_rows() as u32) as int, wg) as u32;
        let all = cell_groups(((t * self.cfg.conv_width()) as u32) as int, wg) as u32;
        let heads = cell_groups(((t * 2 * self.cfg.n_k_heads) as u32) as int, 1) as u32;
        seq![
            delta_run(Kernel::ConvSilu, Buf::Fused, z, z, conv, Buf::Conv, all),
            delta_run(Kernel::ConvShift, Buf::Fused, z, z, conv, Buf::ConvScratch, rows),
            delta_run(Kernel::ConvCommit, Buf::ConvScratch, z, z, conv, Buf::Sink, rows),
            delta_run(Kernel::L2normQk, z, z, z, Buf::Sink, Buf::Conv, heads),
            delta_run(
                Kernel::DeltaRecur,
                Buf::Alpha,
                Buf::Beta,
                Buf::Conv,
                s,
                Buf::Attn,
                self.cfg.n_v_heads as u32,
            ),
        ]
    }

    /// The recurrence, the gated norm per v-head, and the output projection.
    pub open spec fn delta_nodes(&self, r: LinearRefs, il: int, t: int) -> Seq<Node> {
        let tv = (t * self.cfg.n_v_heads) as u32;
        let z = Buf::Zero;
        seq![
            Node::Step { slot: Slot::Delta(self.delta_op(r, t)), runs: self.delta_runs(il, t) },
            layer_mark("attn_output-"@, il, 11),
            ops(
                norm_op(tv, self.cfg.lin_head_dim as u32, r.norm, self.scalars.rms_eps),
                Kernel::RmsNorm,
                z,
                z,
                Buf::Attn,
                tv,
                1,
            ),
            ops(
                plain(t as u32, self.cfg.d_inner as u32),
                Kernel::MulSilu,
                z,
                Buf::Z,
                Buf::Attn,
                (t * self.cfg.d_inner) as u32,
                WG_OPS,
            ),
            layer_mark("final_output-"@, il, 11),
            self.proj(r.out, t, Buf::Attn, Buf::Proj, self.cfg.d_model as int),
            layer_mark("linear_attn_out-"@, il, 12),
        ]
    }

    /// One half of the fused per-head pairs.
    pub open spec fn split_node(&self, t: int, at: u32, out: Buf) -> Node {
        ops(
            Op {
                n_rows: (t * self.cfg.n_heads) as u32,
                dim: self.cfg.head_dim as u32,
                off0: 0,
                off1: 0,
                f0: 0,
                f1: 0,
                u0: at,
                u1: 0,
            },
            Kernel::SplitHalf,
            Buf::Fused,
            Buf::Zero,
            out,
            (t * self.q_dim()) as u32,
            WG_OPS,
        )
    }

    /// The Q, K and V projections. With a fused gate, Q comes as per-head
    /// `[query | gate]` pairs that are taken apart.
    pub open spec fn full_proj_nodes(&self, r: FullRefs, il: int, t: int) -> Seq<Node> {
        (if self.cfg.query_gate {
            seq![
                self.proj(r.q, t, Buf::X, Buf::Fused, 2 * self.q_dim()),
                layer_mark("Qcur_full-"@, il, 2),
            ]
        } else {
            seq![
                self.proj(r.q, t, Buf::X, Buf::Q, self.q_dim()),
                layer_mark("Qcur_full-"@, il, 7),
            ]
        }) + seq![
            self.proj(r.k, t, Buf::X, Buf::K, self.cfg.kv_width()),
            layer_mark("Kcur-"@, il, 9),
            self.proj(r.v, t, Buf::X, Buf::V, self.cfg.kv_width()),
            layer_mark("Vcur-"@, il, 10),
        ] + (if self.cfg.query_gate {
            seq![
                self.split_node(t, 0, Buf::Q),
                self.split_node(t, self.cfg.head_dim as u32, Buf::GateA),
            ]
        } else {
            Seq::empty()
        })
    }

    pub open spec fn rope_op(&self, t: int, heads: u32) -> Op {
        Op {
            n_rows: ((t as u32) * heads) as u32,
            dim: self.cfg.head_dim as u32,
            off0: self.cfg.n_rot as u32,
            off1: 0,
            f0: self.scalars.rope_base,
            f1: 0,
            u0: heads,
            u1: 0,
        }
    }

    /// Per-head norms with learned gains, then partial RoPE.
    pub open spec fn rotate_nodes(&self, r: FullRefs, il: int, t: int) -> Seq<Node> {
        let hd = self.cfg.head_dim as u32;
        let (nh, nkv) = (self.cfg.n_heads as u32, self.cfg.n_kv_heads as u32);
        let (tq, tk) = (((t as u32) * nh) as u32, ((t as u32) * nkv) as u32);
        let eps = self.scalars.rms_eps;
        let z = Buf::Zero;
        seq![
            ops(norm_op(tq, hd, r.q_norm, eps), Kernel::RmsNorm, z, z, Buf::Q, tq, 1),
            positioned(self.rope_op(t, nh), Kernel::RopePartial, z, z, Buf::Q, tq, 1),
            ops(norm_op(tk, hd, r.k_norm, eps), Kernel::RmsNorm, z, z, Buf::K, tk, 1),
            positioned(self.rope_op(t, nkv), Kernel::RopePartial, z, z, Buf::K, tk, 1),
            layer_mark("Qcur-"@, il, 7),
            layer_mark("Kcur_pos-"@, il, 9),
        ]
    }

    /// Cache append, the attention passes, gating where the query carries it, and the
    /// output projection.
    pub open spec fn attn_nodes(&self, r: FullRefs, il: int, t: int) -> Seq<Node> {
        let tt = t as u32;
        let kv = self.cfg.kv_width() as u32;
        let tkv = (t * self.cfg.kv_width()) as u32;
        let ck = Buf::CacheK(il as usize);
        let cv = Buf::CacheV(il as usize);
        seq![
            positioned(plain(tt, kv), Kernel::WriteCache, Buf::K, Buf::Zero, ck, tkv, WG_OPS),
            positioned(plain(tt, kv), Kernel::WriteCache, Buf::V, Buf::Zero, cv, tkv, WG_OPS),
            attend(
                Slot::Attention(
                    Attn {
                        n_tokens: tt,
                        n_heads: self.cfg.n_heads as u32,
                        n_kv_heads: self.cfg.n_kv_heads as u32,
                        head_dim: self.cfg.head_dim as u32,
                        kv_dim: kv,
                        base_pos: 0,
                        window: 0,
                        max_vis: 0,
                        scale: self.scalars.attn_scale,
                        bidi: 0,
                    },
                ),
                Bind::Attn { q: Buf::Q, k: ck, v: cv, scores: Buf::Scores, out: Buf::Attn },
                self.cfg.n_heads as u32,
                tt,
            ),
        ] + (if self.cfg.query_gate {
            seq![
                ops(
                    plain(tt, self.q_dim() as u32),
                    Kernel::MulSigmoid,
                    Buf::Zero,
                    Buf::GateA,
                    Buf::Attn,
                    (t * self.q_dim()) as u32,
                    WG_OPS,
                ),
            ]
        } else {
            Seq::empty()
        }) + seq![
            layer_mark("attn_gated-"@, il, 11),
            self.proj(r.output, t, Buf::Attn, Buf::Proj, self.cfg.d_model as int),
            layer_mark("attn_output-"@, il, 12),
        ]
    }

    /// The residual add behind a block.
    pub open spec fn add_node(&self, t: int) -> Node {
        ops(
            scaled_op(t as u32, self.cfg.d_model as u32, ONE),
            Kernel::AddScale,
            Buf::Zero,
            Buf::Proj,
            Buf::H,
            (t * self.cfg.d_model) as u32,
            WG_OPS,
        )
    }

    /// Residual, pre-FFN norm, feed-forward, residual.
    pub open spec fn ffn_nodes(&self, r: FfnRefs, il: int, t: int) -> Seq<Node> {
        let f = self.cfg.ffn_dim;
        seq![self.add_node(t), layer_mark("attn_residual-"@, il, 0)] + self.normed(
            r.post_attention_norm,
            t,
        ) + seq![
            layer_mark("attn_post_norm-"@, il, 1),
            self.proj(r.gate, t, Buf::X, Buf::Gate, f as int),
            self.proj(r.up, t, Buf::X, Buf::Up, f as int),
            ops(
                plain(t as u32, f as u32),
                Kernel::Swiglu,
                Buf::Zero,
                Buf::Up,
                Buf::Gate,
                (t * f) as u32,
                WG_OPS,
            ),
            self.proj(r.down, t, Buf::Gate, Buf::Proj, self.cfg.d_model as int),
            layer_mark("ffn_out-"@, il, 12),
            self.add_node(t),
            layer_mark("l_out-"@, il, 0),
        ]
    }

    /// The mixing block of layer `il`.
    pub open spec fn mix_nodes(&self, il: int, t: int) -> Seq<Node> {
        if self.cfg.recurrent@[il] {
            let r = self.linear_refs(il);
            self.linear_proj_nodes(r, il, t) + self.delta_nodes(r, il, t)
        } else {
            let r = self.full_refs(il);
            self.full_proj_nodes(r, il, t) + self.rotate_nodes(r, il, t) + self.attn_nodes(r, il, t)
        }
    }

    /// One layer.
    pub open spec fn layer_nodes(&self, il: int, t: int) -> Seq<Node> {
        self.normed(self.param(blk(il, ".attn_norm.weight"@)), t) + seq![
            layer_mark("attn_norm-"@, il, 1),
        ] + self.mix_nodes(il, t) + self.ffn_nodes(self.ffn_refs(il), il, t)
    }

    /// The embeddings and the first `n` layers.
    pub open spec fn nodes_to(&self, n: int, t: int) -> Seq<Node>
        decreases n,
    {
        if n <= 0 {
            self.embed_nodes(t)
        } else {
            self.nodes_to(n - 1, t) + self.layer_nodes(n - 1, t)
        }
    }

    /// The whole pass up to the final norm.
    pub open spec fn nodes(&self, t: int) -> Seq<Node> {
        let tt = t as u32;
        self.nodes_to(self.cfg.n_layers as int, t) + seq![
            ops(
                norm_op(
                    tt,
                    self.cfg.d_model as u32,
                    self.param("output_norm.weight"@),
                    self.scalars.rms_eps,
                ),
                Kernel::RmsNorm,
                Buf::Zero,
                Buf::Zero,
                Buf::H,
                tt,
                1,
            ),
            Node::Mark { name: "result_norm"@, buf: 0 },
        ]
    }

    pub open spec fn tail_slots(&self) -> Seq<Slot> {
        seq![
            Slot::Matvec(
                MatvecParams {
                    w_base: self.weight(self.output_name()).base_u32,
                    in_dim: self.cfg.d_model as u32,
                    out_dim: self.cfg.vocab as u32,
                    n_tokens: 1,
                },
            ),
        ]
    }

    /// The output head.
    pub open spec fn tail(&self) -> Seq<Dispatch> {
        let h = self.weight(self.output_name());
        seq![
            Dispatch {
                kernel: matvec_kernel(h.ty, 1)->0,
                bind: Bind::Matvec { weights: h.buffer, x: Buf::X, y: Buf::Logits },
                offset: slot_offset(0),
                groups: (
                    row_grid((self.cfg.vocab as u32) as int, self.grid.max_groups as int) as u32,
                    1,
                    1,
                ),
            },
        ]
    }

    /// The plan for a batch of `t`.
    pub open spec fn is_plan(&self, p: CachedPlan, t: int) -> bool {
        &&& p.body() == lower(self.nodes(t))
        &&& p.tail@ == self.tail()
        &&& p.tail_slots@ == self.tail_slots()
    }

    // -- building -----------------------------------------------------------
    fn find_linear(&self, il: usize, t: usize) -> (r: Result<LinearRefs, PlanError>)
        ensures
            match r {
                Ok(x) => first_error(self.linear_errors(il as int, t as int)) is None && x
                    == self.linear_refs(il as int) && Self::linear_runnable(x, t as int),
                Err(e) => first_error(self.linear_errors(il as int, t as int)) == Some(e@),
            },
    {
        let ghost errs = self.linear_errors(il as int, t as int);
        let qkv = match self.weights.projection(blk_name(il, ".attn_qkv.weight").as_str(), t as u32) {
            Ok(x) => x,
            Err(e) => {
                proof {
                    lemma_first_error(errs, 0);
                }
                return Err(e);
            },
        };
        let gate = match self.weights.projection(blk_name(il, ".attn_gate.weight").as_str(), t as u32) {
            Ok(x) => x,
            Err(e) => {
                proof {
                    lemma_first_error(errs, 1);
                }
                return Err(e);
            },
        };
        let alpha = match self.weights.projection(blk_name(il, ".ssm_alpha.weight").as_str(), t as u32) {
            Ok(x) => x,
            Err(e) => {
                proof {
                    lemma_first_error(errs, 2);
                }
                return Err(e);
            },
        };
        let beta = match self.weights.projection(blk_name(il, ".ssm_beta.weight").as_str(), t as u32) {
            Ok(x) => x,
            Err(e) => {
                proof {
                    lemma_first_error(errs, 3);
                }
                return Err(e);
            },
        };
        let taps: u32 = match self.param_off.at(blk_name(il, ".ssm_conv1d.weight").as_str()) {
            Ok(x) => x,
            Err(e) => {
                proof {
                    lemma_first_error(errs, 4);
                }
                return Err(e);
            },
        };
        let a: u32 = match self.param_off.at(blk_name(il, ".ssm_a").as_str()) {
            Ok(x) => x,
            Err(e) => {
                proof {
                    lemma_first_error(errs, 5);
                }
                return Err(e);
            },
        };
        let dt: u32 = match self.param_off.at(blk_name(il, ".ssm_dt.bias").as_str()) {
            Ok(x) => x,
            Err(e) => {
                proof {
                    lemma_first_error(errs, 6);
                }
                return Err(e);
            },
        };
        let norm: u32 = match self.param_off.at(blk_name(il, ".ssm_norm.weight").as_str()) {
            Ok(x) => x,
            Err(e) => {
                proof {
                    lemma_first_error(errs, 7);
                }
                return Err(e);
            },
        };
        let out = match self.weights.projection(blk_name(il, ".ssm_out.weight").as_str(), t as u32) {
            Ok(x) => x,
            Err(e) => {
                proof {
                    lemma_first_error(errs, 8);
                }
                return Err(e);
            },
        };
        proof {
            lemma_no_error(errs);
        }
        Ok(LinearRefs { qkv, gate, alpha, beta, taps, a, dt, norm, out })
    }

    fn find_full(&self, il: usize, t: usize) -> (r: Result<FullRefs, PlanError>)
        ensures
            match r {
                Ok(x) => first_error(self.full_errors(il as int, t as int)) is None && x
                    == self.full_refs(il as int) && Self::full_runnable(x, t as int),
                Err(e) => first_error(self.full_errors(il as int, t as int)) == Some(e@),
            },
    {
        let ghost errs = self.full_errors(il as int, t as int);
        let q = match self.weights.projection(blk_name(il, ".attn_q.weight").as_str(), t as u32) {
            Ok(x) => x,
            Err(e) => {
                proof {
                    lemma_first_error(errs, 0);
                }
                return Err(e);
            },
        };
        let k = match self.weights.projection(blk_name(il, ".attn_k.weight").as_str(), t as u32) {
            Ok(x) => x,
            Err(e) => {
                proof {
                    lemma_first_error(errs, 1);
                }
                return Err(e);
            },
        };
        let v = match self.weights.projection(blk_name(il, ".attn_v.weight").as_str(), t as u32) {
            Ok(x) => x,
            Err(e) => {
                proof {
                    lemma_first_error(errs, 2);
                }
                return Err(e);
            },
        };
        let q_norm: u32 = match self.param_off.at(blk_name(il, ".attn_q_norm.weight").as_str()) {
            Ok(x) => x,
            Err(e) => {
                proof {
                    lemma_first_error(errs, 3);
                }
                return Err(e);
            },
        };
        let k_norm: u32 = match self.param_off.at(blk_name(il, ".attn_k_norm.weight").as_str()) {
            Ok(x) => x,
            Err(e) => {
                proof {
                    lemma_first_error(errs, 4);
                }
                return Err(e);
            },
        };
        let output = match self.weights.projection(blk_name(il, ".attn_output.weight").as_str(), t as u32) {
            Ok(x) => x,
            Err(e) => {
                proof {
                    lemma_first_error(errs, 5);
                }
                return Err(e);
            },
        };
        proof {
            lemma_no_error(errs);
        }
        Ok(FullRefs { q, k, v, q_norm, k_norm, output })
    }

    fn find_ffn(&self, il: usize, t: usize) -> (r: Result<FfnRefs, PlanError>)
        ensures
            match r {
                Ok(x) => first_error(self.ffn_errors(il as int, t as int)) is None && x
                    == self.ffn_refs(il as int) && Self::ffn_runnable(x, t as int),
                Err(e) => first_error(self.ffn_errors(il as int, t as int)) == Some(e@),
            },
    {
        let ghost errs = self.ffn_errors(il as int, t as int);
        let post_attention_norm: u32 = match self.param_off.at(blk_name(il, ".post_attention_norm.weight").as_str()) {
            Ok(x) => x,
            Err(e) => {
                proof {
                    lemma_first_error(errs, 0);
                }
                return Err(e);
            },
        };
        let gate = match self.weights.projection(blk_name(il, ".ffn_gate.weight").as_str(), t as u32) {
            Ok(x) => x,
            Err(e) => {
                proof {
                    lemma_first_error(errs, 1);
                }
                return Err(e);
            },
        };
        let up = match self.weights.projection(blk_name(il, ".ffn_up.weight").as_str(), t as u32) {
            Ok(x) => x,
            Err(e) => {
                proof {
                    lemma_first_error(errs, 2);
                }
                return Err(e);
            },
        };
        let down = match self.weights.projection(blk_name(il, ".ffn_down.weight").as_str(), t as u32) {
            Ok(x) => x,
            Err(e) => {
                proof {
                    lemma_first_error(errs, 3);
                }
                return Err(e);
            },
        };
        proof {
            lemma_no_error(errs);
        }
        Ok(FfnRefs { post_attention_norm, gate, up, down })
    }

    fn put_proj(&self, b: &mut Builder, h: Handle, t: usize, x: Buf, y: Buf, out_dim: usize)
        requires
            self.wf(),
            old(b).wf(),
            old(b).slots@.len() < MAX_SLOTS,
            matvec_kernel(h.ty, t as u32) is Some,
        ensures
            final(b).wf(),
            final(b).slots@.len() == old(b).slots@.len() + 1,
            final(b).nodes@ == old(b).nodes@.push(self.proj(h, t as int, x, y, out_dim as int)),
    {
        b.project(self.grid, h, h.in_dim, out_dim as u32, t as u32, x, y);
    }

    fn put_normed(&self, b: &mut Builder, off0: u32, t: usize)
        requires
            self.wf(),
            self.fits(t as int),
            old(b).wf(),
            old(b).slots@.len() + 8 <= MAX_SLOTS,
        ensures
            final(b).wf(),
            final(b).slots@.len() <= old(b).slots@.len() + 2,
            final(b).nodes@ == old(b).nodes@ + self.normed(off0, t as int),
    {
        let ghost before = b.nodes@;
        let tt: u32 = t as u32;
        let d: u32 = self.cfg.d_model as u32;
        let td: u32 = (t * self.cfg.d_model) as u32;
        let z = Buf::Zero;
        b.ops(plain_of(tt, d), Kernel::Copy, Buf::H, z, Buf::X, td, WG_OPS);
        b.ops(norm_of(tt, d, off0, self.scalars.rms_eps), Kernel::RmsNorm, z, z, Buf::X, tt, 1);
        assert(b.nodes@ =~= before + self.normed(off0, t as int));
    }

    fn put_linear_proj(&self, b: &mut Builder, r: &LinearRefs, il: usize, t: usize)
        requires
            self.wf(),
            self.fits(t as int),
            old(b).wf(),
            old(b).slots@.len() + 8 <= MAX_SLOTS,
            Self::linear_runnable(*r, t as int),
        ensures
            final(b).wf(),
            final(b).slots@.len() <= old(b).slots@.len() + 4,
            final(b).nodes@ == old(b).nodes@ + self.linear_proj_nodes(*r, il as int, t as int),
    {
        let ghost before = b.nodes@;
        let conv: usize = self.cfg.conv_dim();
        self.put_proj(b, r.qkv, t, Buf::X, Buf::Fused, conv);
        b.layer_mark("linear_attn_qkv_mixed-", il, 2);
        self.put_proj(b, r.gate, t, Buf::X, Buf::Z, self.cfg.d_inner);
        b.layer_mark("z-", il, 4);
        self.put_proj(b, r.alpha, t, Buf::X, Buf::Alpha, self.cfg.n_v_heads);
        b.layer_mark("alpha-", il, 5);
        self.put_proj(b, r.beta, t, Buf::X, Buf::Beta, self.cfg.n_v_heads);
        b.layer_mark("beta-", il, 6);
        assert(b.nodes@ =~= before + self.linear_proj_nodes(*r, il as int, t as int));
    }

    fn delta_list(&self, il: usize, t: usize) -> (runs: Vec<Run>)
        requires
            self.wf(),
            self.fits(t as int),
            self.cfg.conv_kernel >= 1,
            self.conv_rows() <= usize::MAX,
        ensures
            runs@ == self.delta_runs(il as int, t as int),
    {
        let width: usize = self.cfg.conv_dim();
        let rows: u32 = grid::cells(((self.cfg.conv_kernel - 1) * width) as u32, WG_OPS);
        let all: u32 = grid::cells((t * width) as u32, WG_OPS);
        assert(0 <= t * 2) by (nonlinear_arith);
        let heads: u32 = grid::cells((t * 2 * self.cfg.n_k_heads) as u32, 1);
        let z = Buf::Zero;
        let conv = Buf::ConvState(il);
        let mut runs: Vec<Run> = Vec::new();
        runs.push(delta_of(Kernel::ConvSilu, Buf::Fused, z, z, conv, Buf::Conv, all));
        runs.push(delta_of(Kernel::ConvShift, Buf::Fused, z, z, conv, Buf::ConvScratch, rows));
        runs.push(delta_of(Kernel::ConvCommit, Buf::ConvScratch, z, z, conv, Buf::Sink, rows));
        runs.push(delta_of(Kernel::L2normQk, z, z, z, Buf::Sink, Buf::Conv, heads));
        runs.push(
            delta_of(
                Kernel::DeltaRecur,
                Buf::Alpha,
                Buf::Beta,
                Buf::Conv,
                Buf::Recurrent(il),
                Buf::Attn,
                self.cfg.n_v_heads as u32,
            ),
        );
        assert(runs@ =~= self.delta_runs(il as int, t as int));
        runs
    }

    fn put_delta(&self, b: &mut Builder, r: &LinearRefs, il: usize, t: usize)
        requires
            self.wf(),
            self.fits(t as int),
            old(b).wf(),
            old(b).slots@.len() + 8 <= MAX_SLOTS,
            Self::linear_runnable(*r, t as int),
            self.cfg.conv_kernel >= 1,
            self.conv_rows() <= usize::MAX,
        ensures
            final(b).wf(),
            final(b).slots@.len() <= old(b).slots@.len() + 4,
            final(b).nodes@ == old(b).nodes@ + self.delta_nodes(*r, il as int, t as int),
    {
        let ghost before = b.nodes@;
        let op = DOp {
            n_tok: t as u32,
            conv_dim: self.cfg.conv_dim() as u32,
            key_dim: (self.cfg.n_k_heads * self.cfg.lin_head_dim) as u32,
            d_inner: self.cfg.d_inner as u32,
            s_dim: self.cfg.lin_head_dim as u32,
            n_vh: self.cfg.n_v_heads as u32,
            n_kh: self.cfg.n_k_heads as u32,
            kernel: self.cfg.conv_kernel as u32,
            off_taps: r.taps,
            off_a: r.a,
            off_dt: r.dt,
            eps: self.scalars.rms_eps,
            scale: self.scalars.delta_scale,
        };
        let runs = self.delta_list(il, t);
        b.steps(Slot::Delta(op), &runs);
        b.layer_mark("attn_output-", il, 11);
        let tv: u32 = (t * self.cfg.n_v_heads) as u32;
        let ti: u32 = (t * self.cfg.d_inner) as u32;
        let z = Buf::Zero;
        let norm = norm_of(tv, self.cfg.lin_head_dim as u32, r.norm, self.scalars.rms_eps);
        b.ops(norm, Kernel::RmsNorm, z, z, Buf::Attn, tv, 1);
        let gate = plain_of(t as u32, self.cfg.d_inner as u32);
        b.ops(gate, Kernel::MulSilu, z, Buf::Z, Buf::Attn, ti, WG_OPS);
        b.layer_mark("final_output-", il, 11);
        self.put_proj(b, r.out, t, Buf::Attn, Buf::Proj, self.cfg.d_model);
        b.layer_mark("linear_attn_out-", il, 12);
        assert(b.nodes@ =~= before + self.delta_nodes(*r, il as int, t as int));
    }

    fn put_split(&self, b: &mut Builder, t: usize, at: u32, out: Buf)
        requires
            self.wf(),
            self.fits(t as int),
            old(b).wf(),
            old(b).slots@.len() < MAX_SLOTS,
        ensures
            final(b).wf(),
            final(b).slots@.len() == old(b).slots@.len() + 1,
            final(b).nodes@ == old(b).nodes@.push(self.split_node(t as int, at, out)),
    {
        let q_dim: usize = self.cfg.n_heads * self.cfg.head_dim;
        let op = Op {
            n_rows: (t * self.cfg.n_heads) as u32,
            dim: self.cfg.head_dim as u32,
            off0: 0,
            off1: 0,
            f0: 0,
            f1: 0,
            u0: at,
            u1: 0,
        };
        let n: u32 = (t * q_dim) as u32;
        b.ops(op, Kernel::SplitHalf, Buf::Fused, Buf::Zero, out, n, WG_OPS);
    }

    fn put_full_proj(&self, b: &mut Builder, r: &FullRefs, il: usize, t: usize)
        requires
            self.wf(),
            self.fits(t as int),
            old(b).wf(),
            old(b).slots@.len() + 8 <= MAX_SLOTS,
            Self::full_runnable(*r, t as int),
        ensures
            final(b).wf(),
            final(b).slots@.len() <= old(b).slots@.len() + 5,
            final(b).nodes@ == old(b).nodes@ + self.full_proj_nodes(*r, il as int, t as int),
    {
        let ghost before = b.nodes@;
        let q_dim: usize = self.cfg.n_heads * self.cfg.head_dim;
        let kv: usize = self.cfg.kv_dim();
        if self.cfg.query_gate {
            self.put_proj(b, r.q, t, Buf::X, Buf::Fused, 2 * q_dim);
            b.layer_mark("Qcur_full-", il, 2);
        } else {
            self.put_proj(b, r.q, t, Buf::X, Buf::Q, q_dim);
            b.layer_mark("Qcur_full-", il, 7);
        }
        self.put_proj(b, r.k, t, Buf::X, Buf::K, kv);
        b.layer_mark("Kcur-", il, 9);
        self.put_proj(b, r.v, t, Buf::X, Buf::V, kv);
        b.layer_mark("Vcur-", il, 10);
        if self.cfg.query_gate {
            self.put_split(b, t, 0, Buf::Q);
            self.put_split(b, t, self.cfg.head_dim as u32, Buf::GateA);
        }
        assert(b.nodes@ =~= before + self.full_proj_nodes(*r, il as int, t as int));
    }

    fn rope_of(&self, t: usize, heads: u32) -> (o: Op)
        requires
            (t as u32) * heads <= u32::MAX,
        ensures
            o == self.rope_op(t as int, heads),
    {
        Op {
            n_rows: t as u32 * heads,
            dim: self.cfg.head_dim as u32,
            off0: self.cfg.n_rot as u32,
            off1: 0,
            f0: self.scalars.rope_base,
            f1: 0,
            u0: heads,
            u1: 0,
        }
    }

    fn put_rotate(&self, b: &mut Builder, r: &FullRefs, il: usize, t: usize)
        requires
            self.wf(),
            self.fits(t as int),
            old(b).wf(),
            old(b).slots@.len() + 8 <= MAX_SLOTS,
        ensures
            final(b).wf(),
            final(b).slots@.len() <= old(b).slots@.len() + 4,
            final(b).nodes@ == old(b).nodes@ + self.rotate_nodes(*r, il as int, t as int),
    {
        let ghost before = b.nodes@;
        let hd: u32 = self.cfg.head_dim as u32;
        let nh: u32 = self.cfg.n_heads as u32;
        let nkv: u32 = self.cfg.n_kv_heads as u32;
        let tq: u32 = t as u32 * nh;
        let tk: u32 = t as u32 * nkv;
        let eps: u32 = self.scalars.rms_eps;
        let z = Buf::Zero;
        b.ops(norm_of(tq, hd, r.q_norm, eps), Kernel::RmsNorm, z, z, Buf::Q, tq, 1);
        b.positioned(self.rope_of(t, nh), Kernel::RopePartial, z, z, Buf::Q, tq, 1);
        b.ops(norm_of(tk, hd, r.k_norm, eps), Kernel::RmsNorm, z, z, Buf::K, tk, 1);
        b.positioned(self.rope_of(t, nkv), Kernel::RopePartial, z, z, Buf::K, tk, 1);
        b.layer_mark("Qcur-", il, 7);
        b.layer_mark("Kcur_pos-", il, 9);
        assert(b.nodes@ =~= before + self.rotate_nodes(*r, il as int, t as int));
    }

    fn put_attn(&self, b: &mut Builder, r: &FullRefs, il: usize, t: usize)
        requires
            self.wf(),
            self.fits(t as int),
            old(b).wf(),
            old(b).slots@.len() + 8 <= MAX_SLOTS,
            Self::full_runnable(*r, t as int),
        ensures
            final(b).wf(),
            final(b).slots@.len() <= old(b).slots@.len() + 5,
            final(b).nodes@ == old(b).nodes@ + self.attn_nodes(*r, il as int, t as int),
    {
        let ghost before = b.nodes@;
        let tt: u32 = t as u32;
        let q_dim: usize = self.cfg.n_heads * self.cfg.head_dim;
        let width: usize = self.cfg.kv_dim();
        let kv: u32 = width as u32;
        let tkv: u32 = (t * width) as u32;
        let ck = Buf::CacheK(il);
        let cv = Buf::CacheV(il);
        b.positioned(plain_of(tt, kv), Kernel::WriteCache, Buf::K, Buf::Zero, ck, tkv, WG_OPS);
        b.positioned(plain_of(tt, kv), Kernel::WriteCache, Buf::V, Buf::Zero, cv, tkv, WG_OPS);
        let a = Attn {
            n_tokens: tt,
            n_heads: self.cfg.n_heads as u32,
            n_kv_heads: self.cfg.n_kv_heads as u32,
            head_dim: self.cfg.head_dim as u32,
            kv_dim: kv,
            base_pos: 0,
            window: 0,
            max_vis: 0,
            scale: self.scalars.attn_scale,
            bidi: 0,
        };
        b.attend(
            Slot::Attention(a),
            Bind::Attn { q: Buf::Q, k: ck, v: cv, scores: Buf::Scores, out: Buf::Attn },
            self.cfg.n_heads as u32,
            tt,
        );
        if self.cfg.query_gate {
            let tq: u32 = (t * q_dim) as u32;
            let op = plain_of(tt, q_dim as u32);
            b.ops(op, Kernel::MulSigmoid, Buf::Zero, Buf::GateA, Buf::Attn, tq, WG_OPS);
        }
        b.layer_mark("attn_gated-", il, 11);
        self.put_proj(b, r.output, t, Buf::Attn, Buf::Proj, self.cfg.d_model);
        b.layer_mark("attn_output-", il, 12);
        assert(b.nodes@ =~= before + self.attn_nodes(*r, il as int, t as int));
    }

    fn put_add(&self, b: &mut Builder, t: usize)
        requires
            self.fits(t as int),
            old(b).wf(),
            old(b).slots@.len() < MAX_SLOTS,
        ensures
            final(b).wf(),
            final(b).slots@.len() == old(b).slots@.len() + 1,
            final(b).nodes@ == old(b).nodes@.push(self.add_node(t as int)),
    {
        let td: u32 = (t * self.cfg.d_model) as u32;
        let op = scaled_of(t as u32, self.cfg.d_model as u32, ONE);
        b.ops(op, Kernel::AddScale, Buf::Zero, Buf::Proj, Buf::H, td, WG_OPS);
    }

    fn put_ffn(&self, b: &mut Builder, r: &FfnRefs, il: usize, t: usize)
        requires
            self.wf(),
            self.fits(t as int),
            old(b).wf(),
            old(b).slots@.len() + 8 <= MAX_SLOTS,
            Self::ffn_runnable(*r, t as int),
            old(b).slots@.len() + 12 <= MAX_SLOTS,
        ensures
            final(b).wf(),
            final(b).slots@.len() <= old(b).slots@.len() + 8,
            final(b).nodes@ == old(b).nodes@ + self.ffn_nodes(*r, il as int, t as int),
    {
        let ghost before = b.nodes@;
        let f: usize = self.cfg.ffn_dim;
        self.put_add(b, t);
        b.layer_mark("attn_residual-", il, 0);
        self.put_normed(b, r.post_attention_norm, t);
        b.layer_mark("attn_post_norm-", il, 1);
        self.put_proj(b, r.gate, t, Buf::X, Buf::Gate, f);
        self.put_proj(b, r.up, t, Buf::X, Buf::Up, f);
        let op = plain_of(t as u32, f as u32);
        b.ops(op, Kernel::Swiglu, Buf::Zero, Buf::Up, Buf::Gate, (t * f) as u32, WG_OPS);
        self.put_proj(b, r.down, t, Buf::Gate, Buf::Proj, self.cfg.d_model);
        b.layer_mark("ffn_out-", il, 12);
        self.put_add(b, t);
        b.layer_mark("l_out-", il, 0);
        assert(b.nodes@ =~= before + self.ffn_nodes(*r, il as int, t as int));
    }

    fn put_mix(&self, b: &mut Builder, il: usize, t: usize) -> (r: Result<(), PlanError>)
        requires
            self.wf(),
            self.fits(t as int),
            il < self.cfg.n_layers,
            old(b).wf(),
            old(b).slots@.len() + 24 <= MAX_SLOTS,
        ensures
            ({
                let errs = if self.cfg.recurrent@[il as int] {
                    self.linear_errors(il as int, t as int)
                } else {
                    self.full_errors(il as int, t as int)
                };
                match r {
                    Ok(_) => final(b).wf() && final(b).slots@.len() <= old(b).slots@.len() + 14
                        && first_error(errs) is None && final(b).nodes@ == old(b).nodes@
                        + self.mix_nodes(il as int, t as int),
                    Err(e) => first_error(errs) == Some(e@),
                }
            }),
    {
        if self.cfg.recurrent[il] {
            assert(self.cfg.recurrent@[il as int]);
            let refs = self.find_linear(il, t)?;
            self.put_linear_proj(b, &refs, il, t);
            self.put_delta(b, &refs, il, t);
        } else {
            let refs = self.find_full(il, t)?;
            self.put_full_proj(b, &refs, il, t);
            self.put_rotate(b, &refs, il, t);
            self.put_attn(b, &refs, il, t);
        }
        assert(b.nodes@ =~= old(b).nodes@ + self.mix_nodes(il as int, t as int));
        Ok(())
    }

    fn put_layer(&self, b: &mut Builder, il: usize, t: usize) -> (r: Result<(), PlanError>)
        requires
            self.wf(),
            self.fits(t as int),
            il < self.cfg.n_layers,
            old(b).wf(),
            old(b).slots@.len() + 32 <= MAX_SLOTS,
        ensures
            match r {
                Ok(_) => final(b).wf() && final(b).slots@.len() <= old(b).slots@.len() + 24
                    && first_error(self.layer_errors(il as int, t as int)) is None
                    && final(b).nodes@ == old(b).nodes@ + self.layer_nodes(il as int, t as int),
                Err(e) => first_error(self.layer_errors(il as int, t as int)) == Some(e@),
            },
    {
        let ghost head = seq![self.param_error(blk(il as int, ".attn_norm.weight"@))];
        let ghost mid = if self.cfg.recurrent@[il as int] {
            self.linear_errors(il as int, t as int)
        } else {
            self.full_errors(il as int, t as int)
        };
        let ghost last = self.ffn_errors(il as int, t as int);
        proof {
            lemma_first_error_concat(head, mid);
            lemma_first_error_concat(head + mid, last);
        }
        let off0: u32 = match self.param_off.at(blk_name(il, ".attn_norm.weight").as_str()) {
            Ok(x) => x,
            Err(e) => {
                proof {
                    lemma_first_error(head, 0);
                }
                return Err(e);
            },
        };
        proof {
            lemma_no_error(head);
        }
        self.put_normed(b, off0, t);
        b.layer_mark("attn_norm-", il, 1);
        self.put_mix(b, il, t)?;
        let refs = self.find_ffn(il, t)?;
        self.put_ffn(b, &refs, il, t);
        assert(b.nodes@ =~= old(b).nodes@ + self.layer_nodes(il as int, t as int));
        Ok(())
    }

    /// Plan a batch of `t` tokens.
    pub fn build_plan(&self, t: usize) -> (r: Result<CachedPlan, PlanError>)
        requires
            self.wf(),
            self.fits(t as int),
        ensures
            match r {
                Ok(p) => first_error(self.errors(t as int)) is None && self.is_plan(p, t as int),
                Err(e) => first_error(self.errors(t as int)) == Some(e@),
            },
    {
        let ghost head = seq![self.embed_error()];
        proof {
            lemma_first_error_concat(head, self.errors_from(0, t as int));
            if self.embed_error() is Some {
                lemma_first_error(head, 0);
            } else {
                lemma_no_error(head);
            }
        }
        let embd = self.weights.get("token_embd.weight")?;
        let kernel = match grid::embed_for(embd.ty) {
            Some(k) => k,
            None => {
                return Err(PlanError::NoKernel(embd.ty));
            },
        };
        let tt: u32 = t as u32;
        let d: u32 = self.cfg.d_model as u32;
        let vocab: u32 = self.cfg.vocab as u32;
        let mut b = Builder::new();
        b.step(
            Slot::Matvec(
                MatvecParams { w_base: embd.base_u32, in_dim: d, out_dim: vocab, n_tokens: tt },
            ),
            kernel,
            Bind::Matvec { weights: embd.buffer, x: Buf::Zero, y: Buf::H },
            (16, tt, 1),
        );
        b.mark("model.input_embed".to_owned(), 0);
        assert(b.nodes@ =~= self.nodes_to(0, t as int));
        let mut il: usize = 0;
        while il < self.cfg.n_layers
            invariant
                il <= self.cfg.n_layers,
                self.wf(),
                self.fits(t as int),
                b.wf(),
                b.slots@.len() <= 2 + 24 * il,
                b.nodes@ == self.nodes_to(il as int, t as int),
                first_error(self.errors(t as int)) == first_error(
                    self.errors_from(il as int, t as int),
                ),
            decreases self.cfg.n_layers - il,
        {
            proof {
                lemma_first_error_concat(
                    self.layer_errors(il as int, t as int),
                    self.errors_from(il + 1, t as int),
                );
            }
            self.put_layer(&mut b, il, t)?;
            il = il + 1;
        }
        let ghost last = self.errors_from(il as int, t as int);
        let off0: u32 = match self.param_off.at("output_norm.weight") {
            Ok(o) => o,
            Err(e) => {
                proof {
                    lemma_first_error(last, 0);
                }
                return Err(e);
            },
        };
        b.ops(
            norm_of(tt, d, off0, self.scalars.rms_eps),
            Kernel::RmsNorm,
            Buf::Zero,
            Buf::Zero,
            Buf::H,
            tt,
            1,
        );
        b.mark("result_norm".to_owned(), 0);
        assert(b.nodes@ =~= self.nodes(t as int));
        let name: &'static str = match self.weights.get("output.weight") {
            Ok(_) => "output.weight",
            Err(_) => "token_embd.weight",
        };
        assert(name@ == self.output_name());
        let out = match self.weights.projection(name, 1) {
            Ok(h) => h,
            Err(e) => {
                proof {
                    lemma_first_error(last, 1);
                }
                return Err(e);
            },
        };
        proof {
            lemma_no_error(last);
        }
        let mut tail_slots: Vec<Slot> = Vec::new();
        tail_slots.push(
            Slot::Matvec(
                MatvecParams { w_base: out.base_u32, in_dim: d, out_dim: vocab, n_tokens: 1 },
            ),
        );
        let mut tail: Vec<Dispatch> = Vec::new();
        match grid::pipeline_for(out.ty, 1) {
            Some(kernel) => {
                tail.push(
                    Dispatch {
                        kernel,
                        bind: Bind::Matvec { weights: out.buffer, x: Buf::X, y: Buf::Logits },
                        offset: 0,
                        groups: (grid::row_groups(vocab, self.grid.max_groups), 1, 1),
                    },
                );
            },
            None => {},
        }
        assert(tail@ =~= self.tail());
        assert(tail_slots@ =~= self.tail_slots());
        Ok(CachedPlan { plan: b.plan, slots: b.slots, tail, tail_slots, checkpoints: b.marks })
    }
}

/// The model on the device, as far as planning needs to know it.
pub struct Qwen35Gpu {
    pub res: Resident,
    pub n_ctx: usize,
    pub max_batch: usize,
    pub pos: usize,
    /// When set, a pass stops at the named checkpoint and gives that buffer
    /// instead of logits.
    pub debug_stop: Option<String>,
    /// Plan for single tokens, made once.
    pub decode: Option<CachedPlan>,
    /// The plan of the last batch that was not a cached decode step.
    pub prefill: Option<CachedPlan>,
}

/// Dispatches per submitted command buffer. One giant buffer can trip a GPU
/// watchdog; ordering between submits is guaranteed, so splitting is free.
pub const CHUNK: usize = 64;

/// The `i`-th stretch of a plan of `n` dispatches.
pub open spec fn stretch(n: int, i: int) -> (usize, usize) {
    (
        (i * CHUNK) as usize,
        (if i * CHUNK + CHUNK < n {
            i * CHUNK + CHUNK
        } else {
            n
        }) as usize,
    )
}

/// The stretches in which a plan of `n` dispatches is submitted.
pub fn submissions(n: usize) -> (v: Vec<(usize, usize)>)
    ensures
        v@ == Seq::new(grid::ceil_div(n as int, CHUNK as int) as nat, |i: int| stretch(n as int, i)),
{
    let mut v: Vec<(usize, usize)> = Vec::new();
    let mut at: usize = 0;
    while at < n
        invariant
            at == v@.len() * CHUNK || at == n,
            at < n ==> at == v@.len() * CHUNK,
            at >= n ==> v@.len() == grid::ceil_div(n as int, CHUNK as int),
            v@.len() * CHUNK < n + CHUNK,
            v@ == Seq::new(v@.len(), |i: int| stretch(n as int, i)),
        decreases n - at,
    {
        let end: usize = if n - at > CHUNK { at + CHUNK } else { n };
        let ghost before = v@;
        v.push((at, end));
        assert((at, end) == stretch(n as int, before.len() as int));
        assert(v@ =~= Seq::new(v@.len(), |i: int| stretch(n as int, i)));
        at = end;
    }
    v
}

/// The device buffer that a checkpoint's number stands for.
pub fn debug_buffer(i: usize) -> (b: Buf)
    ensures
        b == match i {
            1 => Buf::X,
            2 => Buf::Fused,
            3 => Buf::Conv,
            4 => Buf::Z,
            5 => Buf::Alpha,
            6 => Buf::Beta,
            7 => Buf::Q,
            8 => Buf::GateA,
            9 => Buf::K,
            10 => Buf::V,
            11 => Buf::Attn,
            12 => Buf::Proj,
            13 => Buf::Gate,
            14 => Buf::Up,
            _ => Buf::H,
        },
{
    match i {
        1 => Buf::X,
        2 => Buf::Fused,
        3 => Buf::Conv,
        4 => Buf::Z,
        5 => Buf::Alpha,
        6 => Buf::Beta,
        7 => Buf::Q,
        8 => Buf::GateA,
        9 => Buf::K,
        10 => Buf::V,
        11 => Buf::Attn,
        12 => Buf::Proj,
        13 => Buf::Gate,
        14 => Buf::Up,
        _ => Buf::H,
    }
}

/// The recurrent state that a rewind clears: unlike a KV cache it is cumulative.
pub open spec fn cleared_to(recurrent: Seq<bool>, n: int) -> Seq<Buf>
    decreases n,
{
    if n <= 0 {
        Seq::empty()
    } else if recurrent[n - 1] {
        cleared_to(recurrent, n - 1) + seq![
            Buf::ConvState((n - 1) as usize),
            Buf::Recurrent((n - 1) as usize),
        ]
    } else {
        cleared_to(recurrent, n - 1)
    }
}

impl Qwen35Gpu {
    /// Batches up to the largest fit, positions are 32-bit words, and a cached
    /// plan is the plan for one token.
    pub open spec fn wf(&self) -> bool {
        &&& self.res.runs(self.n_ctx as int, self.max_batch as int)
        &&& self.decode is Some ==> self.res.is_plan(self.decode->0, 1)
    }

    /// The plan that a pass runs.
    pub open spec fn plan_of(&self, cached: bool) -> Option<CachedPlan> {
        if cached {
            self.decode
        } else {
            self.prefill
        }
    }

    pub fn config(&self) -> (r: &Config)
        ensures
            r == self.res.cfg,
    {
        &self.res.cfg
    }

    pub fn context_len(&self) -> (r: usize)
        ensures
            r == self.n_ctx,
    {
        self.n_ctx
    }

    pub fn max_batch(&self) -> (r: usize)
        ensures
            r == self.max_batch,
    {
        self.max_batch
    }

    /// Rewind to an empty context, and say which buffers the device clears.
    pub fn reset(&mut self) -> (clear: Vec<Buf>)
        requires
            old(self).wf(),
        ensures
            final(self).wf(),
            final(self).pos == 0,
            final(self).res == old(self).res,
            final(self).max_batch == old(self).max_batch,
            final(self).n_ctx == old(self).n_ctx,
            final(self).debug_stop == old(self).debug_stop,
            final(self).decode == old(self).decode,
            clear@ == cleared_to(old(self).res.cfg.recurrent@, old(self).res.cfg.n_layers as int),
    {
        self.pos = 0;
        let mut clear: Vec<Buf> = Vec::new();
        let mut i: usize = 0;
        while i < self.res.cfg.n_layers
            invariant
                i <= self.res.cfg.n_layers,
                self.res.cfg.recurrent@.len() >= self.res.cfg.n_layers,
                clear@ == cleared_to(self.res.cfg.recurrent@, i as int),
            decreases self.res.cfg.n_layers - i,
        {
            let ghost before = clear@;
            if self.res.cfg.recurrent[i] {
                clear.push(Buf::ConvState(i));
                clear.push(Buf::Recurrent(i));
                assert(clear@ =~= before + seq![Buf::ConvState(i), Buf::Recurrent(i)]);
            }
            i = i + 1;
        }
        clear
    }

    /// Plan the pass over a batch of `t` tokens at the current position, and
    /// advance past it. The recurrent state has absorbed the batch even where the
    /// pass stops at a checkpoint, so the position advances there too.
    pub fn forward(&mut self, t: usize) -> (r: Result<Pass, PlanError>)
        requires
            old(self).wf(),
        ensures
            final(self).wf(),
            final(self).res == old(self).res,
            final(self).max_batch == old(self).max_batch,
            final(self).n_ctx == old(self).n_ctx,
            final(self).debug_stop == old(self).debug_stop,
            match r {
                Ok(pass) => {
                    &&& batch_error(t, old(self).max_batch, old(self).pos, old(self).n_ctx) is None
                    &&& pass.cached == (t == 1 && old(self).debug_stop is None)
                    &&& final(self).plan_of(pass.cached) matches Some(p) && old(self).res.is_plan(
                        p,
                        t as int,
                    ) && is_pass(
                        pass,
                        p,
                        opt_view(old(self).debug_stop),
                        t as int,
                        old(self).pos as int,
                        old(self).res.cfg.d_model as int,
                    )
                    &&& final(self).pos == old(self).pos + t
                },
                Err(e) => {
                    &&& final(self).pos == old(self).pos
                    &&& match batch_error(t, old(self).max_batch, old(self).pos, old(self).n_ctx) {
                        Some(f) => e@ == f,
                        None => match first_error(old(self).res.errors(t as int)) {
                            Some(f) => e@ == f,
                            None => old(self).debug_stop matches Some(name) && e@
                                == PlanErrorView::UnknownCheckpoint(name@) && find_mark(
                                lower(old(self).res.nodes(t as int)).marks,
                                name@,
                            ) is None,
                        },
                    }
                },
            },
    {
        check_batch(t, self.max_batch, self.pos, self.n_ctx)?;
        let d: usize = self.res.cfg.d_model;
        let base: usize = self.pos;
        assert(self.res.fits(t as int));
        assert((t * self.res.cfg.d_model) * 4 <= usize::MAX);
        let cached: bool = t == 1 && self.debug_stop.is_none();
        let p = if cached {
            match self.decode.take() {
                Some(p) => p,
                None => self.res.build_plan(1)?,
            }
        } else {
            self.res.build_plan(t)?
        };
        let pass = make_pass(&p, &self.debug_stop, cached, t, base, d);
        if cached {
            self.decode = Some(p);
        } else {
            self.prefill = Some(p);
        }
        let pass = pass?;
        self.pos = base + t;
        Ok(pass)
    }
}

// ---------------------------------------------------------------------------
// What is resident
// ---------------------------------------------------------------------------
/// The weights of one layer.
pub open spec fn layer_weights(recurrent: bool, il: int) -> Seq<Seq<char>> {
    (if recurrent {
        seq![
            blk(il, ".attn_qkv.weight"@),
            blk(il, ".attn_gate.weight"@),
            blk(il, ".ssm_alpha.weight"@),
            blk(il, ".ssm_beta.weight"@),
            blk(il, ".ssm_out.weight"@),
        ]
    } else {
        seq![
            blk(il, ".attn_q.weight"@),
            blk(il, ".attn_k.weight"@),
            blk(il, ".attn_v.weight"@),
            blk(il, ".attn_output.weight"@),
        ]
    }) + seq![
        blk(il, ".ffn_gate.weight"@),
        blk(il, ".ffn_up.weight"@),
        blk(il, ".ffn_down.weight"@),
    ]
}

/// The embedding table, the output matrix where there is one, and the weights of
/// the first `n` layers. Blocks past the main stack are not among them.
pub open spec fn weights_to(h: HeaderView, recurrent: Seq<bool>, n: int) -> Seq<Seq<char>>
    decreases n,
{
    if n <= 0 {
        if tensor_named(h, "output.weight"@) is Some {
            seq!["token_embd.weight"@, "output.weight"@]
        } else {
            seq!["token_embd.weight"@]
        }
    } else {
        weights_to(h, recurrent, n - 1) + layer_weights(recurrent[n - 1], n - 1)
    }
}

/// The tensors that go to the weight buffers.
pub fn arena_tensors(h: &Header, cfg: &Config) -> (names: Vec<String>)
    requires
        h.wf(),
        cfg.recurrent@.len() >= cfg.n_layers,
    ensures
        text::views(names@) == weights_to(h@, cfg.recurrent@, cfg.n_layers as int),
{
    let mut names: Vec<String> = Vec::new();
    names.push("token_embd.weight".to_owned());
    if h.has_tensor("output.weight") {
        names.push("output.weight".to_owned());
    }
    assert(text::views(names@) =~= weights_to(h@, cfg.recurrent@, 0));
    let mut il: usize = 0;
    while il < cfg.n_layers
        invariant
            il <= cfg.n_layers,
            cfg.recurrent@.len() >= cfg.n_layers,
            text::views(names@) == weights_to(h@, cfg.recurrent@, il as int),
        decreases cfg.n_layers - il,
    {
        let ghost before = text::views(names@);
        if cfg.recurrent[il] {
            names.push(blk_name(il, ".attn_qkv.weight"));
            names.push(blk_name(il, ".attn_gate.weight"));
            names.push(blk_name(il, ".ssm_alpha.weight"));
            names.push(blk_name(il, ".ssm_beta.weight"));
            names.push(blk_name(il, ".ssm_out.weight"));
        } else {
            names.push(blk_name(il, ".attn_q.weight"));
            names.push(blk_name(il, ".attn_k.weight"));
            names.push(blk_name(il, ".attn_v.weight"));
            names.push(blk_name(il, ".attn_output.weight"));
        }
        names.push(blk_name(il, ".ffn_gate.weight"));
        names.push(blk_name(il, ".ffn_up.weight"));
        names.push(blk_name(il, ".ffn_down.weight"));
        assert(text::views(names@) =~= before + layer_weights(
            cfg.recurrent@[il as int],
            il as int,
        ));
        il = il + 1;
    }
    names
}

/// The parameters of one layer, in the order in which they are laid out.
pub open spec fn layer_params(recurrent: bool, il: int) -> Seq<Seq<char>> {
    seq![blk(il, ".attn_norm.weight"@), blk(il, ".post_attention_norm.weight"@)] + (if recurrent {
        seq![
            blk(il, ".ssm_conv1d.weight"@),
            blk(il, ".ssm_dt.bias"@),
            blk(il, ".ssm_a"@),
            blk(il, ".ssm_norm.weight"@),
        ]
    } else {
        seq![blk(il, ".attn_q_norm.weight"@), blk(il, ".attn_k_norm.weight"@)]
    })
}

pub open spec fn params_to(recurrent: Seq<bool>, n: int) -> Seq<Seq<char>>
    decreases n,
{
    if n <= 0 {
        seq!["output_norm.weight"@]
    } else {
        params_to(recurrent, n - 1) + layer_params(recurrent[n - 1], n - 1)
    }
}

/// The parameter tensors, in the order in which they are laid out.
pub fn param_names(cfg: &Config) -> (names: Vec<String>)
    requires
        cfg.recurrent@.len() >= cfg.n_layers,
    ensures
        text::views(names@) == params_to(cfg.recurrent@, cfg.n_layers as int),
{
    let mut names: Vec<String> = Vec::new();
    names.push("output_norm.weight".to_owned());
    assert(text::views(names@) =~= params_to(cfg.recurrent@, 0));
    let mut il: usize = 0;
    while il < cfg.n_layers
        invariant
            il <= cfg.n_layers,
            cfg.recurrent@.len() >= cfg.n_layers,
            text::views(names@) == params_to(cfg.recurrent@, il as int),
        decreases cfg.n_layers - il,
    {
        let ghost before = text::views(names@);
        names.push(blk_name(il, ".attn_norm.weight"));
        names.push(blk_name(il, ".post_attention_norm.weight"));
        if cfg.recurrent[il] {
            names.push(blk_name(il, ".ssm_conv1d.weight"));
            names.push(blk_name(il, ".ssm_dt.bias"));
            names.push(blk_name(il, ".ssm_a"));
            names.push(blk_name(il, ".ssm_norm.weight"));
        } else {
            names.push(blk_name(il, ".attn_q_norm.weight"));
            names.push(blk_name(il, ".attn_k_norm.weight"));
        }
        assert(text::views(names@) =~= before + layer_params(
            cfg.recurrent@[il as int],
            il as int,
        ));
        il = il + 1;
    }
    names
}

/// The widths that the activations have per token, besides the scores.
pub open spec fn activation_widths(cfg: Config) -> Seq<(Buf, int)> {
    let q = cfg.n_heads * cfg.head_dim;
    let conv = cfg.conv_width();
    let kv = cfg.kv_width();
    seq![
        (Buf::H, cfg.d_model as int),
        (Buf::X, cfg.d_model as int),
        (
            Buf::Fused,
            if conv > 2 * q {
                conv
            } else {
                2 * q
            },
        ),
        (Buf::Conv, conv),
        (Buf::Z, cfg.d_inner as int),
        (Buf::Alpha, cfg.n_v_heads as int),
        (Buf::Beta, cfg.n_v_heads as int),
        (Buf::Q, q),
        (Buf::GateA, q),
        (Buf::K, kv),
        (Buf::V, kv),
        (
            Buf::Attn,
            if q > cfg.d_inner {
                q
            } else {
                cfg.d_inner as int
            },
        ),
        (Buf::Proj, cfg.d_model as int),
        (Buf::Gate, cfg.ffn_dim as int),
        (Buf::Up, cfg.ffn_dim as int),
        (Buf::Tokens, 1),
    ]
}

/// The conv window's rows before the current one; none without a conv.
pub open spec fn window_rows(cfg: Config) -> int {
    if cfg.conv_kernel == 0 {
        0
    } else {
        cfg.conv_kernel - 1
    }
}

/// The activations for batches up to `max_batch`, and what is allocated once.
pub open spec fn activation_sizes(cfg: Config, n_ctx: int, max_batch: int) -> Seq<(Buf, int)> {
    activation_widths(cfg).map_values(|e: (Buf, int)| (e.0, max_batch * e.1 * 4)) + seq![
        (Buf::ConvScratch, window_rows(cfg) * cfg.conv_width() * 4),
        (Buf::Scores, max_batch * cfg.n_heads * n_ctx * 4),
        (Buf::Logits, cfg.vocab * 4),
        (Buf::Sink, 4int),
    ]
}

/// The state of one layer.
pub open spec fn state_size(cfg: Config, n_ctx: int, il: int) -> Seq<(Buf, int)> {
    if cfg.recurrent@[il] {
        seq![
            (Buf::ConvState(il as usize), window_rows(cfg) * cfg.conv_width() * 4),
            (
                Buf::Recurrent(il as usize),
                cfg.n_v_heads * cfg.lin_head_dim * cfg.lin_head_dim * 4,
            ),
        ]
    } else {
        seq![
            (Buf::CacheK(il as usize), n_ctx * cfg.kv_width() * 4),
            (Buf::CacheV(il as usize), n_ctx * cfg.kv_width() * 4),
        ]
    }
}

pub open spec fn state_sizes(cfg: Config, n_ctx: int, n: int) -> Seq<(Buf, int)>
    decreases n,
{
    if n <= 0 {
        Seq::empty()
    } else {
        state_sizes(cfg, n_ctx, n - 1) + state_size(cfg, n_ctx, n - 1)
    }
}

/// The products that sizing multiplies out fit.
pub open spec fn sizable(cfg: Config, n_ctx: int, max_batch: int) -> bool {
    &&& 2 * cfg.n_k_heads <= usize::MAX
    &&& cfg.conv_width() <= usize::MAX
    &&& cfg.kv_width() <= usize::MAX
    &&& 2 * (cfg.n_heads * cfg.head_dim) <= usize::MAX
    &&& max_batch * cfg.n_heads <= usize::MAX
    &&& cfg.n_v_heads * cfg.lin_head_dim <= usize::MAX
    &&& cfg.n_v_heads * cfg.lin_head_dim * cfg.lin_head_dim * 4 <= usize::MAX
    &&& n_ctx * cfg.kv_width() * 4 <= usize::MAX
    &&& sizes_fit(activation_sizes(cfg, n_ctx, max_batch))
}

/// Whether the device buffers of a model can be sized.
pub fn can_size(cfg: &Config, n_ctx: usize, max_batch: usize) -> (r: bool)
    ensures
        r == (cfg.recurrent@.len() >= cfg.n_layers && sizable(
            *cfg,
            n_ctx as int,
            max_batch as int,
        )),
{
    if cfg.recurrent.len() < cfg.n_layers || !within(cfg.n_kv_heads, cfg.head_dim) || !within(
        cfg.n_heads,
        cfg.head_dim,
    ) || !within(2, cfg.n_heads * cfg.head_dim) || !within(max_batch, cfg.n_heads) || !within(
        cfg.n_v_heads,
        cfg.lin_head_dim,
    ) || !bytes_fit(cfg.n_v_heads * cfg.lin_head_dim, cfg.lin_head_dim) {
        return false;
    }
    let conv: usize = match cfg.counted_conv() {
        Some(w) => w,
        None => {
            return false;
        },
    };
    let q: usize = cfg.n_heads * cfg.head_dim;
    let kv: usize = cfg.kv_dim();
    let fused: usize = if conv > 2 * q {
        conv
    } else {
        2 * q
    };
    let attn: usize = if q > cfg.d_inner {
        q
    } else {
        cfg.d_inner
    };
    let rows: usize = if cfg.conv_kernel == 0 {
        0
    } else {
        cfg.conv_kernel - 1
    };
    let ghost w = activation_widths(*cfg);
    let ghost acts = activation_sizes(*cfg, n_ctx as int, max_batch as int);
    proof {
        assert(w.len() == 16 && acts.len() == 20);
        assert forall|i: int| 0 <= i < 16 implies #[trigger] acts[i] == (
            w[i].0,
            max_batch * w[i].1 * 4,
        ) by {}
        assert(w[0].1 == cfg.d_model && w[2].1 == fused && w[3].1 == conv && w[4].1 == cfg.d_inner);
        assert(w[5].1 == cfg.n_v_heads && w[7].1 == q && w[9].1 == kv && w[11].1 == attn);
        assert(w[13].1 == cfg.ffn_dim && w[15].1 == 1);
        assert(w[1] == (Buf::X, w[0].1) && w[6] == (Buf::Beta, w[5].1));
        assert(w[8] == (Buf::GateA, w[7].1) && w[10] == (Buf::V, w[9].1));
        assert(w[12] == (Buf::Proj, w[0].1) && w[14] == (Buf::Up, w[13].1));
        assert(acts[16].1 == rows * conv * 4 && acts[17].1 == max_batch * cfg.n_heads * n_ctx * 4);
        assert(acts[18].1 == cfg.vocab * 4 && acts[19].1 == 4);
    }
    let r: bool = bytes_fit(n_ctx, kv) && bytes_fit(max_batch, cfg.d_model) && bytes_fit(
        max_batch,
        fused,
    ) && bytes_fit(max_batch, conv) && bytes_fit(max_batch, cfg.d_inner) && bytes_fit(
        max_batch,
        cfg.n_v_heads,
    ) && bytes_fit(max_batch, q) && bytes_fit(max_batch, kv) && bytes_fit(max_batch, attn)
        && bytes_fit(max_batch, cfg.ffn_dim) && bytes_fit(max_batch, 1) && bytes_fit(rows, conv)
        && bytes_fit(max_batch * cfg.n_heads, n_ctx) && within(cfg.vocab, 4);
    proof {
        if r {
            assert forall|i: int| 0 <= i < acts.len() implies (#[trigger] acts[i]).1
                <= usize::MAX by {
                assert(i < 16 ==> max_batch * w[i].1 * 4 <= usize::MAX);
            }
        } else if sizable(*cfg, n_ctx as int, max_batch as int) {
            assert(acts[0].1 <= usize::MAX && acts[2].1 <= usize::MAX && acts[3].1 <= usize::MAX);
            assert(acts[4].1 <= usize::MAX && acts[5].1 <= usize::MAX && acts[7].1 <= usize::MAX);
            assert(acts[9].1 <= usize::MAX && acts[11].1 <= usize::MAX && acts[13].1 <= usize::MAX);
            assert(acts[15].1 <= usize::MAX && acts[16].1 <= usize::MAX);
            assert(acts[17].1 <= usize::MAX && acts[18].1 <= usize::MAX);
        }
    }
    r
}

/// The device buffers of a model besides its weights and parameters, with their
/// sizes in bytes: the activations, then the per-layer state.
pub fn buffer_sizes(cfg: &Config, n_ctx: usize, max_batch: usize) -> (v: Vec<(Buf, u64)>)
    requires
        cfg.recurrent@.len() >= cfg.n_layers,
        sizable(*cfg, n_ctx as int, max_batch as int),
    ensures
        size_views(v@) == activation_sizes(*cfg, n_ctx as int, max_batch as int) + state_sizes(
            *cfg,
            n_ctx as int,
            cfg.n_layers as int,
        ),
{
    let ghost acts = activation_sizes(*cfg, n_ctx as int, max_batch as int);
    let conv: usize = cfg.conv_dim();
    let q: usize = cfg.n_heads * cfg.head_dim;
    let kv: usize = cfg.kv_dim();
    let fused: usize = if conv > 2 * q { conv } else { 2 * q };
    let attn: usize = if q > cfg.d_inner { q } else { cfg.d_inner };
    let rows: usize = if cfg.conv_kernel == 0 { 0 } else { cfg.conv_kernel - 1 };
    let mut v: Vec<(Buf, u64)> = Vec::new();
    proof {
        let w = activation_widths(*cfg);
        assert(w.len() == 16);
        assert forall|i: int| 0 <= i < 16 implies max_batch * (#[trigger] w[i]).1 * 4
            <= usize::MAX by {
            assert(acts[i] == (w[i].0, max_batch * w[i].1 * 4));
        }
        assert(w[0].1 == cfg.d_model && w[2].1 == fused && w[3].1 == conv && w[4].1 == cfg.d_inner);
        assert(w[5].1 == cfg.n_v_heads && w[7].1 == q && w[9].1 == kv && w[11].1 == attn);
        assert(w[13].1 == cfg.ffn_dim && w[15].1 == 1);
        assert(acts[16].1 == rows * conv * 4 && acts[17].1 == max_batch * cfg.n_heads * n_ctx * 4);
        assert(acts[18].1 == cfg.vocab * 4);
        assert(0 <= max_batch * cfg.n_heads) by (nonlinear_arith);
        assert(max_batch * 1 == max_batch) by (nonlinear_arith);
    }
    v.push((Buf::H, float_rows(max_batch, cfg.d_model)));
    v.push((Buf::X, float_rows(max_batch, cfg.d_model)));
    v.push((Buf::Fused, float_rows(max_batch, fused)));
    v.push((Buf::Conv, float_rows(max_batch, conv)));
    v.push((Buf::Z, float_rows(max_batch, cfg.d_inner)));
    v.push((Buf::Alpha, float_rows(max_batch, cfg.n_v_heads)));
    v.push((Buf::Beta, float_rows(max_batch, cfg.n_v_heads)));
    v.push((Buf::Q, float_rows(max_batch, q)));
    v.push((Buf::GateA, float_rows(max_batch, q)));
    v.push((Buf::K, float_rows(max_batch, kv)));
    v.push((Buf::V, float_rows(max_batch, kv)));
    v.push((Buf::Attn, float_rows(max_batch, attn)));
    v.push((Buf::Proj, float_rows(max_batch, cfg.d_model)));
    v.push((Buf::Gate, float_rows(max_batch, cfg.ffn_dim)));
    v.push((Buf::Up, float_rows(max_batch, cfg.ffn_dim)));
    v.push((Buf::Tokens, float_rows(max_batch, 1)));
    v.push((Buf::ConvScratch, float_rows(rows, conv)));
    v.push((Buf::Scores, float_rows(max_batch * cfg.n_heads, n_ctx)));
    v.push((Buf::Logits, floats(cfg.vocab)));
    v.push((Buf::Sink, 4));
    assert(size_views(v@) =~= acts);
    let mut il: usize = 0;
    assert(size_views(v@) =~= acts + state_sizes(*cfg, n_ctx as int, 0));
    assert(0 <= cfg.n_v_heads * cfg.lin_head_dim) by (nonlinear_arith);
    while il < cfg.n_layers
        invariant
            il <= cfg.n_layers,
            cfg.recurrent@.len() >= cfg.n_layers,
            sizable(*cfg, n_ctx as int, max_batch as int),
            0 <= cfg.n_v_heads * cfg.lin_head_dim,
            conv == cfg.conv_width(),
            kv == cfg.kv_width(),
            rows == window_rows(*cfg),
            rows * conv * 4 <= usize::MAX,
            size_views(v@) == acts + state_sizes(*cfg, n_ctx as int, il as int),
        decreases cfg.n_layers - il,
    {
        let ghost before = size_views(v@);
        if cfg.recurrent[il] {
            v.push((Buf::ConvState(il), float_rows(rows, conv)));
            let s: u64 = float_rows(cfg.n_v_heads * cfg.lin_head_dim, cfg.lin_head_dim);
            v.push((Buf::Recurrent(il), s));
        } else {
            v.push((Buf::CacheK(il), float_rows(n_ctx, kv)));
            v.push((Buf::CacheV(il), float_rows(n_ctx, kv)));
        }
        assert(size_views(v@) =~= before + state_size(*cfg, n_ctx as int, il as int));
        assert(size_views(v@) =~= acts + state_sizes(*cfg, n_ctx as int, il + 1));
        il = il + 1;
    }
    v
}

} // verus!
