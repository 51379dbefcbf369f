//! Borrowed tensor handles for the qwen35 forward pass.
//!
//! Every name is resolved and shape-checked up front, so that a converter quirk
//! fails at load time, not 60 layers into a generation. The trailing block of
//! `blk.{n_layers}` is deliberately not loaded: the main pass never touches it.

use crate::cpu::within;
use crate::gpu::arena::tensor_named;
use crate::header::{Gguf, HeaderView, TensorView};
use crate::qwen35::config::Config;
use crate::text::numbered;
use crate::weights::{
    absent, blk, blk_dense, blk_tensor, check_length, dense, faults, holds, not_dense, or,
    output_name, output_or, tensor, there, there_dense, wrong_length, Fault, WeightsError,
};
use vstd::prelude::*;

verus! {

/// FFN weights are identical on both layer kinds.
pub struct FfnWeights<'a> {
    pub gate: TensorView<'a>,
    pub up: TensorView<'a>,
    pub down: TensorView<'a>,
}

/// The weights of a gated-delta-net layer.
pub struct LinearWeights<'a> {
    /// Fused Q|K|V projection.
    pub qkv: TensorView<'a>,
    /// The output gate, applied after the recurrence.
    pub gate: TensorView<'a>,
    /// Depthwise causal convolution, dense.
    pub conv: TensorView<'a>,
    /// Per-v-head decay projection and its bias.
    pub alpha: TensorView<'a>,
    pub dt_bias: TensorView<'a>,
    pub a: TensorView<'a>,
    /// Per-v-head mixing strength projection.
    pub beta: TensorView<'a>,
    /// Gated norm weight over one v-head, shared across heads.
    pub norm: TensorView<'a>,
    pub out: TensorView<'a>,
}

/// The weights of a full-attention layer.
pub struct FullWeights<'a> {
    /// Per-head query, fused with the output gate where the checkpoint has one.
    pub q: TensorView<'a>,
    pub k: TensorView<'a>,
    pub v: TensorView<'a>,
    /// Learned per-dim gains over one head.
    pub q_norm: TensorView<'a>,
    pub k_norm: TensorView<'a>,
    pub output: TensorView<'a>,
}

pub enum Attention<'a> {
    Linear(LinearWeights<'a>),
    Full(FullWeights<'a>),
}

pub struct LayerWeights<'a> {
    pub attn_norm: TensorView<'a>,
    /// The norm before the feed-forward part, whose residual branches *before*
    /// it. The name is the converter's.
    pub post_attention_norm: TensorView<'a>,
    pub attn: Attention<'a>,
    pub ffn: FfnWeights<'a>,
}

pub struct Weights<'a> {
    pub token_embd: TensorView<'a>,
    pub output_norm: TensorView<'a>,
    pub output: TensorView<'a>,
    pub layers: Vec<LayerWeights<'a>>,
}

// ---------------------------------------------------------------------------
// Lookups
// ---------------------------------------------------------------------------
/// What is missing of a gated-delta-net layer.
pub open spec fn linear_fault(h: HeaderView, i: int) -> Fault {
    or(
        absent(h, blk(i, ".attn_qkv.weight"@)),
        or(
            absent(h, blk(i, ".attn_gate.weight"@)),
            or(
                not_dense(h, blk(i, ".ssm_conv1d.weight"@)),
                or(
                    absent(h, blk(i, ".ssm_alpha.weight"@)),
                    or(
                        not_dense(h, blk(i, ".ssm_dt.bias"@)),
                        or(
                            not_dense(h, blk(i, ".ssm_a"@)),
                            or(
                                absent(h, blk(i, ".ssm_beta.weight"@)),
                                or(
                                    not_dense(h, blk(i, ".ssm_norm.weight"@)),
                                    absent(h, blk(i, ".ssm_out.weight"@)),
                                ),
                            ),
                        ),
                    ),
                ),
            ),
        ),
    )
}

/// What is missing of a full-attention layer.
pub open spec fn full_fault(h: HeaderView, i: int) -> Fault {
    or(
        absent(h, blk(i, ".attn_q.weight"@)),
        or(
            absent(h, blk(i, ".attn_k.weight"@)),
            or(
                absent(h, blk(i, ".attn_v.weight"@)),
                or(
                    not_dense(h, blk(i, ".attn_q_norm.weight"@)),
                    or(
                        not_dense(h, blk(i, ".attn_k_norm.weight"@)),
                        absent(h, blk(i, ".attn_output.weight"@)),
                    ),
                ),
            ),
        ),
    )
}

/// What is missing of block `i`, in the order in which it is looked up.
pub open spec fn layer_fault(h: HeaderView, cfg: Config, i: int) -> Fault {
    or(
        if cfg.recurrent@[i] {
            linear_fault(h, i)
        } else {
            full_fault(h, i)
        },
        or(
            not_dense(h, blk(i, ".attn_norm.weight"@)),
            or(
                not_dense(h, blk(i, ".post_attention_norm.weight"@)),
                or(
                    absent(h, blk(i, ".ffn_gate.weight"@)),
                    or(
                        absent(h, blk(i, ".ffn_up.weight"@)),
                        absent(h, blk(i, ".ffn_down.weight"@)),
                    ),
                ),
            ),
        ),
    )
}

/// What is missing of the first `n` blocks.
pub open spec fn layers_fault(h: HeaderView, cfg: Config, n: int) -> Fault
    decreases n,
{
    if n <= 0 {
        None
    } else {
        or(layers_fault(h, cfg, n - 1), layer_fault(h, cfg, n - 1))
    }
}

/// What is missing of the model.
pub open spec fn load_fault(h: HeaderView, cfg: Config) -> Fault {
    or(
        absent(h, "token_embd.weight"@),
        or(
            layers_fault(h, cfg, cfg.n_layers as int),
            not_dense(h, "output_norm.weight"@),
        ),
    )
}

impl<'a> LinearWeights<'a> {
    pub open spec fn of(self, g: Gguf<'_>, i: int) -> bool {
        &&& holds(g, self.qkv, blk(i, ".attn_qkv.weight"@))
        &&& holds(g, self.gate, blk(i, ".attn_gate.weight"@))
        &&& holds(g, self.conv, blk(i, ".ssm_conv1d.weight"@))
        &&& holds(g, self.alpha, blk(i, ".ssm_alpha.weight"@))
        &&& holds(g, self.dt_bias, blk(i, ".ssm_dt.bias"@))
        &&& holds(g, self.a, blk(i, ".ssm_a"@))
        &&& holds(g, self.beta, blk(i, ".ssm_beta.weight"@))
        &&& holds(g, self.norm, blk(i, ".ssm_norm.weight"@))
        &&& holds(g, self.out, blk(i, ".ssm_out.weight"@))
    }
}

impl<'a> FullWeights<'a> {
    pub open spec fn of(self, g: Gguf<'_>, i: int) -> bool {
        &&& holds(g, self.q, blk(i, ".attn_q.weight"@))
        &&& holds(g, self.k, blk(i, ".attn_k.weight"@))
        &&& holds(g, self.v, blk(i, ".attn_v.weight"@))
        &&& holds(g, self.q_norm, blk(i, ".attn_q_norm.weight"@))
        &&& holds(g, self.k_norm, blk(i, ".attn_k_norm.weight"@))
        &&& holds(g, self.output, blk(i, ".attn_output.weight"@))
    }
}

impl<'a> LayerWeights<'a> {
    /// These are the weights of block `i`.
    pub open spec fn of(self, g: Gguf<'_>, cfg: Config, i: int) -> bool {
        &&& match self.attn {
            Attention::Linear(l) => cfg.recurrent@[i] && l.of(g, i),
            Attention::Full(f) => !cfg.recurrent@[i] && f.of(g, i),
        }
        &&& holds(g, self.attn_norm, blk(i, ".attn_norm.weight"@))
        &&& holds(g, self.post_attention_norm, blk(i, ".post_attention_norm.weight"@))
        &&& holds(g, self.ffn.gate, blk(i, ".ffn_gate.weight"@))
        &&& holds(g, self.ffn.up, blk(i, ".ffn_up.weight"@))
        &&& holds(g, self.ffn.down, blk(i, ".ffn_down.weight"@))
    }
}

fn load_linear<'a>(g: &'a Gguf<'a>, i: usize) -> (r: Result<LinearWeights<'a>, WeightsError>)
    requires
        g.wf(),
    ensures
        faults(r, linear_fault(g.header@, i as int)),
        r is Ok ==> r->Ok_0.of(*g, i as int),
{
    let qkv = blk_tensor(g, i, ".attn_qkv.weight")?;
    let gate = blk_tensor(g, i, ".attn_gate.weight")?;
    let conv = blk_dense(g, i, ".ssm_conv1d.weight")?;
    let alpha = blk_tensor(g, i, ".ssm_alpha.weight")?;
    let dt_bias = blk_dense(g, i, ".ssm_dt.bias")?;
    let a = blk_dense(g, i, ".ssm_a")?;
    let beta = blk_tensor(g, i, ".ssm_beta.weight")?;
    let norm = blk_dense(g, i, ".ssm_norm.weight")?;
    let out = blk_tensor(g, i, ".ssm_out.weight")?;
    Ok(LinearWeights { qkv, gate, conv, alpha, dt_bias, a, beta, norm, out })
}

fn load_full<'a>(g: &'a Gguf<'a>, i: usize) -> (r: Result<FullWeights<'a>, WeightsError>)
    requires
        g.wf(),
    ensures
        faults(r, full_fault(g.header@, i as int)),
        r is Ok ==> r->Ok_0.of(*g, i as int),
{
    let q = blk_tensor(g, i, ".attn_q.weight")?;
    let k = blk_tensor(g, i, ".attn_k.weight")?;
    let v = blk_tensor(g, i, ".attn_v.weight")?;
    let q_norm = blk_dense(g, i, ".attn_q_norm.weight")?;
    let k_norm = blk_dense(g, i, ".attn_k_norm.weight")?;
    let output = blk_tensor(g, i, ".attn_output.weight")?;
    Ok(FullWeights { q, k, v, q_norm, k_norm, output })
}

fn load_layer<'a>(g: &'a Gguf<'a>, cfg: &Config, i: usize) -> (r: Result<
    LayerWeights<'a>,
    WeightsError,
>)
    requires
        g.wf(),
        i < cfg.recurrent@.len(),
    ensures
        faults(r, layer_fault(g.header@, *cfg, i as int)),
        r is Ok ==> r->Ok_0.of(*g, *cfg, i as int),
{
    let attn = if cfg.recurrent[i] {
        Attention::Linear(load_linear(g, i)?)
    } else {
        Attention::Full(load_full(g, i)?)
    };
    let attn_norm = blk_dense(g, i, ".attn_norm.weight")?;
    let post_attention_norm = blk_dense(g, i, ".post_attention_norm.weight")?;
    let gate = blk_tensor(g, i, ".ffn_gate.weight")?;
    let up = blk_tensor(g, i, ".ffn_up.weight")?;
    let down = blk_tensor(g, i, ".ffn_down.weight")?;
    Ok(LayerWeights { attn_norm, post_attention_norm, attn, ffn: FfnWeights { gate, up, down } })
}

// ---------------------------------------------------------------------------
// Shapes
// ---------------------------------------------------------------------------
/// Width of what the query projection puts out: per head the query, and its
/// output gating where it is fused in.
pub open spec fn q_width(cfg: Config) -> int {
    cfg.n_heads * cfg.head_dim * if cfg.query_gate {
        2int
    } else {
        1int
    }
}

/// The widths that the description implies can be computed.
pub open spec fn widths_fit(cfg: Config) -> bool {
    &&& cfg.recurrent@.len() == cfg.n_layers
    &&& 2 * cfg.n_k_heads <= usize::MAX
    &&& 0 <= cfg.conv_width() <= usize::MAX
    &&& cfg.conv_kernel * cfg.conv_width() <= usize::MAX
    &&& cfg.kv_width() <= usize::MAX
    &&& cfg.n_heads * cfg.head_dim <= usize::MAX
    &&& 2 * cfg.head_dim <= usize::MAX
    &&& q_width(cfg) <= usize::MAX
}

/// Whether the widths of a model's matrices can be counted.
pub fn can_load(cfg: &Config) -> (r: bool)
    ensures
        r == widths_fit(*cfg),
{
    let conv: usize = match cfg.counted_conv() {
        Some(w) => w,
        None => {
            return false;
        },
    };
    let times: usize = if cfg.query_gate {
        2
    } else {
        1
    };
    assert(0 <= cfg.conv_width());
    cfg.recurrent.len() == cfg.n_layers && within(cfg.conv_kernel, conv) && within(
        cfg.n_kv_heads,
        cfg.head_dim,
    ) && within(cfg.n_heads, cfg.head_dim) && within(2, cfg.head_dim) && within(
        cfg.n_heads * cfg.head_dim,
        times,
    )
}

/// What is wrong with the shapes of a gated-delta-net layer.
pub open spec fn linear_shape_fault(w: LinearWeights<'_>, cfg: Config, i: int) -> Fault {
    let heads = cfg.n_v_heads as int;
    or(
        wrong_length(Some(i), "attn_qkv.out"@, w.qkv.info@.outer() as int, cfg.conv_width()),
        or(
            wrong_length(
                Some(i),
                "attn_gate.out"@,
                w.gate.info@.outer() as int,
                cfg.d_inner as int,
            ),
            or(
                wrong_length(
                    Some(i),
                    "ssm_conv1d.len"@,
                    w.conv.info@.elems() as int,
                    cfg.conv_kernel * cfg.conv_width(),
                ),
                or(
                    wrong_length(Some(i), "ssm_alpha.out"@, w.alpha.info@.outer() as int, heads),
                    or(
                        wrong_length(
                            Some(i),
                            "ssm_dt.bias.len"@,
                            w.dt_bias.info@.elems() as int,
                            heads,
                        ),
                        or(
                            wrong_length(Some(i), "ssm_a.len"@, w.a.info@.elems() as int, heads),
                            or(
                                wrong_length(
                                    Some(i),
                                    "ssm_beta.out"@,
                                    w.beta.info@.outer() as int,
                                    heads,
                                ),
                                or(
                                    wrong_length(
                                        Some(i),
                                        "ssm_norm.len"@,
                                        w.norm.info@.elems() as int,
                                        cfg.lin_head_dim as int,
                                    ),
                                    or(
                                        wrong_length(
                                            Some(i),
                                            "ssm_out.in"@,
                                            w.out.info@.inner() as int,
                                            cfg.d_inner as int,
                                        ),
                                        wrong_length(
                                            Some(i),
                                            "ssm_out.out"@,
                                            w.out.info@.outer() as int,
                                            cfg.d_model as int,
                                        ),
                                    ),
                                ),
                            ),
                        ),
                    ),
                ),
            ),
        ),
    )
}

/// What is wrong with the shapes of a full-attention layer.
pub open spec fn full_shape_fault(w: FullWeights<'_>, cfg: Config, i: int) -> Fault {
    or(
        wrong_length(Some(i), "attn_q.out"@, w.q.info@.outer() as int, q_width(cfg)),
        or(
            wrong_length(Some(i), "attn_k.out"@, w.k.info@.outer() as int, cfg.kv_width()),
            or(
                wrong_length(Some(i), "attn_v.out"@, w.v.info@.outer() as int, cfg.kv_width()),
                or(
                    wrong_length(
                        Some(i),
                        "attn_q_norm.len"@,
                        w.q_norm.info@.elems() as int,
                        cfg.head_dim as int,
                    ),
                    or(
                        wrong_length(
                            Some(i),
                            "attn_k_norm.len"@,
                            w.k_norm.info@.elems() as int,
                            cfg.head_dim as int,
                        ),
                        or(
                            wrong_length(
                                Some(i),
                                "attn_output.in"@,
                                w.output.info@.inner() as int,
                                cfg.n_heads * cfg.head_dim,
                            ),
                            wrong_length(
                                Some(i),
                                "attn_output.out"@,
                                w.output.info@.outer() as int,
                                cfg.d_model as int,
                            ),
                        ),
                    ),
                ),
            ),
        ),
    )
}

/// What is wrong with the shapes of block `i`.
pub open spec fn layer_shape_fault(w: LayerWeights<'_>, cfg: Config, i: int) -> Fault {
    let d = cfg.d_model as int;
    let f = cfg.ffn_dim as int;
    or(
        wrong_length(Some(i), "attn_norm.len"@, w.attn_norm.info@.elems() as int, d),
        or(
            wrong_length(
                Some(i),
                "post_attention_norm.len"@,
                w.post_attention_norm.info@.elems() as int,
                d,
            ),
            or(
                wrong_length(Some(i), "ffn_gate.out"@, w.ffn.gate.info@.outer() as int, f),
                or(
                    wrong_length(Some(i), "ffn_up.out"@, w.ffn.up.info@.outer() as int, f),
                    or(
                        wrong_length(Some(i), "ffn_down.in"@, w.ffn.down.info@.inner() as int, f),
                        or(
                            wrong_length(
                                Some(i),
                                "ffn_down.out"@,
                                w.ffn.down.info@.outer() as int,
                                d,
                            ),
                            match w.attn {
                                Attention::Linear(l) => linear_shape_fault(l, cfg, i),
                                Attention::Full(a) => full_shape_fault(a, cfg, i),
                            },
                        ),
                    ),
                ),
            ),
        ),
    )
}

/// What is wrong with the shapes of the first `n` blocks.
pub open spec fn layers_shape_fault(w: Seq<LayerWeights<'_>>, cfg: Config, n: int) -> Fault
    decreases n,
{
    if n <= 0 {
        None
    } else {
        or(layers_shape_fault(w, cfg, n - 1), layer_shape_fault(w[n - 1], cfg, n - 1))
    }
}

/// What is wrong with the shapes.
pub open spec fn shape_fault(w: Weights<'_>, cfg: Config) -> Fault {
    or(
        wrong_length(
            None,
            "token_embd.in"@,
            w.token_embd.info@.inner() as int,
            cfg.d_model as int,
        ),
        layers_shape_fault(w.layers@, cfg, w.layers@.len() as int),
    )
}

impl<'a> LinearWeights<'a> {
    fn check_shapes(&self, cfg: &Config, i: usize) -> (r: Result<(), WeightsError>)
        requires
            widths_fit(*cfg),
            self.conv.info@.countable(),
            self.dt_bias.info@.countable(),
            self.a.info@.countable(),
            self.norm.info@.countable(),
        ensures
            faults(r, linear_shape_fault(*self, *cfg, i as int)),
    {
        let d: usize = cfg.d_model;
        let heads: usize = cfg.n_v_heads;
        let width: usize = cfg.conv_dim();
        check_length(Some(i), "attn_qkv.out", self.qkv.out_dim(), width)?;
        check_length(Some(i), "attn_gate.out", self.gate.out_dim(), cfg.d_inner)?;
        let taps: usize = cfg.conv_kernel * width;
        check_length(Some(i), "ssm_conv1d.len", self.conv.elem_count(), taps)?;
        check_length(Some(i), "ssm_alpha.out", self.alpha.out_dim(), heads)?;
        check_length(Some(i), "ssm_dt.bias.len", self.dt_bias.elem_count(), heads)?;
        check_length(Some(i), "ssm_a.len", self.a.elem_count(), heads)?;
        check_length(Some(i), "ssm_beta.out", self.beta.out_dim(), heads)?;
        check_length(Some(i), "ssm_norm.len", self.norm.elem_count(), cfg.lin_head_dim)?;
        check_length(Some(i), "ssm_out.in", self.out.in_dim(), cfg.d_inner)?;
        check_length(Some(i), "ssm_out.out", self.out.out_dim(), d)
    }
}

impl<'a> FullWeights<'a> {
    fn check_shapes(&self, cfg: &Config, i: usize) -> (r: Result<(), WeightsError>)
        requires
            widths_fit(*cfg),
            self.q_norm.info@.countable(),
            self.k_norm.info@.countable(),
        ensures
            faults(r, full_shape_fault(*self, *cfg, i as int)),
    {
        let hd: usize = cfg.head_dim;
        let plain: usize = cfg.n_heads * hd;
        let stride: usize = cfg.q_stride();
        proof {
            let n = cfg.n_heads as int;
            let s = stride as int;
            let h = hd as int;
            assert(n * s == n * h * if cfg.query_gate {
                2int
            } else {
                1int
            }) by (nonlinear_arith)
                requires
                    s == if cfg.query_gate {
                        2 * h
                    } else {
                        h
                    },
            ;
        }
        let q: usize = cfg.n_heads * stride;
        check_length(Some(i), "attn_q.out", self.q.out_dim(), q)?;
        check_length(Some(i), "attn_k.out", self.k.out_dim(), cfg.kv_dim())?;
        check_length(Some(i), "attn_v.out", self.v.out_dim(), cfg.kv_dim())?;
        check_length(Some(i), "attn_q_norm.len", self.q_norm.elem_count(), hd)?;
        check_length(Some(i), "attn_k_norm.len", self.k_norm.elem_count(), hd)?;
        check_length(Some(i), "attn_output.in", self.output.in_dim(), plain)?;
        check_length(Some(i), "attn_output.out", self.output.out_dim(), cfg.d_model)
    }
}

impl<'a> LayerWeights<'a> {
    /// The lengths that are checked can be computed.
    pub open spec fn countable(self) -> bool {
        &&& self.attn_norm.info@.countable()
        &&& self.post_attention_norm.info@.countable()
        &&& match self.attn {
            Attention::Linear(l) => l.conv.info@.countable() && l.dt_bias.info@.countable()
                && l.a.info@.countable() && l.norm.info@.countable(),
            Attention::Full(f) => f.q_norm.info@.countable() && f.k_norm.info@.countable(),
        }
    }

    fn check_shapes(&self, cfg: &Config, i: usize) -> (r: Result<(), WeightsError>)
        requires
            widths_fit(*cfg),
            self.countable(),
        ensures
            faults(r, layer_shape_fault(*self, *cfg, i as int)),
    {
        let d: usize = cfg.d_model;
        let f: usize = cfg.ffn_dim;
        check_length(Some(i), "attn_norm.len", self.attn_norm.elem_count(), d)?;
        check_length(
            Some(i),
            "post_attention_norm.len",
            self.post_attention_norm.elem_count(),
            d,
        )?;
        check_length(Some(i), "ffn_gate.out", self.ffn.gate.out_dim(), f)?;
        check_length(Some(i), "ffn_up.out", self.ffn.up.out_dim(), f)?;
        check_length(Some(i), "ffn_down.in", self.ffn.down.in_dim(), f)?;
        check_length(Some(i), "ffn_down.out", self.ffn.down.out_dim(), d)?;
        match &self.attn {
            Attention::Linear(l) => l.check_shapes(cfg, i),
            Attention::Full(a) => a.check_shapes(cfg, i),
        }
    }
}

impl<'a> Weights<'a> {
    /// These are the weights of the file.
    pub open spec fn of(self, g: Gguf<'_>, cfg: Config) -> bool {
        &&& holds(g, self.token_embd, "token_embd.weight"@)
        &&& holds(g, self.output_norm, "output_norm.weight"@)
        &&& holds(g, self.output, output_name(g.header@))
        &&& self.layers@.len() == cfg.n_layers
        &&& forall|i: int| 0 <= i < cfg.n_layers ==> (#[trigger] self.layers@[i]).of(g, cfg, i)
    }

    /// Resolve every tensor, and cross-check its shape.
    pub fn load(g: &'a Gguf<'a>, cfg: &Config) -> (r: Result<Self, WeightsError>)
        requires
            g.wf(),
            widths_fit(*cfg),
        ensures
            match r {
                Ok(w) => load_fault(g.header@, *cfg) is None && w.of(*g, *cfg) && shape_fault(
                    w,
                    *cfg,
                ) is None,
                Err(e) => load_fault(g.header@, *cfg) == Some(e@) || (load_fault(
                    g.header@,
                    *cfg,
                ) is None && exists|w: Weights<'a>| #[trigger]
                    w.of(*g, *cfg) && shape_fault(w, *cfg) == Some(e@)),
            },
    {
        let token_embd = tensor(g, "token_embd.weight")?;
        let output = output_or(g, token_embd);
        let mut layers: Vec<LayerWeights<'a>> = Vec::new();
        let mut i: usize = 0;
        while i < cfg.n_layers
            invariant
                i <= cfg.n_layers,
                g.wf(),
                widths_fit(*cfg),
                absent(g.header@, "token_embd.weight"@) is None,
                layers@.len() == i,
                forall|k: int| 0 <= k < i ==> (#[trigger] layers@[k]).of(*g, *cfg, k),
                layers_fault(g.header@, *cfg, i as int) is None,
            decreases cfg.n_layers - i,
        {
            match load_layer(g, cfg, i) {
                Ok(l) => {
                    layers.push(l);
                },
                Err(e) => {
                    proof {
                        lemma_layers_fault(g.header@, *cfg, i + 1, cfg.n_layers as int);
                    }
                    return Err(e);
                },
            }
            i = i + 1;
        }
        let output_norm = dense(g, "output_norm.weight")?;
        let w = Weights { token_embd, output_norm, output, layers };
        match w.check_shapes(cfg) {
            Ok(()) => Ok(w),
            Err(e) => {
                assert(w.of(*g, *cfg));
                Err(e)
            },
        }
    }

    /// Cross-check every weight against the description, so that a mismatch
    /// surfaces here rather than as silent numerical garbage.
    fn check_shapes(&self, cfg: &Config) -> (r: Result<(), WeightsError>)
        requires
            widths_fit(*cfg),
            self.layers@.len() == cfg.n_layers,
            forall|i: int| 0 <= i < cfg.n_layers ==> (#[trigger] self.layers@[i]).countable(),
        ensures
            faults(r, shape_fault(*self, *cfg)),
    {
        check_length(None, "token_embd.in", self.token_embd.in_dim(), cfg.d_model)?;
        let n: usize = self.layers.len();
        let mut i: usize = 0;
        while i < n
            invariant
                i <= n,
                n == self.layers@.len(),
                n == cfg.n_layers,
                widths_fit(*cfg),
                forall|k: int| 0 <= k < n ==> (#[trigger] self.layers@[k]).countable(),
                wrong_length(
                    None,
                    "token_embd.in"@,
                    self.token_embd.info@.inner() as int,
                    cfg.d_model as int,
                ) is None,
                layers_shape_fault(self.layers@, *cfg, i as int) is None,
            decreases n - i,
        {
            match self.layers[i].check_shapes(cfg, i) {
                Ok(()) => {},
                Err(e) => {
                    proof {
                        lemma_layers_shape_fault(self.layers@, *cfg, i + 1, n as int);
                    }
                    return Err(e);
                },
            }
            i = i + 1;
        }
        Ok(())
    }
}

/// What is missing of the first blocks is what is missing first of all.
proof fn lemma_layers_fault(h: HeaderView, cfg: Config, k: int, n: int)
    requires
        0 <= k <= n,
        layers_fault(h, cfg, k) is Some,
    ensures
        layers_fault(h, cfg, n) == layers_fault(h, cfg, k),
    decreases n - k,
{
    if k < n {
        lemma_layers_fault(h, cfg, k, n - 1);
    }
}

/// What is wrong with the first blocks is what is wrong first of all.
proof fn lemma_layers_shape_fault(w: Seq<LayerWeights<'_>>, cfg: Config, k: int, n: int)
    requires
        0 <= k <= n,
        layers_shape_fault(w, cfg, k) is Some,
    ensures
        layers_shape_fault(w, cfg, n) == layers_shape_fault(w, cfg, k),
    decreases n - k,
{
    if k < n {
        lemma_layers_shape_fault(w, cfg, k, n - 1);
    }
}

// ---------------------------------------------------------------------------
// Laws
// ---------------------------------------------------------------------------
/// Every field of a loaded block is the tensor of the block's own name for it, and the
/// block is of the kind that the description gives it.
pub proof fn a_block_holds_the_tensors_of_its_names(
    g: Gguf<'_>,
    cfg: Config,
    w: Weights<'_>,
    i: int,
)
    requires
        w.of(g, cfg),
        0 <= i < cfg.n_layers,
    ensures
        ({
            let h = g.header@;
            let l = w.layers@[i];
            &&& tensor_named(h, numbered("blk."@, i as nat, ".attn_norm.weight"@)) == Some(
                l.attn_norm.info@,
            )
            &&& l.attn_norm.data@ == g.data_of(l.attn_norm.info@)
            &&& tensor_named(h, numbered("blk."@, i as nat, ".post_attention_norm.weight"@)) == Some(
                l.post_attention_norm.info@,
            )
            &&& l.post_attention_norm.data@ == g.data_of(l.post_attention_norm.info@)
            &&& tensor_named(h, numbered("blk."@, i as nat, ".ffn_gate.weight"@)) == Some(
                l.ffn.gate.info@,
            )
            &&& l.ffn.gate.data@ == g.data_of(l.ffn.gate.info@)
            &&& tensor_named(h, numbered("blk."@, i as nat, ".ffn_up.weight"@)) == Some(
                l.ffn.up.info@,
            )
            &&& l.ffn.up.data@ == g.data_of(l.ffn.up.info@)
            &&& tensor_named(h, numbered("blk."@, i as nat, ".ffn_down.weight"@)) == Some(
                l.ffn.down.info@,
            )
            &&& l.ffn.down.data@ == g.data_of(l.ffn.down.info@)
            &&& l.attn is Linear <==> cfg.recurrent@[i]
        }),
        w.layers@[i].attn matches Attention::Linear(a) ==> {
            let h = g.header@;
            &&& tensor_named(h, numbered("blk."@, i as nat, ".attn_qkv.weight"@)) == Some(
                a.qkv.info@,
            )
            &&& a.qkv.data@ == g.data_of(a.qkv.info@)
            &&& tensor_named(h, numbered("blk."@, i as nat, ".attn_gate.weight"@)) == Some(
                a.gate.info@,
            )
            &&& a.gate.data@ == g.data_of(a.gate.info@)
            &&& tensor_named(h, numbered("blk."@, i as nat, ".ssm_conv1d.weight"@)) == Some(
                a.conv.info@,
            )
            &&& a.conv.data@ == g.data_of(a.conv.info@)
            &&& tensor_named(h, numbered("blk."@, i as nat, ".ssm_alpha.weight"@)) == Some(
                a.alpha.info@,
            )
            &&& a.alpha.data@ == g.data_of(a.alpha.info@)
            &&& tensor_named(h, numbered("blk."@, i as nat, ".ssm_dt.bias"@)) == Some(
                a.dt_bias.info@,
            )
            &&& a.dt_bias.data@ == g.data_of(a.dt_bias.info@)
            &&& tensor_named(h, numbered("blk."@, i as nat, ".ssm_a"@)) == Some(
                a.a.info@,
            )
            &&& a.a.data@ == g.data_of(a.a.info@)
            &&& tensor_named(h, numbered("blk."@, i as nat, ".ssm_beta.weight"@)) == Some(
                a.beta.info@,
            )
            &&& a.beta.data@ == g.data_of(a.beta.info@)
            &&& tensor_named(h, numbered("blk."@, i as nat, ".ssm_norm.weight"@)) == Some(
                a.norm.info@,
            )
            &&& a.norm.data@ == g.data_of(a.norm.info@)
            &&& tensor_named(h, numbered("blk."@, i as nat, ".ssm_out.weight"@)) == Some(
                a.out.info@,
            )
            &&& a.out.data@ == g.data_of(a.out.info@)
        },
        w.layers@[i].attn matches Attention::Full(a) ==> {
            let h = g.header@;
            &&& tensor_named(h, numbered("blk."@, i as nat, ".attn_q.weight"@)) == Some(
                a.q.info@,
            )
            &&& a.q.data@ == g.data_of(a.q.info@)
            &&& tensor_named(h, numbered("blk."@, i as nat, ".attn_k.weight"@)) == Some(
                a.k.info@,
            )
            &&& a.k.data@ == g.data_of(a.k.info@)
            &&& tensor_named(h, numbered("blk."@, i as nat, ".attn_v.weight"@)) == Some(
                a.v.info@,
            )
            &&& a.v.data@ == g.data_of(a.v.info@)
            &&& tensor_named(h, numbered("blk."@, i as nat, ".attn_q_norm.weight"@)) == Some(
                a.q_norm.info@,
            )
            &&& a.q_norm.data@ == g.data_of(a.q_norm.info@)
            &&& tensor_named(h, numbered("blk."@, i as nat, ".attn_k_norm.weight"@)) == Some(
                a.k_norm.info@,
            )
            &&& a.k_norm.data@ == g.data_of(a.k_norm.info@)
            &&& tensor_named(h, numbered("blk."@, i as nat, ".attn_output.weight"@)) == Some(
                a.output.info@,
            )
            &&& a.output.data@ == g.data_of(a.output.info@)
        },
{
    assert(w.layers@[i].of(g, cfg, i));
}

/// Nothing is missing of a block exactly when every tensor that its kind applies is
/// there, the small ones in single precision.
pub proof fn a_block_is_complete_exactly_when(h: HeaderView, cfg: Config, i: int)
    ensures
        layer_fault(h, cfg, i) is None <==> {
            let n = i as nat;
            &&& there_dense(h, numbered("blk."@, n, ".attn_norm.weight"@))
            &&& there_dense(h, numbered("blk."@, n, ".post_attention_norm.weight"@))
            &&& there(h, numbered("blk."@, n, ".ffn_gate.weight"@))
            &&& there(h, numbered("blk."@, n, ".ffn_up.weight"@))
            &&& there(h, numbered("blk."@, n, ".ffn_down.weight"@))
            &&& cfg.recurrent@[i] ==> {
                &&& there(h, numbered("blk."@, n, ".attn_qkv.weight"@))
                &&& there(h, numbered("blk."@, n, ".attn_gate.weight"@))
                &&& there_dense(h, numbered("blk."@, n, ".ssm_conv1d.weight"@))
                &&& there(h, numbered("blk."@, n, ".ssm_alpha.weight"@))
                &&& there_dense(h, numbered("blk."@, n, ".ssm_dt.bias"@))
                &&& there_dense(h, numbered("blk."@, n, ".ssm_a"@))
                &&& there(h, numbered("blk."@, n, ".ssm_beta.weight"@))
                &&& there_dense(h, numbered("blk."@, n, ".ssm_norm.weight"@))
                &&& there(h, numbered("blk."@, n, ".ssm_out.weight"@))
            }
            &&& !cfg.recurrent@[i] ==> {
                &&& there(h, numbered("blk."@, n, ".attn_q.weight"@))
                &&& there(h, numbered("blk."@, n, ".attn_k.weight"@))
                &&& there(h, numbered("blk."@, n, ".attn_v.weight"@))
                &&& there_dense(h, numbered("blk."@, n, ".attn_q_norm.weight"@))
                &&& there_dense(h, numbered("blk."@, n, ".attn_k_norm.weight"@))
                &&& there(h, numbered("blk."@, n, ".attn_output.weight"@))
            }
        },
{
}

/// A block's shapes are accepted exactly when its matrices take and give rows of the
/// widths that the pass has for them, and its gains are as long as what they scale.
pub proof fn a_block_fits_exactly_when(w: LayerWeights<'_>, cfg: Config, i: int)
    ensures
        layer_shape_fault(w, cfg, i) is None <==> {
            let conv = 2 * cfg.n_k_heads * cfg.lin_head_dim + cfg.d_inner;
            let (q, kv) = (cfg.n_heads * cfg.head_dim, cfg.n_kv_heads * cfg.head_dim);
            &&& w.attn_norm.info@.elems() == cfg.d_model
            &&& w.post_attention_norm.info@.elems() == cfg.d_model
            &&& w.ffn.gate.info@.outer() == cfg.ffn_dim
            &&& w.ffn.up.info@.outer() == cfg.ffn_dim
            &&& w.ffn.down.info@.inner() == cfg.ffn_dim
            &&& w.ffn.down.info@.outer() == cfg.d_model
            &&& w.attn matches Attention::Linear(a) ==> {
                &&& a.qkv.info@.outer() == conv
                &&& a.gate.info@.outer() == cfg.d_inner
                &&& a.conv.info@.elems() == cfg.conv_kernel * conv
                &&& a.alpha.info@.outer() == cfg.n_v_heads
                &&& a.dt_bias.info@.elems() == cfg.n_v_heads
                &&& a.a.info@.elems() == cfg.n_v_heads
                &&& a.beta.info@.outer() == cfg.n_v_heads
                &&& a.norm.info@.elems() == cfg.lin_head_dim
                &&& a.out.info@.inner() == cfg.d_inner
                &&& a.out.info@.outer() == cfg.d_model
            }
            &&& w.attn matches Attention::Full(a) ==> {
                &&& a.q.info@.outer() == if cfg.query_gate {
                    2 * q
                } else {
                    q
                }
                &&& a.k.info@.outer() == kv
                &&& a.v.info@.outer() == kv
                &&& a.q_norm.info@.elems() == cfg.head_dim
                &&& a.k_norm.info@.elems() == cfg.head_dim
                &&& a.output.info@.inner() == q
                &&& a.output.info@.outer() == cfg.d_model
            }
        },
{
    let q = cfg.n_heads * cfg.head_dim;
    assert(q * 2 == 2 * q && q * 1 == q) by (nonlinear_arith);
}

} // verus!
