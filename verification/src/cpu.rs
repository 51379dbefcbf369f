//! The reference forward pass as a program.
//!
//! The pass is written down step by step before anything is computed: which rows of
//! which scratch buffer a step reads and writes, which weight it applies and which
//! positions it sees. The arithmetic of each step is the caller's. The block, in the
//! order in which it runs:
//!
//! ```text
//! h  = embed(tok) * sqrt(d_model)
//! x  = rms(h) * attn_norm
//! q  = rope(rms_head(Wq x) * q_norm)
//! k  = rope(rms_head(Wk x) * k_norm)
//! v  =      rms_head(Wv x)              // no weight, no rope; Wv := Wk on global layers
//! h  = h + rms(Wo attn(q,k,v)) * post_attention_norm
//! y  = rms(h) * ffn_norm
//! h  = h + rms(Wd (gelu(Wg y) * Wu y)) * post_ffw_norm
//! h  = h * layer_output_scale
//! ```

pub mod batch;
pub mod formula;
pub mod meaning;

use crate::cache::{ring, LayerCache};
use crate::config::{Config, LayerConfig};
use crate::text::{decimal, decimal_string};
use vstd::prelude::*;

verus! {

// ---------------------------------------------------------------------------
// Steps
// ---------------------------------------------------------------------------
/// A scratch buffer, reused across tokens and layers.
#[derive(Debug, Clone, Copy, PartialEq, Eq, Structural)]
pub enum Scratch {
    H,
    X,
    Q,
    K,
    V,
    Attn,
    Proj,
    Gate,
    Up,
    Z,
    Alpha,
    Beta,
    Logits,
}

/// `n` rows of a buffer, the first at `first` and each `stride` behind the one before;
/// of each the first `width` numbers.
#[derive(Debug, Clone, Copy, PartialEq, Eq, Structural)]
pub struct Rows {
    pub buf: Scratch,
    pub first: usize,
    pub n: usize,
    pub width: usize,
    pub stride: usize,
}

impl Rows {
    /// The end of the last row.
    pub open spec fn end(self) -> int {
        if self.n == 0 {
            0
        } else {
            self.first + (self.n - 1) * self.stride + self.width
        }
    }
}

/// A gain that a norm is followed by.
#[derive(Debug, Clone, Copy, PartialEq, Eq, Structural)]
pub enum Gain {
    AttnNorm(usize),
    QueryNorm(usize),
    KeyNorm(usize),
    PostAttentionNorm(usize),
    FfnNorm(usize),
    PostFfwNorm(usize),
    OutputNorm,
}

/// A weight matrix.
#[derive(Debug, Clone, Copy, PartialEq, Eq, Structural)]
pub enum Matrix {
    Query(usize),
    Key(usize),
    Value(usize),
    AttnOutput(usize),
    FfnGate(usize),
    FfnUp(usize),
    FfnDown(usize),
    Qkv(usize),
    LinearGate(usize),
    Alpha(usize),
    Beta(usize),
    LinearOut(usize),
    Output,
}

/// What an intermediate is called.
#[derive(Debug, Clone, Copy, PartialEq, Eq, Structural)]
pub enum Label {
    Embd,
    InputEmbed,
    InpScaled,
    AttnNorm(usize),
    QueryFull(usize),
    Query(usize),
    Key(usize),
    Value(usize),
    QueryNormed(usize),
    QueryPos(usize),
    KeyNormed(usize),
    KeyPos(usize),
    ValueNormed(usize),
    KqvOut(usize),
    AttnPostNorm(usize),
    AttnOut(usize),
    FfnNorm(usize),
    FfnGeglu(usize),
    FfnPostNorm(usize),
    LayerOut(usize),
    QkvMixed(usize),
    Z(usize),
    Alpha(usize),
    Beta(usize),
    AttnOutput(usize),
    FinalOutput(usize),
    LinearOut(usize),
    AttnGated(usize),
    AttnResidual(usize),
    FfnOut(usize),
    HNextn,
    ResultNorm,
    ResultOutput,
}

/// One step of a pass.
#[derive(Debug, Clone, Copy, PartialEq, Eq, Structural)]
pub enum Step {
    /// Each token's embedding becomes a row.
    Embed(Rows),
    /// Multiply by the square root of the model's width.
    ScaleEmbedding(Rows),
    Copy { from: Rows, to: Rows },
    /// Root-mean-square norm of each row, then the gain where there is one.
    Norm { rows: Rows, gain: Option<Gain> },
    /// Each row of `y` is the matrix applied to the same row of `x`.
    Project { matrix: Matrix, x: Rows, y: Rows },
    /// Rotate the first `turning` numbers of each row: row `i` by the position
    /// `base_pos + i / per_token`.
    Rotate {
        rows: Rows,
        turning: usize,
        per_token: usize,
        base_pos: usize,
        layer: usize,
        factors: bool,
    },
    /// Keep the key and the value of a position.
    Store { layer: usize, pos: usize, k: Rows, v: Rows },
    /// Attention of one token: row `h` of `q`, a head, against head `h / group` of the
    /// positions `from..=pos`.
    Attend { layer: usize, q: Rows, out: Rows, group: usize, from: usize, pos: usize },
    /// Multiply by the sigmoid.
    Open { rows: Rows, by: Rows },
    Add { to: Rows, from: Rows },
    /// The sum, times the layer's output scale.
    AddScaled { to: Rows, from: Rows, layer: usize },
    Geglu { gate: Rows, up: Rows },
    Swiglu { gate: Rows, up: Rows },
    /// The recurrence of a linear-attention layer over the tokens, in order.
    Recur { layer: usize, mixed: Rows, alpha: Rows, beta: Rows, out: Rows },
    /// Norm per head, then multiply by the activation of the same numbers of `z`.
    GatedNorm { layer: usize, heads: Rows, z: Rows },
    SoftCap(Rows),
    /// This token is never emitted.
    Suppress(u32),
    /// The intermediate is complete.
    Mark { label: Label, rows: Rows },
}

pub open spec fn fits(r: Rows, size: spec_fn(Scratch) -> int) -> bool {
    r.end() <= size(r.buf)
}

/// A step stays within buffers of these sizes.
pub open spec fn in_range(s: Step, size: spec_fn(Scratch) -> int) -> bool {
    match s {
        Step::Embed(r) => fits(r, size),
        Step::ScaleEmbedding(r) => fits(r, size),
        Step::Copy { from, to } => fits(from, size) && fits(to, size),
        Step::Norm { rows, gain: _ } => fits(rows, size),
        Step::Project { matrix: _, x, y } => fits(x, size) && fits(y, size),
        Step::Rotate { rows, turning, .. } => fits(rows, size) && turning <= rows.width,
        Step::Store { layer: _, pos: _, k, v } => fits(k, size) && fits(v, size),
        Step::Attend { q, out, .. } => fits(q, size) && fits(out, size),
        Step::Open { rows, by } => fits(rows, size) && fits(by, size),
        Step::Add { to, from } => fits(to, size) && fits(from, size),
        Step::AddScaled { to, from, layer: _ } => fits(to, size) && fits(from, size),
        Step::Geglu { gate, up } => fits(gate, size) && fits(up, size),
        Step::Swiglu { gate, up } => fits(gate, size) && fits(up, size),
        Step::Recur { layer: _, mixed, alpha, beta, out } => fits(mixed, size) && fits(alpha, size)
            && fits(beta, size) && fits(out, size),
        Step::GatedNorm { layer: _, heads, z } => fits(heads, size) && fits(z, size),
        Step::SoftCap(r) => fits(r, size),
        Step::Suppress(_) => true,
        Step::Mark { label: _, rows } => fits(rows, size),
    }
}

/// Every step does.
pub open spec fn all_in_range(v: Seq<Step>, size: spec_fn(Scratch) -> int) -> bool {
    forall|i: int| 0 <= i < v.len() ==> in_range(#[trigger] v[i], size)
}

/// Rows that follow each other without a gap.
pub open spec fn rows(buf: Scratch, n: int, width: int) -> Rows {
    Rows { buf, first: 0, n: n as usize, width: width as usize, stride: width as usize }
}

/// The rows of one token, where each token has `n`.
pub open spec fn rows_of(buf: Scratch, token: int, n: int, width: int) -> Rows {
    Rows {
        buf,
        first: (token * (n * width)) as usize,
        n: n as usize,
        width: width as usize,
        stride: width as usize,
    }
}

pub(crate) fn all_rows(buf: Scratch, n: usize, width: usize) -> (r: Rows)
    ensures
        r == rows(buf, n as int, width as int),
{
    Rows { buf, first: 0, n, width, stride: width }
}

pub(crate) fn token_rows(buf: Scratch, token: usize, n: usize, width: usize) -> (r: Rows)
    requires
        n * width <= usize::MAX,
        token * (n * width) <= usize::MAX,
    ensures
        r == rows_of(buf, token as int, n as int, width as int),
{
    Rows { buf, first: token * (n * width), n, width, stride: width }
}

// ---------------------------------------------------------------------------
// The gemma4 pass
// ---------------------------------------------------------------------------
/// The numbers of one layer.
pub open spec fn q_dim(cfg: Config, l: LayerConfig) -> int {
    cfg.n_heads * l.head_dim
}

/// The embedding gather, scaled.
pub open spec fn embed_steps(cfg: Config, t: int) -> Seq<Step> {
    let h = rows(Scratch::H, t, cfg.d_model as int);
    seq![
        Step::Embed(h),
        Step::Mark { label: Label::Embd, rows: h },
        Step::ScaleEmbedding(h),
        Step::Mark { label: Label::InpScaled, rows: h },
    ]
}

/// Pre-attention norm and the projections. Global layers ship no V projection: V is
/// the same projection as K.
pub open spec fn qkv_steps(cfg: Config, il: int, t: int) -> Seq<Step> {
    let l = cfg.layers@[il];
    let i = il as usize;
    let h = rows(Scratch::H, t, cfg.d_model as int);
    let x = rows(Scratch::X, t, cfg.d_model as int);
    let q = rows(Scratch::Q, t, q_dim(cfg, l));
    let k = rows(Scratch::K, t, l.kv_width());
    let v = rows(Scratch::V, t, l.kv_width());
    seq![
        Step::Copy { from: h, to: x },
        Step::Norm { rows: x, gain: Some(Gain::AttnNorm(i)) },
        Step::Mark { label: Label::AttnNorm(i), rows: x },
        Step::Project { matrix: Matrix::Query(i), x, y: q },
        Step::Mark { label: Label::Query(i), rows: q },
        Step::Project { matrix: Matrix::Key(i), x, y: k },
        Step::Mark { label: Label::Key(i), rows: k },
        if l.v_from_k {
            Step::Copy { from: k, to: v }
        } else {
            Step::Project { matrix: Matrix::Value(i), x, y: v }
        },
        Step::Mark { label: Label::Value(i), rows: v },
    ]
}

/// Norm and rotation per head. V is normalized without a gain and never rotated.
pub open spec fn head_steps(cfg: Config, il: int, t: int, base: int) -> Seq<Step> {
    let l = cfg.layers@[il];
    let i = il as usize;
    let q = rows(Scratch::Q, t * cfg.n_heads, l.head_dim as int);
    let k = rows(Scratch::K, t * l.n_kv_heads, l.head_dim as int);
    let v = rows(Scratch::V, t * l.n_kv_heads, l.head_dim as int);
    seq![
        Step::Norm { rows: q, gain: Some(Gain::QueryNorm(i)) },
        Step::Mark { label: Label::QueryNormed(i), rows: q },
        Step::Rotate {
            rows: q,
            turning: l.head_dim,
            per_token: cfg.n_heads,
            base_pos: base as usize,
            layer: i,
            factors: l.rope_factors,
        },
        Step::Mark { label: Label::QueryPos(i), rows: q },
        Step::Norm { rows: k, gain: Some(Gain::KeyNorm(i)) },
        Step::Mark { label: Label::KeyNormed(i), rows: k },
        Step::Rotate {
            rows: k,
            turning: l.head_dim,
            per_token: l.n_kv_heads,
            base_pos: base as usize,
            layer: i,
            factors: l.rope_factors,
        },
        Step::Mark { label: Label::KeyPos(i), rows: k },
        Step::Norm { rows: v, gain: None },
        Step::Mark { label: Label::ValueNormed(i), rows: v },
    ]
}

/// The first position that a layer sees from `pos`.
pub open spec fn seen_from(window: Option<usize>, pos: int) -> int {
    match window {
        Some(w) => if pos + 1 > w {
            pos + 1 - w
        } else {
            0
        },
        None => 0,
    }
}

pub open spec fn store_step(cfg: Config, il: int, base: int, i: int) -> Step {
    let l = cfg.layers@[il];
    Step::Store {
        layer: il as usize,
        pos: (base + i) as usize,
        k: rows_of(Scratch::K, i, 1, l.kv_width()),
        v: rows_of(Scratch::V, i, 1, l.kv_width()),
    }
}

pub open spec fn attend_step(cfg: Config, il: int, base: int, i: int) -> Step {
    let l = cfg.layers@[il];
    Step::Attend {
        layer: il as usize,
        q: rows_of(Scratch::Q, i, cfg.n_heads as int, l.head_dim as int),
        out: rows_of(Scratch::Attn, i, cfg.n_heads as int, l.head_dim as int),
        group: (cfg.n_heads as int / l.n_kv_heads as int) as usize,
        from: seen_from(l.window, base + i) as usize,
        pos: (base + i) as usize,
    }
}

/// Each token is kept and then attends, one behind the other: a ring has just the
/// window's rows, so a later position must not be kept before an earlier one has
/// looked.
pub open spec fn attn_steps(cfg: Config, il: int, t: int, base: int) -> Seq<Step> {
    Seq::new(
        (2 * t) as nat,
        |j: int|
            if j % 2 == 0 {
                store_step(cfg, il, base, j / 2)
            } else {
                attend_step(cfg, il, base, j / 2)
            },
    )
}

/// Output projection and residual.
pub open spec fn out_steps(cfg: Config, il: int, t: int) -> Seq<Step> {
    let l = cfg.layers@[il];
    let i = il as usize;
    let h = rows(Scratch::H, t, cfg.d_model as int);
    let attn = rows(Scratch::Attn, t, q_dim(cfg, l));
    let proj = rows(Scratch::Proj, t, cfg.d_model as int);
    seq![
        Step::Mark { label: Label::KqvOut(i), rows: attn },
        Step::Project { matrix: Matrix::AttnOutput(i), x: attn, y: proj },
        Step::Norm { rows: proj, gain: Some(Gain::PostAttentionNorm(i)) },
        Step::Mark { label: Label::AttnPostNorm(i), rows: proj },
        Step::Add { to: h, from: proj },
        Step::Mark { label: Label::AttnOut(i), rows: h },
    ]
}

/// Feed-forward, residual, and the rescaled stream.
pub open spec fn ffn_steps(cfg: Config, il: int, t: int) -> Seq<Step> {
    let i = il as usize;
    let h = rows(Scratch::H, t, cfg.d_model as int);
    let x = rows(Scratch::X, t, cfg.d_model as int);
    let gate = rows(Scratch::Gate, t, cfg.ffn_dim as int);
    let up = rows(Scratch::Up, t, cfg.ffn_dim as int);
    let proj = rows(Scratch::Proj, t, cfg.d_model as int);
    seq![
        Step::Copy { from: h, to: x },
        Step::Norm { rows: x, gain: Some(Gain::FfnNorm(i)) },
        Step::Mark { label: Label::FfnNorm(i), rows: x },
        Step::Project { matrix: Matrix::FfnGate(i), x, y: gate },
        Step::Project { matrix: Matrix::FfnUp(i), x, y: up },
        Step::Geglu { gate, up },
        Step::Mark { label: Label::FfnGeglu(i), rows: gate },
        Step::Project { matrix: Matrix::FfnDown(i), x: gate, y: proj },
        Step::Norm { rows: proj, gain: Some(Gain::PostFfwNorm(i)) },
        Step::Mark { label: Label::FfnPostNorm(i), rows: proj },
        Step::AddScaled { to: h, from: proj, layer: i },
        Step::Mark { label: Label::LayerOut(i), rows: h },
    ]
}

/// One layer.
pub open spec fn layer_steps(cfg: Config, il: int, t: int, base: int) -> Seq<Step> {
    qkv_steps(cfg, il, t) + head_steps(cfg, il, t, base) + attn_steps(cfg, il, t, base) + out_steps(
        cfg,
        il,
        t,
    ) + ffn_steps(cfg, il, t)
}

/// The first `n` layers.
pub open spec fn layers_steps(cfg: Config, n: int, t: int, base: int) -> Seq<Step>
    decreases n,
{
    if n <= 0 {
        Seq::empty()
    } else {
        layers_steps(cfg, n - 1, t, base) + layer_steps(cfg, n - 1, t, base)
    }
}

/// The output head: logits of the last token only.
pub open spec fn head_out_steps(cfg: Config, t: int) -> Seq<Step> {
    let h = rows(Scratch::H, t, cfg.d_model as int);
    let last = rows_of(Scratch::H, t - 1, 1, cfg.d_model as int);
    let logits = rows(Scratch::Logits, 1, cfg.vocab as int);
    seq![
        Step::Norm { rows: h, gain: Some(Gain::OutputNorm) },
        Step::Mark { label: Label::HNextn, rows: h },
        Step::Mark { label: Label::ResultNorm, rows: last },
        Step::Project { matrix: Matrix::Output, x: last, y: logits },
    ] + (if cfg.logit_softcap is Some {
        seq![Step::SoftCap(logits)]
    } else {
        Seq::empty()
    }) + cfg.suppress_tokens@.map_values(|id: u32| Step::Suppress(id)) + seq![
        Step::Mark { label: Label::ResultOutput, rows: logits },
    ]
}

/// The whole pass over `t` tokens, the first at position `base`.
pub open spec fn steps(cfg: Config, t: int, base: int) -> Seq<Step> {
    embed_steps(cfg, t) + layers_steps(cfg, cfg.n_layers as int, t, base) + head_out_steps(cfg, t)
}

/// The widest head among the first `n` layers.
pub open spec fn widest_head(layers: Seq<LayerConfig>, n: int) -> int
    decreases n,
{
    if n <= 0 {
        0
    } else if layers[n - 1].head_dim > widest_head(layers, n - 1) {
        layers[n - 1].head_dim as int
    } else {
        widest_head(layers, n - 1)
    }
}

/// The widest key or value row among the first `n` layers.
pub open spec fn widest_kv(layers: Seq<LayerConfig>, n: int) -> int
    decreases n,
{
    if n <= 0 {
        0
    } else if layers[n - 1].kv_width() > widest_kv(layers, n - 1) {
        layers[n - 1].kv_width()
    } else {
        widest_kv(layers, n - 1)
    }
}

/// How large each buffer is for batches of up to `max`.
pub open spec fn size_of(cfg: Config, max: int, b: Scratch) -> int {
    let n = cfg.layers@.len() as int;
    let q = cfg.n_heads * widest_head(cfg.layers@, n);
    let kv = widest_kv(cfg.layers@, n);
    match b {
        Scratch::H => max * cfg.d_model,
        Scratch::X => max * cfg.d_model,
        Scratch::Q => max * q,
        Scratch::K => max * kv,
        Scratch::V => max * kv,
        Scratch::Attn => max * q,
        Scratch::Proj => max * cfg.d_model,
        Scratch::Gate => max * cfg.ffn_dim,
        Scratch::Up => max * cfg.ffn_dim,
        Scratch::Logits => cfg.vocab as int,
        _ => 0,
    }
}

/// Every buffer for batches of up to `max` can be counted, and every layer has heads.
pub open spec fn sizable(cfg: Config, max: int) -> bool {
    let n = cfg.layers@.len() as int;
    &&& n == cfg.n_layers
    &&& max * cfg.n_heads <= usize::MAX
    &&& forall|b: Scratch| #[trigger] size_of(cfg, max, b) <= usize::MAX
    &&& cfg.n_heads * widest_head(cfg.layers@, n) <= usize::MAX
    &&& forall|i: int|
        0 <= i < n ==> {
            let l = #[trigger] cfg.layers@[i];
            &&& 0 < l.n_kv_heads
            &&& l.kv_width() <= usize::MAX
            &&& max * l.n_kv_heads <= usize::MAX
            &&& (l.window matches Some(w) ==> w > 0)
        }
}

proof fn lemma_widest(layers: Seq<LayerConfig>, i: int, n: int)
    requires
        0 <= i < n <= layers.len(),
    ensures
        layers[i].head_dim <= widest_head(layers, n),
        layers[i].kv_width() <= widest_kv(layers, n),
    decreases n,
{
    if i < n - 1 {
        lemma_widest(layers, i, n - 1);
    }
}

/// Dimensions of a layer against the buffers.
pub(crate) proof fn lemma_dims(cfg: Config, il: int, max: int)
    requires
        sizable(cfg, max),
        0 <= il < cfg.n_layers,
        0 <= max,
    ensures
        0 <= q_dim(cfg, cfg.layers@[il]) <= usize::MAX,
        0 <= max * q_dim(cfg, cfg.layers@[il]) <= size_of(cfg, max, Scratch::Q),
        0 <= max * cfg.layers@[il].kv_width() <= size_of(cfg, max, Scratch::K),
        0 <= cfg.layers@[il].kv_width() <= usize::MAX,
{
    let l = cfg.layers@[il];
    let n = cfg.layers@.len() as int;
    lemma_widest(cfg.layers@, il, n);
    let (hd, w, nh) = (l.head_dim as int, widest_head(cfg.layers@, n), cfg.n_heads as int);
    assert(0 <= nh * hd <= nh * w && 0 <= max * (nh * hd) <= max * (nh * w)) by (nonlinear_arith)
        requires
            0 <= hd <= w,
            0 <= nh,
            0 <= max,
    ;
    let (kv, wkv) = (l.kv_width(), widest_kv(cfg.layers@, n));
    assert(0 <= kv) by (nonlinear_arith)
        requires
            kv == l.n_kv_heads * l.head_dim,
    ;
    assert(0 <= max * kv <= max * wkv) by (nonlinear_arith)
        requires
            0 <= kv <= wkv,
            0 <= max,
    ;
    assert(size_of(cfg, max, Scratch::Q) <= usize::MAX);
}

fn push(v: &mut Vec<Step>, s: Step)
    ensures
        final(v)@ == old(v)@.push(s),
{
    v.push(s);
}

fn push_qkv(cfg: &Config, il: usize, t: usize, max: usize, v: &mut Vec<Step>)
    requires
        sizable(*cfg, max as int),
        t <= max,
        il < cfg.n_layers,
    ensures
        final(v)@ == old(v)@ + qkv_steps(*cfg, il as int, t as int),
{
    let ghost before = v@;
    proof {
        lemma_dims(*cfg, il as int, max as int);
    }
    let l = &cfg.layers[il];
    let h = all_rows(Scratch::H, t, cfg.d_model);
    let x = all_rows(Scratch::X, t, cfg.d_model);
    let q = all_rows(Scratch::Q, t, cfg.n_heads * l.head_dim);
    let k = all_rows(Scratch::K, t, l.kv_dim());
    let val = all_rows(Scratch::V, t, l.kv_dim());
    push(v, Step::Copy { from: h, to: x });
    push(v, Step::Norm { rows: x, gain: Some(Gain::AttnNorm(il)) });
    push(v, Step::Mark { label: Label::AttnNorm(il), rows: x });
    push(v, Step::Project { matrix: Matrix::Query(il), x, y: q });
    push(v, Step::Mark { label: Label::Query(il), rows: q });
    push(v, Step::Project { matrix: Matrix::Key(il), x, y: k });
    push(v, Step::Mark { label: Label::Key(il), rows: k });
    if l.v_from_k {
        push(v, Step::Copy { from: k, to: val });
    } else {
        push(v, Step::Project { matrix: Matrix::Value(il), x, y: val });
    }
    push(v, Step::Mark { label: Label::Value(il), rows: val });
    assert(v@ =~= before + qkv_steps(*cfg, il as int, t as int));
}

fn push_heads(cfg: &Config, il: usize, t: usize, base: usize, max: usize, v: &mut Vec<Step>)
    requires
        sizable(*cfg, max as int),
        t <= max,
        il < cfg.n_layers,
    ensures
        final(v)@ == old(v)@ + head_steps(*cfg, il as int, t as int, base as int),
{
    let ghost before = v@;
    let l = &cfg.layers[il];
    proof {
        let (m, a, b, c) = (max as int, t as int, cfg.n_heads as int, l.n_kv_heads as int);
        assert(m * c <= usize::MAX);
        assert(0 <= a * b <= m * b && 0 <= a * c <= m * c) by (nonlinear_arith)
            requires
                0 <= a <= m,
                0 <= b,
                0 <= c,
        ;
    }
    let q = all_rows(Scratch::Q, t * cfg.n_heads, l.head_dim);
    let k = all_rows(Scratch::K, t * l.n_kv_heads, l.head_dim);
    let val = all_rows(Scratch::V, t * l.n_kv_heads, l.head_dim);
    push(v, Step::Norm { rows: q, gain: Some(Gain::QueryNorm(il)) });
    push(v, Step::Mark { label: Label::QueryNormed(il), rows: q });
    push(
        v,
        Step::Rotate {
            rows: q,
            turning: l.head_dim,
            per_token: cfg.n_heads,
            base_pos: base,
            layer: il,
            factors: l.rope_factors,
        },
    );
    push(v, Step::Mark { label: Label::QueryPos(il), rows: q });
    push(v, Step::Norm { rows: k, gain: Some(Gain::KeyNorm(il)) });
    push(v, Step::Mark { label: Label::KeyNormed(il), rows: k });
    push(
        v,
        Step::Rotate {
            rows: k,
            turning: l.head_dim,
            per_token: l.n_kv_heads,
            base_pos: base,
            layer: il,
            factors: l.rope_factors,
        },
    );
    push(v, Step::Mark { label: Label::KeyPos(il), rows: k });
    push(v, Step::Norm { rows: val, gain: None });
    push(v, Step::Mark { label: Label::ValueNormed(il), rows: val });
    assert(v@ =~= before + head_steps(*cfg, il as int, t as int, base as int));
}

fn push_attention(cfg: &Config, il: usize, t: usize, base: usize, max: usize, v: &mut Vec<Step>)
    requires
        sizable(*cfg, max as int),
        t <= max,
        il < cfg.n_layers,
        base + t <= usize::MAX,
    ensures
        final(v)@ == old(v)@ + attn_steps(*cfg, il as int, t as int, base as int),
{
    let ghost before = v@;
    let ghost all = attn_steps(*cfg, il as int, t as int, base as int);
    let l = &cfg.layers[il];
    proof {
        lemma_dims(*cfg, il as int, max as int);
    }
    let kv: usize = l.kv_dim();
    let group: usize = cfg.n_heads / l.n_kv_heads;
    let q: usize = cfg.n_heads * l.head_dim;
    let mut i: usize = 0;
    assert(before + all.take(0) =~= before);
    while i < t
        invariant
            i <= t,
            t <= max,
            sizable(*cfg, max as int),
            il < cfg.n_layers,
            *l == cfg.layers@[il as int],
            kv == l.kv_width(),
            q == cfg.n_heads * l.head_dim,
            group == cfg.n_heads as int / l.n_kv_heads as int,
            base + t <= usize::MAX,
            all == attn_steps(*cfg, il as int, t as int, base as int),
            v@ == before + all.take(2 * i),
        decreases t - i,
    {
        proof {
            lemma_dims(*cfg, il as int, max as int);
            let (a, m, w, x) = (i as int, max as int, kv as int, q as int);
            assert(0 <= a * w <= m * w && 0 <= a * x <= m * x) by (nonlinear_arith)
                requires
                    0 <= a <= m,
                    0 <= w,
                    0 <= x,
            ;
            assert(1 * w == w);
            assert(size_of(*cfg, max as int, Scratch::K) <= usize::MAX);
            assert(size_of(*cfg, max as int, Scratch::Q) <= usize::MAX);
        }
        let pos: usize = base + i;
        let from: usize = match l.window {
            Some(w) => if pos >= w {
                pos - w + 1
            } else {
                0
            },
            None => 0,
        };
        let s = Step::Store {
            layer: il,
            pos,
            k: token_rows(Scratch::K, i, 1, kv),
            v: token_rows(Scratch::V, i, 1, kv),
        };
        let a = Step::Attend {
            layer: il,
            q: token_rows(Scratch::Q, i, cfg.n_heads, l.head_dim),
            out: token_rows(Scratch::Attn, i, cfg.n_heads, l.head_dim),
            group,
            from,
            pos,
        };
        push(v, s);
        push(v, a);
        assert(s == all[2 * i]);
        assert(a == all[2 * i + 1]);
        assert((before + all.take(2 * i)).push(s).push(a) =~= before + all.take(2 * (i + 1)));
        i = i + 1;
    }
    assert(all.take(2 * t) =~= all);
}

fn push_out(cfg: &Config, il: usize, t: usize, max: usize, v: &mut Vec<Step>)
    requires
        sizable(*cfg, max as int),
        t <= max,
        il < cfg.n_layers,
    ensures
        final(v)@ == old(v)@ + out_steps(*cfg, il as int, t as int),
{
    let ghost before = v@;
    proof {
        lemma_dims(*cfg, il as int, max as int);
    }
    let l = &cfg.layers[il];
    let h = all_rows(Scratch::H, t, cfg.d_model);
    let attn = all_rows(Scratch::Attn, t, cfg.n_heads * l.head_dim);
    let proj = all_rows(Scratch::Proj, t, cfg.d_model);
    push(v, Step::Mark { label: Label::KqvOut(il), rows: attn });
    push(v, Step::Project { matrix: Matrix::AttnOutput(il), x: attn, y: proj });
    push(v, Step::Norm { rows: proj, gain: Some(Gain::PostAttentionNorm(il)) });
    push(v, Step::Mark { label: Label::AttnPostNorm(il), rows: proj });
    push(v, Step::Add { to: h, from: proj });
    push(v, Step::Mark { label: Label::AttnOut(il), rows: h });
    assert(v@ =~= before + out_steps(*cfg, il as int, t as int));
}

fn push_ffn(cfg: &Config, il: usize, t: usize, v: &mut Vec<Step>)
    ensures
        final(v)@ == old(v)@ + ffn_steps(*cfg, il as int, t as int),
{
    let ghost before = v@;
    let h = all_rows(Scratch::H, t, cfg.d_model);
    let x = all_rows(Scratch::X, t, cfg.d_model);
    let gate = all_rows(Scratch::Gate, t, cfg.ffn_dim);
    let up = all_rows(Scratch::Up, t, cfg.ffn_dim);
    let proj = all_rows(Scratch::Proj, t, cfg.d_model);
    push(v, Step::Copy { from: h, to: x });
    push(v, Step::Norm { rows: x, gain: Some(Gain::FfnNorm(il)) });
    push(v, Step::Mark { label: Label::FfnNorm(il), rows: x });
    push(v, Step::Project { matrix: Matrix::FfnGate(il), x, y: gate });
    push(v, Step::Project { matrix: Matrix::FfnUp(il), x, y: up });
    push(v, Step::Geglu { gate, up });
    push(v, Step::Mark { label: Label::FfnGeglu(il), rows: gate });
    push(v, Step::Project { matrix: Matrix::FfnDown(il), x: gate, y: proj });
    push(v, Step::Norm { rows: proj, gain: Some(Gain::PostFfwNorm(il)) });
    push(v, Step::Mark { label: Label::FfnPostNorm(il), rows: proj });
    push(v, Step::AddScaled { to: h, from: proj, layer: il });
    push(v, Step::Mark { label: Label::LayerOut(il), rows: h });
    assert(v@ =~= before + ffn_steps(*cfg, il as int, t as int));
}

fn push_head_out(cfg: &Config, t: usize, max: usize, v: &mut Vec<Step>)
    requires
        sizable(*cfg, max as int),
        0 < t <= max,
    ensures
        final(v)@ == old(v)@ + head_out_steps(*cfg, t as int),
{
    let ghost before = v@;
    proof {
        let (a, m, d) = (t - 1, max as int, cfg.d_model as int);
        assert(0 <= a * d <= m * d) by (nonlinear_arith)
            requires
                0 <= a <= m,
                0 <= d,
        ;
        assert(1 * d == d);
        assert(size_of(*cfg, max as int, Scratch::H) <= usize::MAX);
    }
    let h = all_rows(Scratch::H, t, cfg.d_model);
    let last = token_rows(Scratch::H, t - 1, 1, cfg.d_model);
    let logits = all_rows(Scratch::Logits, 1, cfg.vocab);
    push(v, Step::Norm { rows: h, gain: Some(Gain::OutputNorm) });
    push(v, Step::Mark { label: Label::HNextn, rows: h });
    push(v, Step::Mark { label: Label::ResultNorm, rows: last });
    push(v, Step::Project { matrix: Matrix::Output, x: last, y: logits });
    if cfg.logit_softcap.is_some() {
        push(v, Step::SoftCap(logits));
    }
    let ghost so_far = v@;
    let ghost all = cfg.suppress_tokens@.map_values(|id: u32| Step::Suppress(id));
    let n: usize = cfg.suppress_tokens.len();
    let mut i: usize = 0;
    assert(so_far + all.take(0) =~= so_far);
    while i < n
        invariant
            i <= n,
            n == cfg.suppress_tokens@.len(),
            all == cfg.suppress_tokens@.map_values(|id: u32| Step::Suppress(id)),
            v@ == so_far + all.take(i as int),
        decreases n - i,
    {
        let s = Step::Suppress(cfg.suppress_tokens[i]);
        push(v, s);
        assert((so_far + all.take(i as int)).push(s) =~= so_far + all.take(i + 1));
        i = i + 1;
    }
    assert(all.take(n as int) =~= all);
    push(v, Step::Mark { label: Label::ResultOutput, rows: logits });
    assert(v@ =~= before + head_out_steps(*cfg, t as int));
}

/// Why a pass cannot run.
#[derive(Debug, Clone, Copy, PartialEq, Eq, Structural)]
pub enum PassError {
    NoTokens,
    /// More tokens than the buffers were made for.
    Batch { tokens: usize, max: usize },
    /// The context has no room for them.
    Overflow { at: usize, tokens: usize, capacity: usize },
}

/// What a batch of `t` tokens at `base` runs into, in the order in which it is noticed.
pub open spec fn pass_error(t: usize, max: usize, base: usize, capacity: usize) -> Option<
    PassError,
> {
    if t == 0 {
        Some(PassError::NoTokens)
    } else if t > max {
        Some(PassError::Batch { tokens: t, max })
    } else if base + t > capacity {
        Some(PassError::Overflow { at: base, tokens: t, capacity })
    } else {
        None
    }
}

/// Whether a batch of `t` tokens can run.
pub fn check_pass(t: usize, max: usize, base: usize, capacity: usize) -> (r: Result<(), PassError>)
    ensures
        match r {
            Ok(_) => pass_error(t, max, base, capacity) is None,
            Err(e) => pass_error(t, max, base, capacity) == Some(e),
        },
{
    if t == 0 {
        return Err(PassError::NoTokens);
    }
    if t > max {
        return Err(PassError::Batch { tokens: t, max });
    }
    if base > capacity || t > capacity - base {
        return Err(PassError::Overflow { at: base, tokens: t, capacity });
    }
    Ok(())
}

/// The reference pass of a model, for batches of up to `max` tokens.
pub struct Cpu<'a> {
    pub cfg: &'a Config,
    pub max: usize,
}

impl<'a> Cpu<'a> {
    pub open spec fn wf(&self) -> bool {
        sizable(*self.cfg, self.max as int)
    }

    pub fn new(cfg: &'a Config, max: usize) -> (r: Cpu<'a>)
        requires
            sizable(*cfg, max as int),
        ensures
            r.wf(),
            r.cfg == cfg,
            r.max == max,
    {
        Cpu { cfg, max }
    }

    /// The pass over `t` tokens, the first at position `base`.
    pub fn forward_traced(&self, t: usize, base: usize, capacity: usize) -> (r: Result<
        Vec<Step>,
        PassError,
    >)
        requires
            self.wf(),
        ensures
            match r {
                Ok(v) => {
                    &&& pass_error(t, self.max, base, capacity) is None
                    &&& v@ == steps(*self.cfg, t as int, base as int)
                },
                Err(e) => pass_error(t, self.max, base, capacity) == Some(e),
            },
    {
        let cfg = self.cfg;
        let max: usize = self.max;
        check_pass(t, max, base, capacity)?;
        let mut v: Vec<Step> = Vec::new();
        let h = all_rows(Scratch::H, t, cfg.d_model);
        push(&mut v, Step::Embed(h));
        push(&mut v, Step::Mark { label: Label::Embd, rows: h });
        push(&mut v, Step::ScaleEmbedding(h));
        push(&mut v, Step::Mark { label: Label::InpScaled, rows: h });
        let ghost front = embed_steps(*cfg, t as int);
        assert(v@ =~= front + layers_steps(*cfg, 0, t as int, base as int));
        let mut il: usize = 0;
        while il < cfg.n_layers
            invariant
                il <= cfg.n_layers,
                sizable(*cfg, max as int),
                0 < t <= max,
                base + t <= usize::MAX,
                v@ == front + layers_steps(*cfg, il as int, t as int, base as int),
            decreases cfg.n_layers - il,
        {
            let ghost before = v@;
            push_qkv(cfg, il, t, max, &mut v);
            push_heads(cfg, il, t, base, max, &mut v);
            push_attention(cfg, il, t, base, max, &mut v);
            push_out(cfg, il, t, max, &mut v);
            push_ffn(cfg, il, t, &mut v);
            assert(v@ =~= before + layer_steps(*cfg, il as int, t as int, base as int));
            assert(v@ =~= front + (layers_steps(*cfg, il as int, t as int, base as int) + layer_steps(
                *cfg,
                il as int,
                t as int,
                base as int,
            )));
            il = il + 1;
        }
        push_head_out(cfg, t, max, &mut v);
        assert(v@ =~= steps(*cfg, t as int, base as int));
        Ok(v)
    }
}

// ---------------------------------------------------------------------------
// Buffers
// ---------------------------------------------------------------------------
/// The widest head and the widest key row.
fn widest(layers: &Vec<LayerConfig>) -> (r: Option<(usize, usize)>)
    ensures
        match r {
            Some((h, kv)) => {
                &&& h == widest_head(layers@, layers@.len() as int)
                &&& kv == widest_kv(layers@, layers@.len() as int)
                &&& forall|i: int|
                    0 <= i < layers@.len() ==> (#[trigger] layers@[i]).kv_width() <= usize::MAX
            },
            None => exists|i: int|
                0 <= i < layers@.len() && (#[trigger] layers@[i]).kv_width() > usize::MAX,
        },
{
    let n: usize = layers.len();
    let mut h: usize = 0;
    let mut kv: usize = 0;
    let mut i: usize = 0;
    while i < n
        invariant
            i <= n,
            n == layers@.len(),
            h == widest_head(layers@, i as int),
            kv == widest_kv(layers@, i as int),
            forall|j: int| 0 <= j < i ==> (#[trigger] layers@[j]).kv_width() <= usize::MAX,
        decreases n - i,
    {
        let l = layers[i];
        match l.n_kv_heads.checked_mul(l.head_dim) {
            Some(w) => {
                if w > kv {
                    kv = w;
                }
            },
            None => {
                assert(layers@[i as int].kv_width() > usize::MAX);
                return None;
            },
        }
        if l.head_dim > h {
            h = l.head_dim;
        }
        i = i + 1;
    }
    Some((h, kv))
}

pub(crate) fn within(a: usize, b: usize) -> (r: bool)
    ensures
        r == (a * b <= usize::MAX),
{
    a.checked_mul(b).is_some()
}

fn layers_sizable(cfg: &Config, max: usize) -> (r: bool)
    ensures
        r == (forall|i: int|
            0 <= i < cfg.layers@.len() ==> {
                let l = #[trigger] cfg.layers@[i];
                &&& 0 < l.n_kv_heads
                &&& l.kv_width() <= usize::MAX
                &&& max * l.n_kv_heads <= usize::MAX
                &&& (l.window matches Some(w) ==> w > 0)
            }),
{
    let n: usize = cfg.layers.len();
    let mut i: usize = 0;
    while i < n
        invariant
            i <= n,
            n == cfg.layers@.len(),
            forall|j: int|
                0 <= j < i ==> {
                    let l = #[trigger] cfg.layers@[j];
                    &&& 0 < l.n_kv_heads
                    &&& l.kv_width() <= usize::MAX
                    &&& max * l.n_kv_heads <= usize::MAX
                    &&& (l.window matches Some(w) ==> w > 0)
                },
        decreases n - i,
    {
        let l = cfg.layers[i];
        let window: bool = match l.window {
            Some(w) => w > 0,
            None => true,
        };
        if l.n_kv_heads == 0 || !within(l.n_kv_heads, l.head_dim) || !within(max, l.n_kv_heads)
            || !window {
            assert(cfg.layers@[i as int] == l);
            return false;
        }
        i = i + 1;
    }
    true
}

/// Whether batches of up to `max` can run at all: every buffer can be counted, and
/// every layer has heads.
pub fn can_run(cfg: &Config, max: usize) -> (r: bool)
    ensures
        r == sizable(*cfg, max as int),
{
    if cfg.layers.len() != cfg.n_layers || !within(max, cfg.n_heads) || !layers_sizable(cfg, max) {
        return false;
    }
    let (h, kv) = match widest(&cfg.layers) {
        Some(w) => w,
        None => {
            return false;
        },
    };
    let ghost m = max as int;
    match cfg.n_heads.checked_mul(h) {
        Some(q) => {
            let r: bool = within(max, q) && within(max, kv) && within(max, cfg.d_model) && within(
                max,
                cfg.ffn_dim,
            );
            proof {
                assert(size_of(*cfg, m, Scratch::H) == m * cfg.d_model);
                assert(size_of(*cfg, m, Scratch::Q) == m * q);
                assert(size_of(*cfg, m, Scratch::K) == m * kv);
                assert(size_of(*cfg, m, Scratch::Gate) == m * cfg.ffn_dim);
                if r {
                    assert forall|b: Scratch| #[trigger] size_of(*cfg, m, b) <= usize::MAX by {}
                }
            }
            r
        },
        None => false,
    }
}

/// How large a buffer is for batches of up to `max`.
pub fn buffer_size(cfg: &Config, max: usize, b: Scratch) -> (r: usize)
    requires
        sizable(*cfg, max as int),
    ensures
        r == size_of(*cfg, max as int, b),
{
    assert(size_of(*cfg, max as int, b) <= usize::MAX);
    let (h, kv) = match widest(&cfg.layers) {
        Some(w) => w,
        None => (0, 0),
    };
    match b {
        Scratch::H => max * cfg.d_model,
        Scratch::X => max * cfg.d_model,
        Scratch::Q => max * (cfg.n_heads * h),
        Scratch::K => max * kv,
        Scratch::V => max * kv,
        Scratch::Attn => max * (cfg.n_heads * h),
        Scratch::Proj => max * cfg.d_model,
        Scratch::Gate => max * cfg.ffn_dim,
        Scratch::Up => max * cfg.ffn_dim,
        Scratch::Logits => cfg.vocab,
        _ => 0,
    }
}

/// A label's name, and the layer it is of.
pub open spec fn words_of(l: Label) -> (Seq<char>, Option<usize>) {
    match l {
        Label::Embd => ("embd"@, None),
        Label::InputEmbed => ("model.input_embed"@, None),
        Label::InpScaled => ("inp_scaled"@, None),
        Label::AttnNorm(i) => ("attn_norm"@, Some(i)),
        Label::QueryFull(i) => ("Qcur_full"@, Some(i)),
        Label::Query(i) => ("Qcur"@, Some(i)),
        Label::Key(i) => ("Kcur"@, Some(i)),
        Label::Value(i) => ("Vcur"@, Some(i)),
        Label::QueryNormed(i) => ("Qcur_normed"@, Some(i)),
        Label::QueryPos(i) => ("Qcur_pos"@, Some(i)),
        Label::KeyNormed(i) => ("Kcur_normed"@, Some(i)),
        Label::KeyPos(i) => ("Kcur_pos"@, Some(i)),
        Label::ValueNormed(i) => ("Vcur_normed"@, Some(i)),
        Label::KqvOut(i) => ("kqv_out"@, Some(i)),
        Label::AttnPostNorm(i) => ("attn_post_norm"@, Some(i)),
        Label::AttnOut(i) => ("attn_out"@, Some(i)),
        Label::FfnNorm(i) => ("ffn_norm"@, Some(i)),
        Label::FfnGeglu(i) => ("ffn_geglu"@, Some(i)),
        Label::FfnPostNorm(i) => ("ffn_post_norm"@, Some(i)),
        Label::LayerOut(i) => ("l_out"@, Some(i)),
        Label::QkvMixed(i) => ("linear_attn_qkv_mixed"@, Some(i)),
        Label::Z(i) => ("z"@, Some(i)),
        Label::Alpha(i) => ("alpha"@, Some(i)),
        Label::Beta(i) => ("beta"@, Some(i)),
        Label::AttnOutput(i) => ("attn_output"@, Some(i)),
        Label::FinalOutput(i) => ("final_output"@, Some(i)),
        Label::LinearOut(i) => ("linear_attn_out"@, Some(i)),
        Label::AttnGated(i) => ("attn_gated"@, Some(i)),
        Label::AttnResidual(i) => ("attn_residual"@, Some(i)),
        Label::FfnOut(i) => ("ffn_out"@, Some(i)),
        Label::HNextn => ("h_nextn"@, None),
        Label::ResultNorm => ("result_norm"@, None),
        Label::ResultOutput => ("result_output"@, None),
    }
}

/// A label as it is written: the name, then the layer where it is of one.
pub open spec fn label_text(l: Label) -> Seq<char> {
    match words_of(l) {
        (name, Some(il)) => name + "-"@ + decimal(il as nat),
        (name, None) => name,
    }
}

fn words(l: Label) -> (r: (&'static str, Option<usize>))
    ensures
        (r.0@, r.1) == words_of(l),
{
    match l {
        Label::Embd => ("embd", None),
        Label::InputEmbed => ("model.input_embed", None),
        Label::InpScaled => ("inp_scaled", None),
        Label::AttnNorm(i) => ("attn_norm", Some(i)),
        Label::QueryFull(i) => ("Qcur_full", Some(i)),
        Label::Query(i) => ("Qcur", Some(i)),
        Label::Key(i) => ("Kcur", Some(i)),
        Label::Value(i) => ("Vcur", Some(i)),
        Label::QueryNormed(i) => ("Qcur_normed", Some(i)),
        Label::QueryPos(i) => ("Qcur_pos", Some(i)),
        Label::KeyNormed(i) => ("Kcur_normed", Some(i)),
        Label::KeyPos(i) => ("Kcur_pos", Some(i)),
        Label::ValueNormed(i) => ("Vcur_normed", Some(i)),
        Label::KqvOut(i) => ("kqv_out", Some(i)),
        Label::AttnPostNorm(i) => ("attn_post_norm", Some(i)),
        Label::AttnOut(i) => ("attn_out", Some(i)),
        Label::FfnNorm(i) => ("ffn_norm", Some(i)),
        Label::FfnGeglu(i) => ("ffn_geglu", Some(i)),
        Label::FfnPostNorm(i) => ("ffn_post_norm", Some(i)),
        Label::LayerOut(i) => ("l_out", Some(i)),
        Label::QkvMixed(i) => ("linear_attn_qkv_mixed", Some(i)),
        Label::Z(i) => ("z", Some(i)),
        Label::Alpha(i) => ("alpha", Some(i)),
        Label::Beta(i) => ("beta", Some(i)),
        Label::AttnOutput(i) => ("attn_output", Some(i)),
        Label::FinalOutput(i) => ("final_output", Some(i)),
        Label::LinearOut(i) => ("linear_attn_out", Some(i)),
        Label::AttnGated(i) => ("attn_gated", Some(i)),
        Label::AttnResidual(i) => ("attn_residual", Some(i)),
        Label::FfnOut(i) => ("ffn_out", Some(i)),
        Label::HNextn => ("h_nextn", None),
        Label::ResultNorm => ("result_norm", None),
        Label::ResultOutput => ("result_output", None),
    }
}

impl Label {
    /// A label as it is written.
    pub fn text(self) -> (r: String)
        ensures
            r@ == label_text(self),
    {
        let (name, layer) = words(self);
        let mut s = name.to_owned();
        if let Some(il) = layer {
            s.push_str("-");
            s.push_str(decimal_string(il as u64).as_str());
        }
        s
    }
}

// ---------------------------------------------------------------------------
// What holds of a pass
// ---------------------------------------------------------------------------
pub(crate) proof fn lemma_in_range_concat(a: Seq<Step>, b: Seq<Step>, size: spec_fn(Scratch) -> int)
    requires
        all_in_range(a, size),
        all_in_range(b, size),
    ensures
        all_in_range(a + b, size),
{
    assert forall|i: int| 0 <= i < (a + b).len() implies in_range(#[trigger] (a + b)[i], size) by {
        if i < a.len() {
            assert(in_range(a[i], size));
        } else {
            assert(in_range(b[i - a.len()], size));
        }
    }
}

/// Rows without gaps end where their numbers do.
pub(crate) proof fn lemma_rows(buf: Scratch, n: int, width: int, max: int)
    requires
        0 <= n <= max,
        0 <= width <= usize::MAX,
        n <= usize::MAX,
    ensures
        rows(buf, n, width).end() <= max * width,
{
    let r = rows(buf, n, width);
    assert((n - 1) * width + width == n * width && n * width <= max * width && 0 <= max * width)
        by (nonlinear_arith)
        requires
            0 <= n <= max,
            0 <= width,
    ;
}

/// Heads without gaps end where their tokens do.
pub(crate) proof fn lemma_heads(buf: Scratch, t: int, n: int, width: int, max: int)
    requires
        0 <= t <= max,
        0 <= n,
        t * n <= usize::MAX,
        0 <= width <= usize::MAX,
    ensures
        0 <= t * n,
        rows(buf, t * n, width).end() <= max * (n * width),
{
    assert(0 <= t * n && (t * n - 1) * width + width == t * (n * width) && t * (n * width) <= max * (n
        * width) && 0 <= max * (n * width)) by (nonlinear_arith)
        requires
            0 <= t <= max,
            0 <= n,
            0 <= width,
    ;
}

/// The rows of a token of the batch end within the batch.
pub(crate) proof fn lemma_token(buf: Scratch, i: int, n: int, width: int, t: int, max: int)
    requires
        0 <= i < t <= max,
        0 <= n <= usize::MAX,
        0 <= width <= usize::MAX,
        max * (n * width) <= usize::MAX,
    ensures
        rows_of(buf, i, n, width).end() <= max * (n * width),
{
    assert(0 <= i * (n * width) && i * (n * width) + n * width <= max * (n * width) && 0 <= max * (n
        * width)) by (nonlinear_arith)
        requires
            0 <= i < max,
            0 <= n,
            0 <= width,
    ;
    assert((n - 1) * width + width == n * width) by (nonlinear_arith);
}

proof fn lemma_layer_in_range(cfg: Config, il: int, t: int, max: int, base: int)
    requires
        sizable(cfg, max),
        0 < t <= max <= usize::MAX,
        0 <= il < cfg.n_layers,
    ensures
        all_in_range(layer_steps(cfg, il, t, base), |b: Scratch| size_of(cfg, max, b)),
{
    let size = |b: Scratch| size_of(cfg, max, b);
    let l = cfg.layers@[il];
    let (d, f, q, kv) = (cfg.d_model as int, cfg.ffn_dim as int, q_dim(cfg, l), l.kv_width());
    lemma_dims(cfg, il, max);
    assert(size_of(cfg, max, Scratch::Q) <= usize::MAX);
    assert(size_of(cfg, max, Scratch::K) <= usize::MAX);
    lemma_rows(Scratch::H, t, d, max);
    lemma_rows(Scratch::X, t, d, max);
    lemma_rows(Scratch::Proj, t, d, max);
    lemma_rows(Scratch::Gate, t, f, max);
    lemma_rows(Scratch::Up, t, f, max);
    lemma_rows(Scratch::Q, t, q, max);
    lemma_rows(Scratch::Attn, t, q, max);
    lemma_rows(Scratch::K, t, kv, max);
    lemma_rows(Scratch::V, t, kv, max);
    assert(all_in_range(qkv_steps(cfg, il, t), size));
    let (nh, nkv, hd) = (cfg.n_heads as int, l.n_kv_heads as int, l.head_dim as int);
    assert(max * nkv <= usize::MAX);
    assert(t * nh <= max * nh && t * nkv <= max * nkv) by (nonlinear_arith)
        requires
            0 <= t <= max,
            0 <= nh,
            0 <= nkv,
    ;
    lemma_heads(Scratch::Q, t, nh, hd, max);
    lemma_heads(Scratch::K, t, nkv, hd, max);
    lemma_heads(Scratch::V, t, nkv, hd, max);
    assert(all_in_range(head_steps(cfg, il, t, base), size));
    let mid = attn_steps(cfg, il, t, base);
    assert forall|j: int| 0 <= j < mid.len() implies in_range(#[trigger] mid[j], size) by {
        let i = j / 2;
        assert(1 * kv == kv);
        lemma_token(Scratch::K, i, 1, kv, t, max);
        lemma_token(Scratch::V, i, 1, kv, t, max);
        lemma_token(Scratch::Q, i, nh, hd, t, max);
        lemma_token(Scratch::Attn, i, nh, hd, t, max);
    }
    assert(all_in_range(out_steps(cfg, il, t), size));
    assert(all_in_range(ffn_steps(cfg, il, t), size));
    let a = qkv_steps(cfg, il, t) + head_steps(cfg, il, t, base);
    lemma_in_range_concat(qkv_steps(cfg, il, t), head_steps(cfg, il, t, base), size);
    let b = a + attn_steps(cfg, il, t, base);
    lemma_in_range_concat(a, attn_steps(cfg, il, t, base), size);
    lemma_in_range_concat(b, out_steps(cfg, il, t), size);
    lemma_in_range_concat(b + out_steps(cfg, il, t), ffn_steps(cfg, il, t), size);
}

proof fn lemma_layers_in_range(cfg: Config, n: int, t: int, max: int, base: int)
    requires
        sizable(cfg, max),
        0 < t <= max <= usize::MAX,
        0 <= n <= cfg.n_layers,
    ensures
        all_in_range(layers_steps(cfg, n, t, base), |b: Scratch| size_of(cfg, max, b)),
    decreases n,
{
    if n > 0 {
        lemma_layers_in_range(cfg, n - 1, t, max, base);
        lemma_layer_in_range(cfg, n - 1, t, max, base);
        lemma_in_range_concat(
            layers_steps(cfg, n - 1, t, base),
            layer_steps(cfg, n - 1, t, base),
            |b: Scratch| size_of(cfg, max, b),
        );
    }
}

/// No step of a pass leaves its buffers, at any layer and any position.
pub proof fn passes_stay_in_their_buffers(cfg: Config, t: int, max: int, base: int)
    requires
        sizable(cfg, max),
        0 < t <= max <= usize::MAX,
    ensures
        all_in_range(steps(cfg, t, base), |b: Scratch| size_of(cfg, max, b)),
{
    let size = |b: Scratch| size_of(cfg, max, b);
    let d = cfg.d_model as int;
    lemma_rows(Scratch::H, t, d, max);
    lemma_rows(Scratch::Logits, 1, cfg.vocab as int, 1);
    assert(1 * d == d);
    assert(size_of(cfg, max, Scratch::H) <= usize::MAX);
    lemma_token(Scratch::H, t - 1, 1, d, t, max);
    assert(all_in_range(embed_steps(cfg, t), size));
    assert(all_in_range(head_out_steps(cfg, t), size));
    lemma_layers_in_range(cfg, cfg.n_layers as int, t, max, base);
    let a = embed_steps(cfg, t);
    let b = layers_steps(cfg, cfg.n_layers as int, t, base);
    lemma_in_range_concat(a, b, size);
    lemma_in_range_concat(a + b, head_out_steps(cfg, t), size);
}

/// A position of a layer is kept by one of the first `n` steps.
pub open spec fn kept(v: Seq<Step>, n: int, layer: usize, pos: int) -> bool {
    exists|i: int|
        0 <= i < n && (#[trigger] v[i] matches Step::Store { layer: l, pos: p, .. } && l == layer
            && p == pos)
}

/// A step attends to this position of this layer.
pub open spec fn sees(s: Step, layer: usize, p: int) -> bool {
    s matches Step::Attend { layer: l, from, pos, .. } && l == layer && from <= p <= pos
}

/// Attention sees no position that was not kept before: by an earlier pass, which
/// ended at `base`, or by a step before it.
pub open spec fn supplied(v: Seq<Step>, base: int) -> bool {
    forall|j: int, layer: usize, p: int|
        0 <= j < v.len() && #[trigger] sees(v[j], layer, p) ==> p < base || kept(v, j, layer, p)
}

/// No step of these attends.
pub open spec fn attends_nowhere(v: Seq<Step>) -> bool {
    forall|j: int| 0 <= j < v.len() ==> !((#[trigger] v[j]) is Attend)
}

pub(crate) proof fn lemma_supplied_concat(a: Seq<Step>, b: Seq<Step>, base: int)
    requires
        supplied(a, base),
        supplied(b, base),
    ensures
        supplied(a + b, base),
{
    let v = a + b;
    assert forall|j: int, layer: usize, p: int|
        0 <= j < v.len() && #[trigger] sees(v[j], layer, p) implies p < base || kept(
        v,
        j,
        layer,
        p,
    ) by {
        if p >= base {
            if j < a.len() {
                assert(v[j] == a[j]);
                assert(sees(a[j], layer, p));
                assert(kept(a, j, layer, p));
                let i = choose|i: int|
                    0 <= i < j && (#[trigger] a[i] matches Step::Store { layer: l, pos: q, .. } && l
                        == layer && q == p);
                assert(v[i] == a[i]);
            } else {
                let k = j - a.len();
                assert(v[j] == b[k]);
                assert(sees(b[k], layer, p));
                assert(kept(b, k, layer, p));
                let i = choose|i: int|
                    0 <= i < k && (#[trigger] b[i] matches Step::Store { layer: l, pos: q, .. } && l
                        == layer && q == p);
                assert(v[a.len() + i] == b[i]);
            }
        }
    }
}

/// The stores of a batch supply its attention.
proof fn lemma_attn_supplied(cfg: Config, il: int, t: int, base: int)
    requires
        0 <= t,
        0 <= base,
        base + t <= usize::MAX,
        0 <= il <= usize::MAX,
    ensures
        supplied(attn_steps(cfg, il, t, base), base),
{
    let v = attn_steps(cfg, il, t, base);
    assert forall|j: int, layer: usize, p: int|
        0 <= j < v.len() && #[trigger] sees(v[j], layer, p) implies p < base || kept(
        v,
        j,
        layer,
        p,
    ) by {
        if p >= base {
            assert(j % 2 == 1);
            assert(v[j] == attend_step(cfg, il, base, j / 2));
            assert(v[2 * (p - base)] == store_step(cfg, il, base, p - base));
        }
    }
}

proof fn lemma_layers_supplied(cfg: Config, n: int, t: int, base: int)
    requires
        0 <= n <= usize::MAX,
        0 <= t,
        0 <= base,
        base + t <= usize::MAX,
    ensures
        supplied(layers_steps(cfg, n, t, base), base),
    decreases n,
{
    if n > 0 {
        let il = n - 1;
        lemma_layers_supplied(cfg, il, t, base);
        let a = qkv_steps(cfg, il, t) + head_steps(cfg, il, t, base);
        assert(attends_nowhere(qkv_steps(cfg, il, t)));
        assert(attends_nowhere(head_steps(cfg, il, t, base)));
        assert(supplied(a, base));
        lemma_attn_supplied(cfg, il, t, base);
        let b = a + attn_steps(cfg, il, t, base);
        lemma_supplied_concat(a, attn_steps(cfg, il, t, base), base);
        assert(supplied(out_steps(cfg, il, t), base));
        assert(supplied(ffn_steps(cfg, il, t), base));
        lemma_supplied_concat(b, out_steps(cfg, il, t), base);
        lemma_supplied_concat(b + out_steps(cfg, il, t), ffn_steps(cfg, il, t), base);
        lemma_supplied_concat(layers_steps(cfg, il, t, base), layer_steps(cfg, il, t, base), base);
    }
}

/// Attention never sees a position whose key and value were not kept before, neither
/// in the batch nor behind it.
pub proof fn attention_sees_what_was_kept(cfg: Config, t: int, base: int)
    requires
        0 < t,
        0 <= base,
        base + t <= usize::MAX,
    ensures
        supplied(steps(cfg, t, base), base),
{
    lemma_layers_supplied(cfg, cfg.n_layers as int, t, base);
    let a = embed_steps(cfg, t);
    let b = layers_steps(cfg, cfg.n_layers as int, t, base);
    assert(attends_nowhere(a));
    assert(attends_nowhere(head_out_steps(cfg, t)));
    lemma_supplied_concat(a, b, base);
    lemma_supplied_concat(a + b, head_out_steps(cfg, t), base);
}

/// A step keeps this position of this layer.
pub open spec fn stores(s: Step, layer: usize, p: int) -> bool {
    s matches Step::Store { layer: l, pos, .. } && l == layer && pos == p
}

/// A position's slot in the cache of a layer, for a context of `n_ctx`.
pub open spec fn slot_in(cfg: Config, n_ctx: int, layer: usize, p: int) -> int {
    match ring(cfg, layer as int, n_ctx) {
        Some(w) => p % (w as int),
        None => p,
    }
}

/// One of the steps between `i` and `j` keeps this position.
pub open spec fn kept_between(v: Seq<Step>, i: int, j: int, layer: usize, p: int) -> bool {
    exists|k: int| i < k < j && stores(#[trigger] v[k], layer, p)
}

/// What attention sees stands in the cache when it looks: a position that lands in
/// the slot of one it sees is kept before that one is.
pub open spec fn standing(v: Seq<Step>, cfg: Config, n_ctx: int) -> bool {
    forall|i: int, j: int, layer: usize, p: int, q: int|
        0 <= i < j < v.len() && #[trigger] stores(v[i], layer, q) && #[trigger] sees(v[j], layer, p)
            && q != p && slot_in(cfg, n_ctx, layer, q) == slot_in(cfg, n_ctx, layer, p)
            ==> kept_between(v, i, j, layer, p)
}

/// No step of these keeps a position of this layer or of one behind it.
pub open spec fn stores_below(v: Seq<Step>, n: int) -> bool {
    forall|i: int, layer: usize, q: int|
        0 <= i < v.len() && #[trigger] stores(v[i], layer, q) ==> layer < n
}

/// These steps attend to no layer but this one.
pub open spec fn sees_only(v: Seq<Step>, n: int) -> bool {
    forall|j: int, layer: usize, p: int|
        0 <= j < v.len() && #[trigger] sees(v[j], layer, p) ==> layer == n
}

/// No step of these touches a cache.
pub open spec fn cacheless(v: Seq<Step>) -> bool {
    forall|j: int| 0 <= j < v.len() ==> !((#[trigger] v[j]) is Attend) && !(v[j] is Store)
}

proof fn lemma_standing_concat(a: Seq<Step>, b: Seq<Step>, cfg: Config, n_ctx: int, n: int)
    requires
        standing(a, cfg, n_ctx),
        standing(b, cfg, n_ctx),
        stores_below(a, n),
        sees_only(b, n),
    ensures
        standing(a + b, cfg, n_ctx),
{
    let v = a + b;
    assert forall|i: int, j: int, layer: usize, p: int, q: int|
        0 <= i < j < v.len() && #[trigger] stores(v[i], layer, q) && #[trigger] sees(v[j], layer, p)
            && q != p && slot_in(cfg, n_ctx, layer, q) == slot_in(
            cfg,
            n_ctx,
            layer,
            p,
        ) implies kept_between(v, i, j, layer, p) by {
        let m = a.len() as int;
        if j < m {
            assert(stores(a[i], layer, q) && sees(a[j], layer, p));
            assert(kept_between(a, i, j, layer, p));
            let k = choose|k: int| i < k < j && stores(#[trigger] a[k], layer, p);
            assert(stores(v[k], layer, p));
        } else if i >= m {
            assert(stores(b[i - m], layer, q) && sees(b[j - m], layer, p));
            assert(kept_between(b, i - m, j - m, layer, p));
            let k = choose|k: int| i - m < k < j - m && stores(#[trigger] b[k], layer, p);
            assert(v[k + m] == b[k]);
            assert(stores(v[k + m], layer, p));
        } else {
            assert(stores(a[i], layer, q));
            assert(sees(b[j - m], layer, p));
        }
    }
}

/// Steps that touch no cache change nothing, before or behind.
proof fn lemma_standing_around(a: Seq<Step>, b: Seq<Step>, c: Seq<Step>, cfg: Config, n_ctx: int)
    requires
        cacheless(a),
        standing(b, cfg, n_ctx),
        cacheless(c),
    ensures
        standing(a + b + c, cfg, n_ctx),
{
    let v = a + b + c;
    let m = a.len() as int;
    assert forall|i: int, j: int, layer: usize, p: int, q: int|
        0 <= i < j < v.len() && #[trigger] stores(v[i], layer, q) && #[trigger] sees(v[j], layer, p)
            && q != p && slot_in(cfg, n_ctx, layer, q) == slot_in(
            cfg,
            n_ctx,
            layer,
            p,
        ) implies kept_between(v, i, j, layer, p) by {
        assert(i < m ==> v[i] == a[i]);
        assert(j >= m + b.len() ==> v[j] == c[j - m - b.len()]);
        assert(m <= i && j < m + b.len());
        assert(stores(b[i - m], layer, q) && sees(b[j - m], layer, p));
        assert(kept_between(b, i - m, j - m, layer, p));
        let k = choose|k: int| i - m < k < j - m && stores(#[trigger] b[k], layer, p);
        assert(v[k + m] == b[k]);
        assert(stores(v[k + m], layer, p));
    }
}

/// Positions that are visible at once lie in different slots.
proof fn lemma_visible_apart(cfg: Config, n_ctx: int, il: usize, pos: int, p: int, q: int)
    requires
        cfg.layers@[il as int].window matches Some(w) ==> w > 0,
        0 <= pos < n_ctx <= usize::MAX,
        seen_from(cfg.layers@[il as int].window, pos) <= p < q <= pos,
        0 <= p,
    ensures
        slot_in(cfg, n_ctx, il, p) != slot_in(cfg, n_ctx, il, q),
{
    match ring(cfg, il as int, n_ctx) {
        Some(w) => {
            let n = w as int;
            assert(q - p < n);
            if p % n == q % n {
                assert(q - p == n * (q / n - p / n)) by (nonlinear_arith)
                    requires
                        n > 0,
                        p % n == q % n,
                ;
                let d = q / n - p / n;
                assert(n * d >= n || n * d <= 0) by (nonlinear_arith)
                    requires
                        n > 0,
                ;
            }
        },
        None => {},
    }
}

proof fn lemma_attn_standing(cfg: Config, il: int, t: int, base: int, n_ctx: int)
    requires
        0 <= t,
        0 <= base,
        base + t <= n_ctx <= usize::MAX,
        0 <= il <= usize::MAX,
        cfg.layers@[il].window matches Some(w) ==> w > 0,
    ensures
        standing(attn_steps(cfg, il, t, base), cfg, n_ctx),
{
    let v = attn_steps(cfg, il, t, base);
    assert forall|i: int, j: int, layer: usize, p: int, q: int|
        0 <= i < j < v.len() && #[trigger] stores(v[i], layer, q) && #[trigger] sees(v[j], layer, p)
            && q != p && slot_in(cfg, n_ctx, layer, q) == slot_in(
            cfg,
            n_ctx,
            layer,
            p,
        ) implies kept_between(v, i, j, layer, p) by {
        assert(v[i] == store_step(cfg, il, base, i / 2));
        assert(v[j] == attend_step(cfg, il, base, j / 2));
        let pos = base + j / 2;
        assert(q == base + i / 2 && q <= pos && i % 2 == 0 && j % 2 == 1);
        if p < q {
            lemma_visible_apart(cfg, n_ctx, il as usize, pos, p, q);
        } else {
            let k = 2 * (p - base);
            assert(v[k] == store_step(cfg, il, base, p - base));
            assert(i < k < j && stores(v[k], layer, p));
        }
    }
}

proof fn lemma_layers_standing(cfg: Config, n: int, t: int, base: int, n_ctx: int)
    requires
        0 <= n <= cfg.layers@.len(),
        n <= usize::MAX,
        0 <= t,
        0 <= base,
        base + t <= n_ctx <= usize::MAX,
        forall|i: int|
            0 <= i < cfg.layers@.len() ==> ((#[trigger] cfg.layers@[i]).window matches Some(w) ==> w
                > 0),
    ensures
        standing(layers_steps(cfg, n, t, base), cfg, n_ctx),
        stores_below(layers_steps(cfg, n, t, base), n),
    decreases n,
{
    if n > 0 {
        let il = n - 1;
        lemma_layers_standing(cfg, il, t, base, n_ctx);
        let before = layers_steps(cfg, il, t, base);
        let a = qkv_steps(cfg, il, t) + head_steps(cfg, il, t, base);
        let b = attn_steps(cfg, il, t, base);
        let c = out_steps(cfg, il, t) + ffn_steps(cfg, il, t);
        let layer = layer_steps(cfg, il, t, base);
        assert(cacheless(qkv_steps(cfg, il, t)));
        assert(cacheless(head_steps(cfg, il, t, base)));
        assert(cacheless(out_steps(cfg, il, t)));
        assert(cacheless(ffn_steps(cfg, il, t)));
        assert(cacheless(a));
        assert(cacheless(c));
        lemma_attn_standing(cfg, il, t, base, n_ctx);
        lemma_standing_around(a, b, c, cfg, n_ctx);
        assert(layer =~= a + b + c);
        let m = a.len() as int;
        assert forall|j: int, l: usize, p: int|
            0 <= j < layer.len() && (#[trigger] sees(layer[j], l, p) || stores(
                layer[j],
                l,
                p,
            )) implies l == il by {
            assert(j < m ==> layer[j] == a[j]);
            assert(j >= m + b.len() ==> layer[j] == c[j - m - b.len()]);
            assert(layer[j] == b[j - m]);
        }
        lemma_standing_concat(before, layer, cfg, n_ctx, il);
        let v = layers_steps(cfg, n, t, base);
        assert forall|i: int, l: usize, q: int|
            0 <= i < v.len() && #[trigger] stores(v[i], l, q) implies l < n by {
            if i < before.len() {
                assert(stores(before[i], l, q));
            } else {
                let k = i - before.len();
                assert(stores(layer[k], l, q));
                assert(sees(layer[k], l, q) || stores(layer[k], l, q));
            }
        }
    }
}

/// No token finds the row of a position that it sees overwritten: whatever is kept in
/// the same slot was kept earlier. A batch thus reads what its tokens would read one
/// by one.
pub proof fn visible_rows_stand(cfg: Config, t: int, max: int, base: int, n_ctx: int)
    requires
        sizable(cfg, max),
        0 < t,
        0 <= base,
        base + t <= n_ctx <= usize::MAX,
    ensures
        standing(steps(cfg, t, base), cfg, n_ctx),
{
    let n = cfg.n_layers as int;
    assert forall|i: int| 0 <= i < cfg.layers@.len() implies ((
    #[trigger] cfg.layers@[i]).window matches Some(w) ==> w > 0) by {}
    lemma_layers_standing(cfg, n, t, base, n_ctx);
    let a = embed_steps(cfg, t);
    let c = head_out_steps(cfg, t);
    assert(cacheless(a));
    assert(cacheless(c));
    lemma_standing_around(a, layers_steps(cfg, n, t, base), c, cfg, n_ctx);
}

/// Rows, `k` tokens further on.
pub open spec fn moved(r: Rows, k: int) -> Rows {
    Rows { first: (r.first + k * (r.n * r.width)) as usize, ..r }
}

/// A step on the cache, for the token `k` further on in its batch.
pub open spec fn behind(s: Step, k: int) -> Step {
    match s {
        Step::Store { layer, pos, k: key, v } => Step::Store {
            layer,
            pos,
            k: moved(key, k),
            v: moved(v, k),
        },
        Step::Attend { layer, q, out, group, from, pos } => Step::Attend {
            layer,
            q: moved(q, k),
            out: moved(out, k),
            group,
            from,
            pos,
        },
        _ => s,
    }
}

proof fn lemma_moved(buf: Scratch, i: int, n: int, width: int, k: int, max: int)
    requires
        0 <= i,
        0 <= k,
        i + k < max,
        0 <= n <= usize::MAX,
        0 <= width <= usize::MAX,
        max * (n * width) <= usize::MAX,
    ensures
        moved(rows_of(buf, i, n, width), k) == rows_of(buf, i + k, n, width),
{
    let r = n * width;
    assert(0 <= i * r <= max * r && (i + k) * r == i * r + k * r && 0 <= k * r && (i + k) * r <= max
        * r) by (nonlinear_arith)
        requires
            0 <= i,
            0 <= k,
            i + k < max,
            r == n * width,
            0 <= n,
            0 <= width,
    ;
}

/// A batch keeps and attends as its two parts do, one behind the other: the same
/// positions in the same order, each token on its own rows. All other steps of a
/// layer work on every row alone, so batching changes nothing.
pub proof fn batches_attend_as_their_parts(cfg: Config, il: int, a: int, b: int, max: int, base: int)
    requires
        sizable(cfg, max),
        0 <= il < cfg.n_layers,
        0 <= a,
        0 <= b,
        a + b <= max <= usize::MAX,
        0 <= base,
    ensures
        attn_steps(cfg, il, a + b, base) == attn_steps(cfg, il, a, base) + attn_steps(
            cfg,
            il,
            b,
            base + a,
        ).map_values(|s: Step| behind(s, a)),
{
    let whole = attn_steps(cfg, il, a + b, base);
    let first = attn_steps(cfg, il, a, base);
    let second = attn_steps(cfg, il, b, base + a);
    let joined = first + second.map_values(|s: Step| behind(s, a));
    let l = cfg.layers@[il];
    let (nh, hd, kv) = (cfg.n_heads as int, l.head_dim as int, l.kv_width());
    lemma_dims(cfg, il, max);
    assert(size_of(cfg, max, Scratch::Q) <= usize::MAX);
    assert(size_of(cfg, max, Scratch::K) <= usize::MAX);
    assert(1 * kv == kv);
    assert forall|j: int| 0 <= j < whole.len() implies #[trigger] whole[j] == joined[j] by {
        if j >= 2 * a {
            let k = j - 2 * a;
            let i = k / 2;
            assert(j / 2 == i + a && j % 2 == k % 2);
            lemma_moved(Scratch::K, i, 1, kv, a, max);
            lemma_moved(Scratch::V, i, 1, kv, a, max);
            lemma_moved(Scratch::Q, i, nh, hd, a, max);
            lemma_moved(Scratch::Attn, i, nh, hd, a, max);
            assert(joined[j] == behind(second[k], a));
        } else {
            assert(joined[j] == first[j]);
        }
    }
    assert(whole =~= joined);
}

/// The positions that attention sees are those that the layer's cache holds.
pub proof fn attention_sees_the_window(c: LayerCache, pos: int)
    requires
        0 <= pos,
    ensures
        seen_from(c.window, pos) == c.first_of(pos),
{
}

} // verus!
