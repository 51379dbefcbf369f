//! The qwen35 reference forward pass as a program.
//!
//! The block has no post-norms and no residual scaling:
//!
//! ```text
//! h = embed(tok)                          // no sqrt(d) scale
//! per layer:
//!   x = rms(h) * attn_norm
//!   a = delta_net(x)  or  attention(x)    // by what the layer is
//!   h = h + a
//!   y = rms(h) * post_attention_norm      // pre-FFN norm despite the name
//!   h = h + Wd (silu(Wg y) * Wu y)
//! logits = output * (rms(h) * output_norm)
//! ```
//!
//! Where the query projection is fused with an output gate, each head is `[query |
//! gate]`: only the query half is normalized and rotated, and the other half opens the
//! attention's output.

use crate::cpu::{
    all_in_range, all_rows, check_pass, kept, lemma_heads, lemma_in_range_concat, lemma_rows,
    lemma_supplied_concat, lemma_token, pass_error, rows, rows_of, sees, supplied, token_rows, within,
    Gain, Label, Matrix, PassError, Rows, Scratch, Step,
};
use crate::qwen35::config::Config;
use vstd::prelude::*;

verus! {

/// Width of a head in the query projection.
pub open spec fn stride(cfg: Config) -> int {
    if cfg.query_gate {
        2 * cfg.head_dim
    } else {
        cfg.head_dim as int
    }
}

/// Width of the query projection.
pub open spec fn q_width(cfg: Config) -> int {
    cfg.n_heads * stride(cfg)
}

/// Width of the attention's output.
pub open spec fn attn_width(cfg: Config) -> int {
    cfg.n_heads * cfg.head_dim
}

/// The queries of all heads of a batch.
pub open spec fn queries(cfg: Config, t: int) -> Rows {
    Rows {
        buf: Scratch::Q,
        first: 0,
        n: (t * cfg.n_heads) as usize,
        width: cfg.head_dim,
        stride: stride(cfg) as usize,
    }
}

/// The gates beside them.
pub open spec fn gates(cfg: Config, t: int) -> Rows {
    Rows { first: cfg.head_dim, ..queries(cfg, t) }
}

/// The queries of one token.
pub open spec fn query(cfg: Config, i: int) -> Rows {
    Rows {
        buf: Scratch::Q,
        first: (i * q_width(cfg)) as usize,
        n: cfg.n_heads,
        width: cfg.head_dim,
        stride: stride(cfg) as usize,
    }
}

/// The norm before attention.
pub open spec fn norm_steps(cfg: Config, il: int, t: int) -> Seq<Step> {
    let i = il as usize;
    let x = rows(Scratch::X, t, cfg.d_model as int);
    seq![
        Step::Copy { from: rows(Scratch::H, t, cfg.d_model as int), to: x },
        Step::Norm { rows: x, gain: Some(Gain::AttnNorm(i)) },
        Step::Mark { label: Label::AttnNorm(i), rows: x },
    ]
}

/// A linear-attention layer.
pub open spec fn linear_steps(cfg: Config, il: int, t: int) -> Seq<Step> {
    let i = il as usize;
    let x = rows(Scratch::X, t, cfg.d_model as int);
    let mixed = rows(Scratch::Q, t, cfg.conv_width());
    let z = rows(Scratch::Z, t, cfg.d_inner as int);
    let alpha = rows(Scratch::Alpha, t, cfg.n_v_heads as int);
    let beta = rows(Scratch::Beta, t, cfg.n_v_heads as int);
    let out = rows(Scratch::Attn, t, cfg.d_inner as int);
    let proj = rows(Scratch::Proj, t, cfg.d_model as int);
    seq![
        Step::Project { matrix: Matrix::Qkv(i), x, y: mixed },
        Step::Mark { label: Label::QkvMixed(i), rows: mixed },
        Step::Project { matrix: Matrix::LinearGate(i), x, y: z },
        Step::Mark { label: Label::Z(i), rows: z },
        Step::Project { matrix: Matrix::Alpha(i), x, y: alpha },
        Step::Mark { label: Label::Alpha(i), rows: alpha },
        Step::Project { matrix: Matrix::Beta(i), x, y: beta },
        Step::Mark { label: Label::Beta(i), rows: beta },
        Step::Recur { layer: i, mixed, alpha, beta, out },
        Step::Mark { label: Label::AttnOutput(i), rows: out },
        Step::GatedNorm {
            layer: i,
            heads: rows(Scratch::Attn, t * cfg.n_v_heads, cfg.lin_head_dim as int),
            z,
        },
        Step::Mark { label: Label::FinalOutput(i), rows: out },
        Step::Project { matrix: Matrix::LinearOut(i), x: out, y: proj },
        Step::Mark { label: Label::LinearOut(i), rows: proj },
    ]
}

/// The projections, norms and rotations of a full-attention layer.
pub open spec fn qkv_steps(cfg: Config, il: int, t: int, base: int) -> Seq<Step> {
    let i = il as usize;
    let x = rows(Scratch::X, t, cfg.d_model as int);
    let full = rows(Scratch::Q, t, q_width(cfg));
    let k = rows(Scratch::K, t, cfg.kv_width());
    let v = rows(Scratch::V, t, cfg.kv_width());
    let keys = rows(Scratch::K, t * cfg.n_kv_heads, cfg.head_dim as int);
    seq![
        Step::Project { matrix: Matrix::Query(i), x, y: full },
        Step::Mark { label: Label::QueryFull(i), rows: full },
        Step::Project { matrix: Matrix::Key(i), x, y: k },
        Step::Mark { label: Label::Key(i), rows: k },
        Step::Project { matrix: Matrix::Value(i), x, y: v },
        Step::Mark { label: Label::Value(i), rows: v },
        Step::Norm { rows: queries(cfg, t), gain: Some(Gain::QueryNorm(i)) },
        Step::Rotate {
            rows: queries(cfg, t),
            turning: cfg.n_rot,
            per_token: cfg.n_heads,
            base_pos: base as usize,
            layer: i,
            factors: false,
        },
        Step::Norm { rows: keys, gain: Some(Gain::KeyNorm(i)) },
        Step::Rotate {
            rows: keys,
            turning: cfg.n_rot,
            per_token: cfg.n_kv_heads,
            base_pos: base as usize,
            layer: i,
            factors: false,
        },
        Step::Mark { label: Label::Query(i), rows: queries(cfg, t) },
        Step::Mark { label: Label::KeyPos(i), rows: keys },
    ]
}

pub open spec fn store_step(cfg: Config, il: int, base: int, i: int) -> Step {
    Step::Store {
        layer: il as usize,
        pos: (base + i) as usize,
        k: rows_of(Scratch::K, i, 1, cfg.kv_width()),
        v: rows_of(Scratch::V, i, 1, cfg.kv_width()),
    }
}

pub open spec fn attend_step(cfg: Config, il: int, base: int, i: int) -> Step {
    Step::Attend {
        layer: il as usize,
        q: query(cfg, i),
        out: rows_of(Scratch::Attn, i, cfg.n_heads as int, cfg.head_dim as int),
        group: (cfg.n_heads as int / cfg.n_kv_heads as int) as usize,
        from: 0,
        pos: (base + i) as usize,
    }
}

/// Every position of the batch is kept, then each token attends.
pub open spec fn attn_steps(cfg: Config, il: int, t: int, base: int) -> Seq<Step> {
    Seq::new(t as nat, |i: int| store_step(cfg, il, base, i)) + Seq::new(
        t as nat,
        |i: int| attend_step(cfg, il, base, i),
    )
}

/// The gates and the output projection of a full-attention layer.
pub open spec fn out_steps(cfg: Config, il: int, t: int) -> Seq<Step> {
    let i = il as usize;
    let attn = rows(Scratch::Attn, t, attn_width(cfg));
    let proj = rows(Scratch::Proj, t, cfg.d_model as int);
    (if cfg.query_gate {
        seq![
            Step::Open {
                rows: rows(Scratch::Attn, t * cfg.n_heads, cfg.head_dim as int),
                by: gates(cfg, t),
            },
        ]
    } else {
        Seq::empty()
    }) + seq![
        Step::Mark { label: Label::AttnGated(i), rows: attn },
        Step::Project { matrix: Matrix::AttnOutput(i), x: attn, y: proj },
        Step::Mark { label: Label::AttnOutput(i), rows: proj },
    ]
}

/// Residual, norm, feed-forward, residual.
pub open spec fn ffn_steps(cfg: Config, il: int, t: int) -> Seq<Step> {
    let i = il as usize;
    let h = rows(Scratch::H, t, cfg.d_model as int);
    let x = rows(Scratch::X, t, cfg.d_model as int);
    let gate = rows(Scratch::Gate, t, cfg.ffn_dim as int);
    let up = rows(Scratch::Up, t, cfg.ffn_dim as int);
    let proj = rows(Scratch::Proj, t, cfg.d_model as int);
    seq![
        Step::Add { to: h, from: proj },
        Step::Mark { label: Label::AttnResidual(i), rows: h },
        Step::Copy { from: h, to: x },
        Step::Norm { rows: x, gain: Some(Gain::PostAttentionNorm(i)) },
        Step::Mark { label: Label::AttnPostNorm(i), rows: x },
        Step::Project { matrix: Matrix::FfnGate(i), x, y: gate },
        Step::Project { matrix: Matrix::FfnUp(i), x, y: up },
        Step::Swiglu { gate, up },
        Step::Project { matrix: Matrix::FfnDown(i), x: gate, y: proj },
        Step::Mark { label: Label::FfnOut(i), rows: proj },
        Step::Add { to: h, from: proj },
        Step::Mark { label: Label::LayerOut(i), rows: h },
    ]
}

/// What stands between the norms.
pub open spec fn mixer_steps(cfg: Config, il: int, t: int, base: int) -> Seq<Step> {
    if cfg.recurrent@[il] {
        linear_steps(cfg, il, t)
    } else {
        qkv_steps(cfg, il, t, base) + attn_steps(cfg, il, t, base) + out_steps(cfg, il, t)
    }
}

/// One layer.
pub open spec fn layer_steps(cfg: Config, il: int, t: int, base: int) -> Seq<Step> {
    norm_steps(cfg, il, t) + mixer_steps(cfg, il, t, base) + ffn_steps(cfg, il, t)
}

/// The first `n` layers.
pub open spec fn layers_steps(cfg: Config, n: int, t: int, base: int) -> Seq<Step>
    decreases n,
{
    if n <= 0 {
        Seq::empty()
    } else {
        layers_steps(cfg, n - 1, t, base) + layer_steps(cfg, n - 1, t, base)
    }
}

/// The embedding gather.
pub open spec fn embed_steps(cfg: Config, t: int) -> Seq<Step> {
    let h = rows(Scratch::H, t, cfg.d_model as int);
    seq![Step::Embed(h), Step::Mark { label: Label::InputEmbed, rows: h }]
}

/// The output head: logits of the last token only.
pub open spec fn head_out_steps(cfg: Config, t: int) -> Seq<Step> {
    let last = rows_of(Scratch::H, t - 1, 1, cfg.d_model as int);
    let logits = rows(Scratch::Logits, 1, cfg.vocab as int);
    seq![
        Step::Norm {
            rows: rows(Scratch::H, t, cfg.d_model as int),
            gain: Some(Gain::OutputNorm),
        },
        Step::Mark { label: Label::ResultNorm, rows: last },
        Step::Project { matrix: Matrix::Output, x: last, y: logits },
        Step::Mark { label: Label::ResultOutput, rows: logits },
    ]
}

/// The whole pass over `t` tokens, the first at position `base`.
pub open spec fn steps(cfg: Config, t: int, base: int) -> Seq<Step> {
    embed_steps(cfg, t) + layers_steps(cfg, cfg.n_layers as int, t, base) + head_out_steps(cfg, t)
}

pub open spec fn wider(a: int, b: int) -> int {
    if a > b {
        a
    } else {
        b
    }
}

/// How large each buffer is for batches of up to `max`.
pub open spec fn size_of(cfg: Config, max: int, b: Scratch) -> int {
    match b {
        Scratch::H => max * cfg.d_model,
        Scratch::X => max * cfg.d_model,
        Scratch::Q => max * wider(q_width(cfg), cfg.conv_width()),
        Scratch::K => max * cfg.kv_width(),
        Scratch::V => max * cfg.kv_width(),
        Scratch::Attn => max * wider(attn_width(cfg), cfg.d_inner as int),
        Scratch::Proj => max * cfg.d_model,
        Scratch::Gate => max * cfg.ffn_dim,
        Scratch::Up => max * cfg.ffn_dim,
        Scratch::Z => max * cfg.d_inner,
        Scratch::Alpha => max * cfg.n_v_heads,
        Scratch::Beta => max * cfg.n_v_heads,
        Scratch::Logits => cfg.vocab as int,
    }
}

/// Every buffer for batches of up to `max` can be counted, and the description is
/// consistent.
pub open spec fn sizable(cfg: Config, max: int) -> bool {
    &&& cfg.recurrent@.len() == cfg.n_layers
    &&& 0 < cfg.n_kv_heads
    &&& cfg.n_rot <= cfg.head_dim
    &&& cfg.d_inner == cfg.n_v_heads * cfg.lin_head_dim
    &&& 2 * cfg.head_dim <= usize::MAX
    &&& 2 * cfg.n_k_heads <= usize::MAX
    &&& q_width(cfg) <= usize::MAX
    &&& attn_width(cfg) <= usize::MAX
    &&& cfg.conv_width() <= usize::MAX
    &&& cfg.kv_width() <= usize::MAX
    &&& max * cfg.n_heads <= usize::MAX
    &&& max * cfg.n_kv_heads <= usize::MAX
    &&& max * cfg.n_v_heads <= usize::MAX
    &&& forall|b: Scratch| #[trigger] size_of(cfg, max, b) <= usize::MAX
}

/// What the products of a batch come to.
pub(crate) proof fn lemma_products(cfg: Config, t: int, max: int)
    requires
        sizable(cfg, max),
        0 <= t <= max,
    ensures
        0 <= t * cfg.n_heads <= usize::MAX,
        0 <= t * cfg.n_kv_heads <= usize::MAX,
        0 <= t * cfg.n_v_heads <= usize::MAX,
        0 <= q_width(cfg),
        0 <= attn_width(cfg),
        0 <= cfg.kv_width(),
        0 <= cfg.conv_width(),
        0 <= max * q_width(cfg) <= size_of(cfg, max, Scratch::Q) <= usize::MAX,
        0 <= max * cfg.conv_width() <= size_of(cfg, max, Scratch::Q),
        0 <= max * attn_width(cfg) <= size_of(cfg, max, Scratch::Attn) <= usize::MAX,
        0 <= max * cfg.d_inner <= size_of(cfg, max, Scratch::Attn),
        0 <= max * cfg.kv_width() <= usize::MAX,
        0 <= max * cfg.d_model <= usize::MAX,
{
    let (a, b, c) = (cfg.n_heads as int, cfg.n_kv_heads as int, cfg.n_v_heads as int);
    assert(0 <= t * a <= max * a && 0 <= t * b <= max * b && 0 <= t * c <= max * c)
        by (nonlinear_arith)
        requires
            0 <= t <= max,
            0 <= a,
            0 <= b,
            0 <= c,
    ;
    let (s, hd) = (stride(cfg), cfg.head_dim as int);
    assert(0 <= a * s && 0 <= a * hd && 0 <= b * hd) by (nonlinear_arith)
        requires
            0 <= a,
            0 <= b,
            0 <= s,
            0 <= hd,
    ;
    let (nk, lin) = (cfg.n_k_heads as int, cfg.lin_head_dim as int);
    assert(0 <= 2 * nk * lin) by (nonlinear_arith)
        requires
            0 <= nk,
            0 <= lin,
    ;
    let (q, cv, at, di) = (q_width(cfg), cfg.conv_width(), attn_width(cfg), cfg.d_inner as int);
    let (w1, w2, kv, d) = (wider(q, cv), wider(at, di), cfg.kv_width(), cfg.d_model as int);
    assert(0 <= max * q <= max * w1 && 0 <= max * cv <= max * w1 && 0 <= max * at <= max * w2 && 0
        <= max * di <= max * w2 && 0 <= max * kv && 0 <= max * d) by (nonlinear_arith)
        requires
            0 <= max,
            0 <= q <= w1,
            0 <= cv <= w1,
            0 <= at <= w2,
            0 <= di <= w2,
            0 <= kv,
            0 <= d,
    ;
    assert(size_of(cfg, max, Scratch::Q) <= usize::MAX);
    assert(size_of(cfg, max, Scratch::Attn) <= usize::MAX);
    assert(size_of(cfg, max, Scratch::K) <= usize::MAX);
    assert(size_of(cfg, max, Scratch::H) <= usize::MAX);
}

fn push_linear(cfg: &Config, il: usize, t: usize, max: usize, v: &mut Vec<Step>)
    requires
        sizable(*cfg, max as int),
        t <= max,
    ensures
        final(v)@ == old(v)@ + linear_steps(*cfg, il as int, t as int),
{
    let ghost before = v@;
    proof {
        lemma_products(*cfg, t as int, max as int);
    }
    let x = all_rows(Scratch::X, t, cfg.d_model);
    let mixed = all_rows(Scratch::Q, t, cfg.conv_dim());
    let z = all_rows(Scratch::Z, t, cfg.d_inner);
    let alpha = all_rows(Scratch::Alpha, t, cfg.n_v_heads);
    let beta = all_rows(Scratch::Beta, t, cfg.n_v_heads);
    let out = all_rows(Scratch::Attn, t, cfg.d_inner);
    let proj = all_rows(Scratch::Proj, t, cfg.d_model);
    let heads = all_rows(Scratch::Attn, t * cfg.n_v_heads, cfg.lin_head_dim);
    v.push(Step::Project { matrix: Matrix::Qkv(il), x, y: mixed });
    v.push(Step::Mark { label: Label::QkvMixed(il), rows: mixed });
    v.push(Step::Project { matrix: Matrix::LinearGate(il), x, y: z });
    v.push(Step::Mark { label: Label::Z(il), rows: z });
    v.push(Step::Project { matrix: Matrix::Alpha(il), x, y: alpha });
    v.push(Step::Mark { label: Label::Alpha(il), rows: alpha });
    v.push(Step::Project { matrix: Matrix::Beta(il), x, y: beta });
    v.push(Step::Mark { label: Label::Beta(il), rows: beta });
    v.push(Step::Recur { layer: il, mixed, alpha, beta, out });
    v.push(Step::Mark { label: Label::AttnOutput(il), rows: out });
    v.push(Step::GatedNorm { layer: il, heads, z });
    v.push(Step::Mark { label: Label::FinalOutput(il), rows: out });
    v.push(Step::Project { matrix: Matrix::LinearOut(il), x: out, y: proj });
    v.push(Step::Mark { label: Label::LinearOut(il), rows: proj });
    assert(v@ =~= before + linear_steps(*cfg, il as int, t as int));
}

fn head_stride(cfg: &Config) -> (r: usize)
    requires
        2 * cfg.head_dim <= usize::MAX,
    ensures
        r == stride(*cfg),
{
    cfg.q_stride()
}

fn push_qkv(cfg: &Config, il: usize, t: usize, base: usize, max: usize, v: &mut Vec<Step>)
    requires
        sizable(*cfg, max as int),
        t <= max,
    ensures
        final(v)@ == old(v)@ + qkv_steps(*cfg, il as int, t as int, base as int),
{
    let ghost before = v@;
    proof {
        lemma_products(*cfg, t as int, max as int);
    }
    let s: usize = head_stride(cfg);
    let x = all_rows(Scratch::X, t, cfg.d_model);
    let full = all_rows(Scratch::Q, t, cfg.n_heads * s);
    let k = all_rows(Scratch::K, t, cfg.kv_dim());
    let val = all_rows(Scratch::V, t, cfg.kv_dim());
    let keys = all_rows(Scratch::K, t * cfg.n_kv_heads, cfg.head_dim);
    let q = Rows {
        buf: Scratch::Q,
        first: 0,
        n: t * cfg.n_heads,
        width: cfg.head_dim,
        stride: s,
    };
    v.push(Step::Project { matrix: Matrix::Query(il), x, y: full });
    v.push(Step::Mark { label: Label::QueryFull(il), rows: full });
    v.push(Step::Project { matrix: Matrix::Key(il), x, y: k });
    v.push(Step::Mark { label: Label::Key(il), rows: k });
    v.push(Step::Project { matrix: Matrix::Value(il), x, y: val });
    v.push(Step::Mark { label: Label::Value(il), rows: val });
    v.push(Step::Norm { rows: q, gain: Some(Gain::QueryNorm(il)) });
    v.push(
        Step::Rotate {
            rows: q,
            turning: cfg.n_rot,
            per_token: cfg.n_heads,
            base_pos: base,
            layer: il,
            factors: false,
        },
    );
    v.push(Step::Norm { rows: keys, gain: Some(Gain::KeyNorm(il)) });
    v.push(
        Step::Rotate {
            rows: keys,
            turning: cfg.n_rot,
            per_token: cfg.n_kv_heads,
            base_pos: base,
            layer: il,
            factors: false,
        },
    );
    v.push(Step::Mark { label: Label::Query(il), rows: q });
    v.push(Step::Mark { label: Label::KeyPos(il), rows: keys });
    assert(v@ =~= before + qkv_steps(*cfg, il as int, t as int, base as int));
}

fn push_attention(cfg: &Config, il: usize, t: usize, base: usize, max: usize, v: &mut Vec<Step>)
    requires
        sizable(*cfg, max as int),
        t <= max,
        base + t <= usize::MAX,
    ensures
        final(v)@ == old(v)@ + attn_steps(*cfg, il as int, t as int, base as int),
{
    let ghost before = v@;
    let ghost stores = Seq::new(
        t as nat,
        |i: int| store_step(*cfg, il as int, base as int, i),
    );
    let ghost attends = Seq::new(
        t as nat,
        |i: int| attend_step(*cfg, il as int, base as int, i),
    );
    let kv: usize = cfg.kv_dim();
    let mut i: usize = 0;
    assert(before + stores.take(0) =~= before);
    while i < t
        invariant
            i <= t,
            t <= max,
            sizable(*cfg, max as int),
            kv == cfg.kv_width(),
            base + t <= usize::MAX,
            stores == Seq::new(t as nat, |i: int| store_step(*cfg, il as int, base as int, i)),
            v@ == before + stores.take(i as int),
        decreases t - i,
    {
        proof {
            lemma_products(*cfg, t as int, max as int);
            let (a, m, w) = (i as int, max as int, kv as int);
            assert(0 <= a * w <= m * w) by (nonlinear_arith)
                requires
                    0 <= a <= m,
                    0 <= w,
            ;
            assert(1 * w == w);
        }
        let s = Step::Store {
            layer: il,
            pos: base + i,
            k: token_rows(Scratch::K, i, 1, kv),
            v: token_rows(Scratch::V, i, 1, kv),
        };
        v.push(s);
        assert(s == stores[i as int]);
        assert((before + stores.take(i as int)).push(s) =~= before + stores.take(i + 1));
        i = i + 1;
    }
    assert(stores.take(t as int) =~= stores);
    let ghost so_far = v@;
    let group: usize = cfg.n_heads / cfg.n_kv_heads;
    let s: usize = head_stride(cfg);
    let q: usize = cfg.n_heads * s;
    let mut i: usize = 0;
    assert(so_far + attends.take(0) =~= so_far);
    while i < t
        invariant
            i <= t,
            t <= max,
            sizable(*cfg, max as int),
            s == stride(*cfg),
            q == q_width(*cfg),
            group == cfg.n_heads as int / cfg.n_kv_heads as int,
            base + t <= usize::MAX,
            attends == Seq::new(t as nat, |i: int| attend_step(*cfg, il as int, base as int, i)),
            v@ == so_far + attends.take(i as int),
        decreases t - i,
    {
        proof {
            lemma_products(*cfg, t as int, max as int);
            let (a, m, w, x) = (i as int, max as int, q as int, attn_width(*cfg));
            assert(0 <= a * w <= m * w && 0 <= a * x <= m * x) by (nonlinear_arith)
                requires
                    0 <= a <= m,
                    0 <= w,
                    0 <= x,
            ;
        }
        let step = Step::Attend {
            layer: il,
            q: Rows {
                buf: Scratch::Q,
                first: i * q,
                n: cfg.n_heads,
                width: cfg.head_dim,
                stride: s,
            },
            out: token_rows(Scratch::Attn, i, cfg.n_heads, cfg.head_dim),
            group,
            from: 0,
            pos: base + i,
        };
        v.push(step);
        assert(step == attends[i as int]);
        assert((so_far + attends.take(i as int)).push(step) =~= so_far + attends.take(i + 1));
        i = i + 1;
    }
    assert(attends.take(t as int) =~= attends);
    assert(v@ =~= before + (stores + attends));
}

fn push_out(cfg: &Config, il: usize, t: usize, max: usize, v: &mut Vec<Step>)
    requires
        sizable(*cfg, max as int),
        t <= max,
    ensures
        final(v)@ == old(v)@ + out_steps(*cfg, il as int, t as int),
{
    let ghost before = v@;
    proof {
        lemma_products(*cfg, t as int, max as int);
    }
    let attn = all_rows(Scratch::Attn, t, cfg.n_heads * cfg.head_dim);
    let proj = all_rows(Scratch::Proj, t, cfg.d_model);
    if cfg.query_gate {
        let heads = all_rows(Scratch::Attn, t * cfg.n_heads, cfg.head_dim);
        let by = Rows {
            buf: Scratch::Q,
            first: cfg.head_dim,
            n: t * cfg.n_heads,
            width: cfg.head_dim,
            stride: head_stride(cfg),
        };
        v.push(Step::Open { rows: heads, by });
    }
    v.push(Step::Mark { label: Label::AttnGated(il), rows: attn });
    v.push(Step::Project { matrix: Matrix::AttnOutput(il), x: attn, y: proj });
    v.push(Step::Mark { label: Label::AttnOutput(il), rows: proj });
    assert(v@ =~= before + out_steps(*cfg, il as int, t as int));
}

fn push_ffn(cfg: &Config, il: usize, t: usize, v: &mut Vec<Step>)
    ensures
        final(v)@ == old(v)@ + ffn_steps(*cfg, il as int, t as int),
{
    let ghost before = v@;
    let h = all_rows(Scratch::H, t, cfg.d_model);
    let x = all_rows(Scratch::X, t, cfg.d_model);
    let gate = all_rows(Scratch::Gate, t, cfg.ffn_dim);
    let up = all_rows(Scratch::Up, t, cfg.ffn_dim);
    let proj = all_rows(Scratch::Proj, t, cfg.d_model);
    v.push(Step::Add { to: h, from: proj });
    v.push(Step::Mark { label: Label::AttnResidual(il), rows: h });
    v.push(Step::Copy { from: h, to: x });
    v.push(Step::Norm { rows: x, gain: Some(Gain::PostAttentionNorm(il)) });
    v.push(Step::Mark { label: Label::AttnPostNorm(il), rows: x });
    v.push(Step::Project { matrix: Matrix::FfnGate(il), x, y: gate });
    v.push(Step::Project { matrix: Matrix::FfnUp(il), x, y: up });
    v.push(Step::Swiglu { gate, up });
    v.push(Step::Project { matrix: Matrix::FfnDown(il), x: gate, y: proj });
    v.push(Step::Mark { label: Label::FfnOut(il), rows: proj });
    v.push(Step::Add { to: h, from: proj });
    v.push(Step::Mark { label: Label::LayerOut(il), rows: h });
    assert(v@ =~= before + ffn_steps(*cfg, il as int, t as int));
}

fn push_layer(cfg: &Config, il: usize, t: usize, base: usize, max: usize, v: &mut Vec<Step>)
    requires
        sizable(*cfg, max as int),
        t <= max,
        il < cfg.n_layers,
        base + t <= usize::MAX,
    ensures
        final(v)@ == old(v)@ + layer_steps(*cfg, il as int, t as int, base as int),
{
    let ghost before = v@;
    let x = all_rows(Scratch::X, t, cfg.d_model);
    v.push(Step::Copy { from: all_rows(Scratch::H, t, cfg.d_model), to: x });
    v.push(Step::Norm { rows: x, gain: Some(Gain::AttnNorm(il)) });
    v.push(Step::Mark { label: Label::AttnNorm(il), rows: x });
    assert(v@ =~= before + norm_steps(*cfg, il as int, t as int));
    let ghost normed = v@;
    if cfg.recurrent[il] {
        push_linear(cfg, il, t, max, v);
    } else {
        push_qkv(cfg, il, t, base, max, v);
        push_attention(cfg, il, t, base, max, v);
        push_out(cfg, il, t, max, v);
        assert(v@ =~= normed + mixer_steps(*cfg, il as int, t as int, base as int));
    }
    push_ffn(cfg, il, t, v);
    assert(v@ =~= before + layer_steps(*cfg, il as int, t as int, base as int));
}

/// The reference pass of a model, for batches of up to `max` tokens.
pub struct Cpu<'a> {
    pub cfg: &'a Config,
    pub max: usize,
}

impl<'a> Cpu<'a> {
    pub open spec fn wf(&self) -> bool {
        sizable(*self.cfg, self.max as int)
    }

    pub fn new(cfg: &'a Config, max: usize) -> (r: Cpu<'a>)
        requires
            sizable(*cfg, max as int),
        ensures
            r.wf(),
            r.cfg == cfg,
            r.max == max,
    {
        Cpu { cfg, max }
    }

    /// The pass over `t` tokens, the first at position `base`.
    pub fn forward_traced(&self, t: usize, base: usize, capacity: usize) -> (r: Result<
        Vec<Step>,
        PassError,
    >)
        requires
            self.wf(),
        ensures
            match r {
                Ok(v) => {
                    &&& pass_error(t, self.max, base, capacity) is None
                    &&& v@ == steps(*self.cfg, t as int, base as int)
                },
                Err(e) => pass_error(t, self.max, base, capacity) == Some(e),
            },
    {
        let cfg = self.cfg;
        let max: usize = self.max;
        check_pass(t, max, base, capacity)?;
        let mut v: Vec<Step> = Vec::new();
        let h = all_rows(Scratch::H, t, cfg.d_model);
        v.push(Step::Embed(h));
        v.push(Step::Mark { label: Label::InputEmbed, rows: h });
        let ghost front = embed_steps(*cfg, t as int);
        assert(v@ =~= front + layers_steps(*cfg, 0, t as int, base as int));
        let mut il: usize = 0;
        while il < cfg.n_layers
            invariant
                il <= cfg.n_layers,
                sizable(*cfg, max as int),
                0 < t <= max,
                base + t <= usize::MAX,
                v@ == front + layers_steps(*cfg, il as int, t as int, base as int),
            decreases cfg.n_layers - il,
        {
            push_layer(cfg, il, t, base, max, &mut v);
            assert(v@ =~= front + (layers_steps(*cfg, il as int, t as int, base as int) + layer_steps(
                *cfg,
                il as int,
                t as int,
                base as int,
            )));
            il = il + 1;
        }
        proof {
            lemma_products(*cfg, t as int, max as int);
            let (a, m, d) = (t - 1, max as int, cfg.d_model as int);
            assert(0 <= a * d <= m * d) by (nonlinear_arith)
                requires
                    0 <= a <= m,
                    0 <= d,
            ;
            assert(1 * d == d);
        }
        let last = token_rows(Scratch::H, t - 1, 1, cfg.d_model);
        let logits = all_rows(Scratch::Logits, 1, cfg.vocab);
        v.push(Step::Norm { rows: h, gain: Some(Gain::OutputNorm) });
        v.push(Step::Mark { label: Label::ResultNorm, rows: last });
        v.push(Step::Project { matrix: Matrix::Output, x: last, y: logits });
        v.push(Step::Mark { label: Label::ResultOutput, rows: logits });
        assert(v@ =~= steps(*cfg, t as int, base as int));
        Ok(v)
    }
}

// ---------------------------------------------------------------------------
// Buffers
// ---------------------------------------------------------------------------
fn wider_of(a: usize, b: usize) -> (r: usize)
    ensures
        r == wider(a as int, b as int),
{
    if a > b {
        a
    } else {
        b
    }
}

/// Whether batches of up to `max` can run at all: every buffer can be counted, and
/// the description is consistent.
pub fn can_run(cfg: &Config, max: usize) -> (r: bool)
    ensures
        r == sizable(*cfg, max as int),
{
    let ghost m = max as int;
    if cfg.recurrent.len() != cfg.n_layers || cfg.n_kv_heads == 0 || cfg.n_rot > cfg.head_dim
        || !within(2, cfg.head_dim) || !within(2, cfg.n_k_heads) {
        return false;
    }
    let s: usize = head_stride(cfg);
    if !within(cfg.n_heads, s) || !within(cfg.n_heads, cfg.head_dim) || !within(
        cfg.n_kv_heads,
        cfg.head_dim,
    ) || !within(max, cfg.n_heads) || !within(max, cfg.n_kv_heads) || !within(max, cfg.n_v_heads)
        || !within(2 * cfg.n_k_heads, cfg.lin_head_dim) {
        proof {
            assert(2 * cfg.n_k_heads * cfg.lin_head_dim <= cfg.conv_width());
        }
        return false;
    }
    match cfg.n_v_heads.checked_mul(cfg.lin_head_dim) {
        Some(d) => if d != cfg.d_inner {
            return false;
        },
        None => {
            return false;
        },
    }
    let qk: usize = 2 * cfg.n_k_heads * cfg.lin_head_dim;
    match qk.checked_add(cfg.d_inner) {
        Some(conv) => {
            let q: usize = wider_of(cfg.n_heads * s, conv);
            let a: usize = wider_of(cfg.n_heads * cfg.head_dim, cfg.d_inner);
            let kv: usize = cfg.n_kv_heads * cfg.head_dim;
            let r: bool = within(max, cfg.d_model) && within(max, q) && within(max, kv) && within(
                max,
                a,
            ) && within(max, cfg.ffn_dim) && within(max, cfg.d_inner);
            proof {
                assert(size_of(*cfg, m, Scratch::H) == m * cfg.d_model);
                assert(size_of(*cfg, m, Scratch::Q) == m * q);
                assert(size_of(*cfg, m, Scratch::K) == m * kv);
                assert(size_of(*cfg, m, Scratch::Attn) == m * a);
                assert(size_of(*cfg, m, Scratch::Gate) == m * cfg.ffn_dim);
                assert(size_of(*cfg, m, Scratch::Z) == m * cfg.d_inner);
                if r {
                    assert forall|b: Scratch| #[trigger] size_of(*cfg, m, b) <= usize::MAX by {}
                }
            }
            r
        },
        None => false,
    }
}

/// How large a buffer is for batches of up to `max`.
pub fn buffer_size(cfg: &Config, max: usize, b: Scratch) -> (r: usize)
    requires
        sizable(*cfg, max as int),
    ensures
        r == size_of(*cfg, max as int, b),
{
    proof {
        assert(size_of(*cfg, max as int, b) <= usize::MAX);
        lemma_products(*cfg, 0, max as int);
    }
    match b {
        Scratch::H => max * cfg.d_model,
        Scratch::X => max * cfg.d_model,
        Scratch::Q => max * wider_of(cfg.n_heads * head_stride(cfg), cfg.conv_dim()),
        Scratch::K => max * cfg.kv_dim(),
        Scratch::V => max * cfg.kv_dim(),
        Scratch::Attn => max * wider_of(cfg.n_heads * cfg.head_dim, cfg.d_inner),
        Scratch::Proj => max * cfg.d_model,
        Scratch::Gate => max * cfg.ffn_dim,
        Scratch::Up => max * cfg.ffn_dim,
        Scratch::Z => max * cfg.d_inner,
        Scratch::Alpha => max * cfg.n_v_heads,
        Scratch::Beta => max * cfg.n_v_heads,
        Scratch::Logits => cfg.vocab,
    }
}

// ---------------------------------------------------------------------------
// What holds of a pass
// ---------------------------------------------------------------------------
/// Query rows end within the query projection.
proof fn lemma_queries(cfg: Config, t: int, max: int)
    requires
        sizable(cfg, max),
        0 <= t <= max,
    ensures
        queries(cfg, t).end() <= max * q_width(cfg),
        cfg.query_gate ==> gates(cfg, t).end() <= max * q_width(cfg),
        forall|i: int| 0 <= i < t ==> (#[trigger] query(cfg, i)).end() <= max * q_width(cfg),
{
    lemma_products(cfg, t, max);
    let (nh, s, hd) = (cfg.n_heads as int, stride(cfg), cfg.head_dim as int);
    let n = t * nh;
    assert(n * s <= max * (nh * s) && (n - 1) * s == n * s - s) by (nonlinear_arith)
        requires
            0 <= t <= max,
            0 <= nh,
            0 <= s,
            n == t * nh,
    ;
    assert forall|i: int| 0 <= i < t implies (#[trigger] query(cfg, i)).end() <= max * q_width(
        cfg,
    ) by {
        assert(0 <= i * (nh * s) && i * (nh * s) + nh * s <= max * (nh * s) && (nh - 1) * s == nh * s
            - s) by (nonlinear_arith)
            requires
                0 <= i < max,
                0 <= nh,
                0 <= s,
        ;
    }
}

proof fn lemma_layer_in_range(cfg: Config, il: int, t: int, max: int, base: int)
    requires
        sizable(cfg, max),
        0 < t <= max <= usize::MAX,
        0 <= il < cfg.n_layers,
    ensures
        all_in_range(layer_steps(cfg, il, t, base), |b: Scratch| size_of(cfg, max, b)),
{
    let size = |b: Scratch| size_of(cfg, max, b);
    lemma_products(cfg, t, max);
    let (d, f) = (cfg.d_model as int, cfg.ffn_dim as int);
    lemma_rows(Scratch::H, t, d, max);
    lemma_rows(Scratch::X, t, d, max);
    lemma_rows(Scratch::Proj, t, d, max);
    lemma_rows(Scratch::Gate, t, f, max);
    lemma_rows(Scratch::Up, t, f, max);
    assert(all_in_range(norm_steps(cfg, il, t), size));
    assert(all_in_range(ffn_steps(cfg, il, t), size));
    if cfg.recurrent@[il] {
        let (di, nv, lin) = (cfg.d_inner as int, cfg.n_v_heads as int, cfg.lin_head_dim as int);
        lemma_rows(Scratch::Q, t, cfg.conv_width(), max);
        lemma_rows(Scratch::Z, t, di, max);
        lemma_rows(Scratch::Attn, t, di, max);
        lemma_rows(Scratch::Alpha, t, nv, max);
        lemma_rows(Scratch::Beta, t, nv, max);
        lemma_heads(Scratch::Attn, t, nv, lin, max);
        assert(all_in_range(linear_steps(cfg, il, t), size));
    } else {
        lemma_attention_in_range(cfg, il, t, max, base);
    }
    let a = norm_steps(cfg, il, t);
    let b = mixer_steps(cfg, il, t, base);
    lemma_in_range_concat(a, b, size);
    lemma_in_range_concat(a + b, ffn_steps(cfg, il, t), size);
}

proof fn lemma_attention_in_range(cfg: Config, il: int, t: int, max: int, base: int)
    requires
        sizable(cfg, max),
        0 < t <= max <= usize::MAX,
    ensures
        all_in_range(
            qkv_steps(cfg, il, t, base) + attn_steps(cfg, il, t, base) + out_steps(cfg, il, t),
            |b: Scratch| size_of(cfg, max, b),
        ),
{
    let size = |b: Scratch| size_of(cfg, max, b);
    lemma_products(cfg, t, max);
    lemma_queries(cfg, t, max);
    let (d, q, kv, at) = (cfg.d_model as int, q_width(cfg), cfg.kv_width(), attn_width(cfg));
    let (nh, nkv, hd) = (cfg.n_heads as int, cfg.n_kv_heads as int, cfg.head_dim as int);
    lemma_rows(Scratch::X, t, d, max);
    lemma_rows(Scratch::Proj, t, d, max);
    lemma_rows(Scratch::Q, t, q, max);
    lemma_rows(Scratch::K, t, kv, max);
    lemma_rows(Scratch::V, t, kv, max);
    lemma_rows(Scratch::Attn, t, at, max);
    lemma_heads(Scratch::K, t, nkv, hd, max);
    lemma_heads(Scratch::Attn, t, nh, hd, max);
    assert(all_in_range(qkv_steps(cfg, il, t, base), size));
    let stores = Seq::new(t as nat, |i: int| store_step(cfg, il, base, i));
    let attends = Seq::new(t as nat, |i: int| attend_step(cfg, il, base, i));
    assert forall|i: int| 0 <= i < stores.len() implies crate::cpu::in_range(
        #[trigger] stores[i],
        size,
    ) by {
        assert(1 * kv == kv);
        lemma_token(Scratch::K, i, 1, kv, t, max);
        lemma_token(Scratch::V, i, 1, kv, t, max);
    }
    assert forall|i: int| 0 <= i < attends.len() implies crate::cpu::in_range(
        #[trigger] attends[i],
        size,
    ) by {
        assert(query(cfg, i).end() <= max * q);
        lemma_token(Scratch::Attn, i, nh, hd, t, max);
    }
    lemma_in_range_concat(stores, attends, size);
    assert(all_in_range(out_steps(cfg, il, t), size));
    let a = qkv_steps(cfg, il, t, base);
    lemma_in_range_concat(a, attn_steps(cfg, il, t, base), size);
    lemma_in_range_concat(a + attn_steps(cfg, il, t, base), out_steps(cfg, il, t), size);
}

proof fn lemma_layers_in_range(cfg: Config, n: int, t: int, max: int, base: int)
    requires
        sizable(cfg, max),
        0 < t <= max <= usize::MAX,
        0 <= n <= cfg.n_layers,
    ensures
        all_in_range(layers_steps(cfg, n, t, base), |b: Scratch| size_of(cfg, max, b)),
    decreases n,
{
    if n > 0 {
        lemma_layers_in_range(cfg, n - 1, t, max, base);
        lemma_layer_in_range(cfg, n - 1, t, max, base);
        lemma_in_range_concat(
            layers_steps(cfg, n - 1, t, base),
            layer_steps(cfg, n - 1, t, base),
            |b: Scratch| size_of(cfg, max, b),
        );
    }
}

/// No step of a pass leaves its buffers, at any layer and any position.
pub proof fn passes_stay_in_their_buffers(cfg: Config, t: int, max: int, base: int)
    requires
        sizable(cfg, max),
        0 < t <= max <= usize::MAX,
    ensures
        all_in_range(steps(cfg, t, base), |b: Scratch| size_of(cfg, max, b)),
{
    let size = |b: Scratch| size_of(cfg, max, b);
    let d = cfg.d_model as int;
    lemma_products(cfg, t, max);
    lemma_rows(Scratch::H, t, d, max);
    lemma_rows(Scratch::Logits, 1, cfg.vocab as int, 1);
    assert(1 * d == d);
    lemma_token(Scratch::H, t - 1, 1, d, t, max);
    assert(all_in_range(embed_steps(cfg, t), size));
    assert(all_in_range(head_out_steps(cfg, t), size));
    lemma_layers_in_range(cfg, cfg.n_layers as int, t, max, base);
    let a = embed_steps(cfg, t);
    let b = layers_steps(cfg, cfg.n_layers as int, t, base);
    lemma_in_range_concat(a, b, size);
    lemma_in_range_concat(a + b, head_out_steps(cfg, t), size);
}

proof fn lemma_attn_supplied(cfg: Config, il: int, t: int, base: int)
    requires
        0 <= t,
        0 <= base,
        base + t <= usize::MAX,
        0 <= il <= usize::MAX,
    ensures
        supplied(attn_steps(cfg, il, t, base), base),
{
    let v = attn_steps(cfg, il, t, base);
    assert forall|j: int, layer: usize, p: int|
        0 <= j < v.len() && #[trigger] sees(v[j], layer, p) implies p < base || kept(
        v,
        j,
        layer,
        p,
    ) by {
        if p >= base {
            assert(j >= t);
            assert(v[j] == attend_step(cfg, il, base, j - t));
            assert(v[p - base] == store_step(cfg, il, base, p - base));
        }
    }
}

proof fn lemma_layers_supplied(cfg: Config, n: int, t: int, base: int)
    requires
        0 <= n <= usize::MAX,
        0 <= t,
        0 <= base,
        base + t <= usize::MAX,
    ensures
        supplied(layers_steps(cfg, n, t, base), base),
    decreases n,
{
    if n > 0 {
        let il = n - 1;
        lemma_layers_supplied(cfg, il, t, base);
        let a = norm_steps(cfg, il, t);
        let b = mixer_steps(cfg, il, t, base);
        let c = ffn_steps(cfg, il, t);
        assert(supplied(a, base));
        assert(supplied(c, base));
        if cfg.recurrent@[il] {
            assert(supplied(linear_steps(cfg, il, t), base));
        } else {
            lemma_attn_supplied(cfg, il, t, base);
            let q = qkv_steps(cfg, il, t, base);
            let m = attn_steps(cfg, il, t, base);
            assert(supplied(q, base));
            assert(supplied(out_steps(cfg, il, t), base));
            lemma_supplied_concat(q, m, base);
            lemma_supplied_concat(q + m, out_steps(cfg, il, t), base);
        }
        lemma_supplied_concat(a, b, base);
        lemma_supplied_concat(a + b, c, base);
        lemma_supplied_concat(layers_steps(cfg, il, t, base), layer_steps(cfg, il, t, base), base);
    }
}

/// Attention never sees a position whose key and value were not kept before, neither
/// in the batch nor behind it.
pub proof fn attention_sees_what_was_kept(cfg: Config, t: int, base: int)
    requires
        0 < t,
        0 <= base,
        base + t <= usize::MAX,
    ensures
        supplied(steps(cfg, t, base), base),
{
    lemma_layers_supplied(cfg, cfg.n_layers as int, t, base);
    let a = embed_steps(cfg, t);
    let b = layers_steps(cfg, cfg.n_layers as int, t, base);
    assert(supplied(a, base));
    assert(supplied(head_out_steps(cfg, t), base));
    lemma_supplied_concat(a, b, base);
    lemma_supplied_concat(a + b, head_out_steps(cfg, t), base);
}

} // verus!
