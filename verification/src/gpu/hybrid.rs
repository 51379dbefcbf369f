//! What the plans of the hybrid stack compute, as the model is published.

use crate::gpu::flow::{
    attended, cellwise, flow, flow_to, lemma_flow_concat, normed_rows, plan_flow, projected,
    runs_flow, Device,
};
use crate::gpu::forward::blk;
use crate::gpu::grid::{embed_kernel, Kernel};
use crate::gpu::plan::Buf;
use crate::gpu::qwen35::Resident;
use vstd::prelude::*;

verus! {

proof fn lemma_normed<V>(
    dev: Device<V>,
    base: u32,
    res: Resident,
    off: u32,
    t: int,
    m: spec_fn(Buf) -> V,
)
    ensures
        ({
            let e = flow(dev, base, t as u32, res.normed(off, t), m);
            let (tt, d) = (t as u32, res.cfg.d_model as u32);
            let z = m(Buf::Zero);
            let copy = cellwise(dev, Kernel::Copy, tt, d, 0, m(Buf::H), z, m(Buf::X));
            &&& e(Buf::X) == normed_rows(dev, tt, d, off, res.scalars.rms_eps, z, copy)
            &&& forall|b: Buf| b != Buf::X ==> #[trigger] e(b) == m(b)
        }),
{
    reveal_with_fuel(flow_to, 3);
    reveal_with_fuel(runs_flow, 2);
}

/// What a layer of either kind ends with: `p` is what its mixer gives, `h` the stream
/// that it found, `x` what the norm of the stream is written over.
pub open spec fn planned_end<V>(
    dev: Device<V>,
    res: Resident,
    il: int,
    t: int,
    z: V,
    ids: V,
    h: V,
    p: V,
    x: V,
    gate_was: V,
    up_was: V,
) -> V {
    let (tt, d, f) = (t as u32, res.cfg.d_model as u32, res.cfg.ffn_dim as u32);
    let eps = res.scalars.rms_eps;
    let gain = res.param(blk(il, ".post_attention_norm.weight"@));
    let wg = res.weight(blk(il, ".ffn_gate.weight"@));
    let wu = res.weight(blk(il, ".ffn_up.weight"@));
    let wd = res.weight(blk(il, ".ffn_down.weight"@));
    let a = cellwise(dev, Kernel::AddScale, tt, d, 0x3F80_0000, z, p, h);
    let ax = cellwise(dev, Kernel::Copy, tt, d, 0, a, z, x);
    let y = normed_rows(dev, tt, d, gain, eps, z, ax);
    let gate = projected(dev, wg, wg.in_dim, f, tt, ids, y, gate_was);
    let up = projected(dev, wu, wu.in_dim, f, tt, ids, y, up_was);
    let g = cellwise(dev, Kernel::Swiglu, tt, f, 0, z, up, gate);
    let down = projected(dev, wd, wd.in_dim, d, tt, ids, g, p);
    cellwise(dev, Kernel::AddScale, tt, d, 0x3F80_0000, z, down, a)
}

#[verifier::rlimit(40)]
proof fn lemma_end<V>(
    dev: Device<V>,
    base: u32,
    res: Resident,
    il: int,
    t: int,
    m: spec_fn(Buf) -> V,
)
    ensures
        ({
            let e = flow(dev, base, t as u32, res.ffn_nodes(res.ffn_refs(il), il, t), m);
            &&& e(Buf::H) == planned_end(
                dev,
                res,
                il,
                t,
                m(Buf::Zero),
                m(Buf::Tokens),
                m(Buf::H),
                m(Buf::Proj),
                m(Buf::X),
                m(Buf::Gate),
                m(Buf::Up),
            )
            &&& forall|b: Buf|
                b != Buf::X && b != Buf::Gate && b != Buf::Up && b != Buf::Proj && b != Buf::H
                    ==> #[trigger] e(b) == m(b)
        }),
{
    let r = res.ffn_refs(il);
    let all = res.ffn_nodes(r, il, t);
    let n = t as u32;
    let (s1, s2, s3) = (all.take(2), res.normed(r.post_attention_norm, t), all.skip(4));
    assert(all =~= s1 + s2 + s3);
    assert(s1.len() == 2 && s3.len() == 8);
    lemma_flow_concat(dev, base, n, s1 + s2, s3, m);
    lemma_flow_concat(dev, base, n, s1, s2, m);
    let e1 = flow(dev, base, n, s1, m);
    let e2 = flow(dev, base, n, s2, e1);
    lemma_normed(dev, base, res, r.post_attention_norm, t, e1);
    reveal_with_fuel(flow_to, 9);
    reveal_with_fuel(runs_flow, 2);
}

/// The projections of a recurrent layer.
proof fn lemma_linear<V>(
    dev: Device<V>,
    base: u32,
    res: Resident,
    il: int,
    t: int,
    m: spec_fn(Buf) -> V,
)
    ensures
        ({
            let r = res.linear_refs(il);
            let e = flow(dev, base, t as u32, res.linear_proj_nodes(r, il, t), m);
            let tt = t as u32;
            let (x, ids) = (m(Buf::X), m(Buf::Tokens));
            let conv = res.cfg.conv_width() as u32;
            let (di, nv) = (res.cfg.d_inner as u32, res.cfg.n_v_heads as u32);
            &&& e(Buf::Fused) == projected(
                dev,
                r.qkv,
                r.qkv.in_dim,
                conv,
                tt,
                ids,
                x,
                m(Buf::Fused),
            )
            &&& e(Buf::Z) == projected(dev, r.gate, r.gate.in_dim, di, tt, ids, x, m(Buf::Z))
            &&& e(Buf::Alpha) == projected(
                dev,
                r.alpha,
                r.alpha.in_dim,
                nv,
                tt,
                ids,
                x,
                m(Buf::Alpha),
            )
            &&& e(Buf::Beta) == projected(dev, r.beta, r.beta.in_dim, nv, tt, ids, x, m(Buf::Beta))
            &&& forall|b: Buf|
                b != Buf::Fused && b != Buf::Z && b != Buf::Alpha && b != Buf::Beta
                    ==> #[trigger] e(b) == m(b)
        }),
{
    reveal_with_fuel(flow_to, 9);
    reveal_with_fuel(runs_flow, 2);
}

/// What the five delta-net kernels leave: the convolution's window, the recurrent state,
/// and the heads. They are given the mixed rows, the two gates, the window, the state, and
/// what stood in the buffers that they write.
pub open spec fn recalled<V>(
    dev: Device<V>,
    w: Seq<u32>,
    z: V,
    mixed: V,
    alpha: V,
    beta: V,
    window: V,
    state: V,
    conv: V,
    scratch: V,
    sink: V,
    out: V,
) -> (V, V, V) {
    let c1 = (dev.delta)(Kernel::ConvSilu, w, mixed, z, z, window, conv);
    let w1 = (dev.state)(Kernel::ConvSilu, w, mixed, z, z, window, conv);
    let s1 = (dev.delta)(Kernel::ConvShift, w, mixed, z, z, w1, scratch);
    let w2 = (dev.state)(Kernel::ConvShift, w, mixed, z, z, w1, scratch);
    let k1 = (dev.delta)(Kernel::ConvCommit, w, s1, z, z, w2, sink);
    let w3 = (dev.state)(Kernel::ConvCommit, w, s1, z, z, w2, sink);
    let c2 = (dev.delta)(Kernel::L2normQk, w, z, z, z, k1, c1);
    (
        w3,
        (dev.state)(Kernel::DeltaRecur, w, alpha, beta, c2, state, out),
        (dev.delta)(Kernel::DeltaRecur, w, alpha, beta, c2, state, out),
    )
}

/// The recurrence and what follows it.
#[verifier::rlimit(40)]
proof fn lemma_delta<V>(
    dev: Device<V>,
    base: u32,
    res: Resident,
    il: int,
    t: int,
    m: spec_fn(Buf) -> V,
)
    ensures
        ({
            let r = res.linear_refs(il);
            let e = flow(dev, base, t as u32, res.delta_nodes(r, il, t), m);
            let (tt, d) = (t as u32, res.cfg.d_model as u32);
            let tv = (t * res.cfg.n_v_heads) as u32;
            let eps = res.scalars.rms_eps;
            let (z, ids) = (m(Buf::Zero), m(Buf::Tokens));
            let (bw, bs) = (Buf::ConvState(il as usize), Buf::Recurrent(il as usize));
            let w = seq![
                tt,
                res.cfg.conv_width() as u32,
                res.key_dim() as u32,
                res.cfg.d_inner as u32,
                res.cfg.lin_head_dim as u32,
                res.cfg.n_v_heads as u32,
                res.cfg.n_k_heads as u32,
                res.cfg.conv_kernel as u32,
                r.taps,
                r.a,
                r.dt,
                eps,
                res.scalars.delta_scale,
            ];
            let kept = recalled(
                dev,
                w,
                z,
                m(Buf::Fused),
                m(Buf::Alpha),
                m(Buf::Beta),
                m(bw),
                m(bs),
                m(Buf::Conv),
                m(Buf::ConvScratch),
                m(Buf::Sink),
                m(Buf::Attn),
            );
            let heads = normed_rows(dev, tv, res.cfg.lin_head_dim as u32, r.norm, eps, z, kept.2);
            let di = res.cfg.d_inner as u32;
            let o = cellwise(dev, Kernel::MulSilu, tt, di, 0, z, m(Buf::Z), heads);
            &&& e(Buf::Proj) == projected(dev, r.out, r.out.in_dim, d, tt, ids, o, m(Buf::Proj))
            &&& e(bw) == kept.0
            &&& e(bs) == kept.1
            &&& forall|b: Buf|
                b != bw && b != bs && b != Buf::Conv && b != Buf::ConvScratch && b != Buf::Sink && b
                    != Buf::Attn && b != Buf::Proj ==> #[trigger] e(b) == m(b)
        }),
{
    reveal_with_fuel(flow_to, 8);
    reveal_with_fuel(runs_flow, 6);
}

/// The projections, norms and rotations of a full-attention layer.
#[verifier::rlimit(40)]
proof fn lemma_full<V>(
    dev: Device<V>,
    base: u32,
    res: Resident,
    il: int,
    t: int,
    m: spec_fn(Buf) -> V,
)
    ensures
        ({
            let r = res.full_refs(il);
            let e = flow(dev, base, t as u32, res.full_proj_nodes(r, il, t), m);
            let (tt, hd) = (t as u32, res.cfg.head_dim as u32);
            let kv = res.cfg.kv_width() as u32;
            let (x, z, ids) = (m(Buf::X), m(Buf::Zero), m(Buf::Tokens));
            let th = (t * res.cfg.n_heads) as u32;
            let pairs = projected(
                dev,
                r.q,
                r.q.in_dim,
                (2 * res.q_dim()) as u32,
                tt,
                ids,
                x,
                m(Buf::Fused),
            );
            let plain = projected(
                dev,
                r.q,
                r.q.in_dim,
                res.q_dim() as u32,
                tt,
                ids,
                x,
                m(Buf::Q),
            );
            &&& e(Buf::Q) == if res.cfg.query_gate {
                split(dev, th, hd, 0, pairs, z, m(Buf::Q))
            } else {
                plain
            }
            &&& res.cfg.query_gate ==> e(Buf::GateA) == split(
                dev,
                th,
                hd,
                hd,
                pairs,
                z,
                m(Buf::GateA),
            )
            &&& e(Buf::K) == projected(dev, r.k, r.k.in_dim, kv, tt, ids, x, m(Buf::K))
            &&& e(Buf::V) == projected(dev, r.v, r.v.in_dim, kv, tt, ids, x, m(Buf::V))
            &&& forall|b: Buf|
                b != Buf::Fused && b != Buf::Q && b != Buf::GateA && b != Buf::K && b != Buf::V
                    ==> #[trigger] e(b) == m(b)
        }),
{
    let r = res.full_refs(il);
    let s = res.full_proj_nodes(r, il, t);
    if res.cfg.query_gate {
        assert(s.len() == 8);
    } else {
        assert(s.len() == 6);
    }
    reveal_with_fuel(flow_to, 9);
    reveal_with_fuel(runs_flow, 2);
}

/// A half of `n` fused pairs of `d` numbers each, the one that starts at `at`.
pub open spec fn split<V>(dev: Device<V>, n: u32, d: u32, at: u32, pairs: V, z: V, out: V) -> V {
    (dev.ops)(Kernel::SplitHalf, seq![n, d, 0u32, 0u32, 0u32, 0u32, at, 0u32], pairs, z, out)
}

/// The rotation of the first numbers of `n` heads, `per_token` to a token.
pub open spec fn part_rope<V>(
    dev: Device<V>,
    base: u32,
    res: Resident,
    n: u32,
    per_token: u32,
    z: V,
    x: V,
) -> V {
    let (hd, rot) = (res.cfg.head_dim as u32, res.cfg.n_rot as u32);
    (dev.ops)(
        Kernel::RopePartial,
        seq![n, hd, rot, 0u32, res.scalars.rope_base, 0u32, per_token, base],
        z,
        z,
        x,
    )
}

proof fn lemma_turned<V>(
    dev: Device<V>,
    base: u32,
    res: Resident,
    il: int,
    t: int,
    m: spec_fn(Buf) -> V,
)
    ensures
        ({
            let r = res.full_refs(il);
            let e = flow(dev, base, t as u32, res.rotate_nodes(r, il, t), m);
            let hd = res.cfg.head_dim as u32;
            let (nh, nkv) = (res.cfg.n_heads as u32, res.cfg.n_kv_heads as u32);
            let (tq, tk) = (((t as u32) * nh) as u32, ((t as u32) * nkv) as u32);
            let eps = res.scalars.rms_eps;
            let z = m(Buf::Zero);
            let q = normed_rows(dev, tq, hd, r.q_norm, eps, z, m(Buf::Q));
            let k = normed_rows(dev, tk, hd, r.k_norm, eps, z, m(Buf::K));
            &&& e(Buf::Q) == part_rope(dev, base, res, tq, nh, z, q)
            &&& e(Buf::K) == part_rope(dev, base, res, tk, nkv, z, k)
            &&& forall|b: Buf| b != Buf::Q && b != Buf::K ==> #[trigger] e(b) == m(b)
        }),
{
    reveal_with_fuel(flow_to, 7);
    reveal_with_fuel(runs_flow, 2);
}

#[verifier::rlimit(40)]
proof fn lemma_seen<V>(
    dev: Device<V>,
    base: u32,
    res: Resident,
    il: int,
    t: int,
    m: spec_fn(Buf) -> V,
)
    ensures
        ({
            let r = res.full_refs(il);
            let e = flow(dev, base, t as u32, res.attn_nodes(r, il, t), m);
            let (tt, d, hd) = (t as u32, res.cfg.d_model as u32, res.cfg.head_dim as u32);
            let (nh, nkv) = (res.cfg.n_heads as u32, res.cfg.n_kv_heads as u32);
            let (kv, qd) = (res.cfg.kv_width() as u32, res.q_dim() as u32);
            let (z, ids) = (m(Buf::Zero), m(Buf::Tokens));
            let (bk, bv) = (Buf::CacheK(il as usize), Buf::CacheV(il as usize));
            let put = seq![tt, kv, 0u32, 0u32, 0u32, 0u32, 0u32, base];
            let ck = (dev.ops)(Kernel::WriteCache, put, m(Buf::K), z, m(bk));
            let cv = (dev.ops)(Kernel::WriteCache, put, m(Buf::V), z, m(bv));
            let end = (base + tt) as u32;
            let w = seq![
                tt,
                nh,
                nkv,
                hd,
                kv,
                base,
                0u32,
                end,
                res.scalars.attn_scale,
                0u32,
            ];
            let seen = attended(dev, w, m(Buf::Q), ck, cv, m(Buf::Scores), m(Buf::Attn)).1;
            let o = if res.cfg.query_gate {
                cellwise(dev, Kernel::MulSigmoid, tt, qd, 0, z, m(Buf::GateA), seen)
            } else {
                seen
            };
            &&& e(bk) == ck
            &&& e(bv) == cv
            &&& e(Buf::Proj) == projected(
                dev,
                r.output,
                r.output.in_dim,
                d,
                tt,
                ids,
                o,
                m(Buf::Proj),
            )
            &&& forall|b: Buf|
                b != bk && b != bv && b != Buf::Scores && b != Buf::Attn && b != Buf::Proj
                    ==> #[trigger] e(b) == m(b)
        }),
{
    let r = res.full_refs(il);
    let s = res.attn_nodes(r, il, t);
    if res.cfg.query_gate {
        assert(s.len() == 7);
    } else {
        assert(s.len() == 6);
    }
    reveal_with_fuel(flow_to, 8);
    reveal_with_fuel(runs_flow, 4);
}

/// A recurrent layer of the plan computes the published block: with `h` the stream that
/// it finds and `x = rms(h) * attn_norm`, the convolution and the recurrence take in
/// `Wqkv x`, `Walpha x` and `Wbeta x`; what they give is normed by head, opened by
/// `silu(Wz x)` and projected, and the layer then ends as every layer does. Nothing but
/// its own window and state is kept.
#[verifier::rlimit(60)]
pub proof fn a_planned_recurrent_layer_computes_the_block<V>(
    dev: Device<V>,
    base: u32,
    res: Resident,
    il: int,
    t: int,
    m: spec_fn(Buf) -> V,
)
    requires
        res.cfg.recurrent@[il],
    ensures
        ({
            let e = flow(dev, base, t as u32, res.layer_nodes(il, t), m);
            let (tt, d) = (t as u32, res.cfg.d_model as u32);
            let (nk, nv) = (res.cfg.n_k_heads as int, res.cfg.n_v_heads as int);
            let (lin, inner) = (res.cfg.lin_head_dim as int, res.cfg.d_inner as int);
            let (key, conv) = (nk * lin, 2 * nk * lin + inner);
            let eps = res.scalars.rms_eps;
            let (h, z, ids) = (m(Buf::H), m(Buf::Zero), m(Buf::Tokens));
            let (bw, bs) = (Buf::ConvState(il as usize), Buf::Recurrent(il as usize));
            let attn_norm = res.param(blk(il, ".attn_norm.weight"@));
            let wqkv = res.weight(blk(il, ".attn_qkv.weight"@));
            let wz = res.weight(blk(il, ".attn_gate.weight"@));
            let wa = res.weight(blk(il, ".ssm_alpha.weight"@));
            let wb = res.weight(blk(il, ".ssm_beta.weight"@));
            let wo = res.weight(blk(il, ".ssm_out.weight"@));
            let hx = cellwise(dev, Kernel::Copy, tt, d, 0, h, z, m(Buf::X));
            let x = normed_rows(dev, tt, d, attn_norm, eps, z, hx);
            let mixed = projected(
                dev,
                wqkv,
                wqkv.in_dim,
                conv as u32,
                tt,
                ids,
                x,
                m(Buf::Fused),
            );
            let zed = projected(dev, wz, wz.in_dim, inner as u32, tt, ids, x, m(Buf::Z));
            let alpha = projected(dev, wa, wa.in_dim, nv as u32, tt, ids, x, m(Buf::Alpha));
            let beta = projected(dev, wb, wb.in_dim, nv as u32, tt, ids, x, m(Buf::Beta));
            let w = seq![
                tt,
                conv as u32,
                key as u32,
                inner as u32,
                lin as u32,
                nv as u32,
                nk as u32,
                res.cfg.conv_kernel as u32,
                res.param(blk(il, ".ssm_conv1d.weight"@)),
                res.param(blk(il, ".ssm_a"@)),
                res.param(blk(il, ".ssm_dt.bias"@)),
                eps,
                res.scalars.delta_scale,
            ];
            let kept = recalled(
                dev,
                w,
                z,
                mixed,
                alpha,
                beta,
                m(bw),
                m(bs),
                m(Buf::Conv),
                m(Buf::ConvScratch),
                m(Buf::Sink),
                m(Buf::Attn),
            );
            let gain = res.param(blk(il, ".ssm_norm.weight"@));
            let heads = normed_rows(dev, (t * nv) as u32, lin as u32, gain, eps, z, kept.2);
            let o = cellwise(dev, Kernel::MulSilu, tt, inner as u32, 0, z, zed, heads);
            let p = projected(dev, wo, wo.in_dim, d, tt, ids, o, m(Buf::Proj));
            &&& e(Buf::H) == planned_end(
                dev,
                res,
                il,
                t,
                z,
                ids,
                h,
                p,
                x,
                m(Buf::Gate),
                m(Buf::Up),
            )
            &&& e(bw) == kept.0
            &&& e(bs) == kept.1
            &&& e(Buf::Zero) == z
            &&& e(Buf::Tokens) == ids
            &&& forall|l: usize| #[trigger] e(Buf::CacheK(l)) == m(Buf::CacheK(l))
            &&& forall|l: usize| #[trigger] e(Buf::CacheV(l)) == m(Buf::CacheV(l))
            &&& forall|l: usize|
                l != il as usize ==> #[trigger] e(Buf::ConvState(l)) == m(Buf::ConvState(l))
            &&& forall|l: usize|
                l != il as usize ==> #[trigger] e(Buf::Recurrent(l)) == m(Buf::Recurrent(l))
        }),
{
    let n = t as u32;
    let r = res.linear_refs(il);
    let off = res.param(blk(il, ".attn_norm.weight"@));
    let all = res.layer_nodes(il, t);
    let (s1, s3, s4, s5) = (
        res.normed(off, t),
        res.linear_proj_nodes(r, il, t),
        res.delta_nodes(r, il, t),
        res.ffn_nodes(res.ffn_refs(il), il, t),
    );
    let s2 = all.subrange(2, 3);
    assert(all =~= s1 + s2 + s3 + s4 + s5);
    lemma_flow_concat(dev, base, n, s1 + s2 + s3 + s4, s5, m);
    lemma_flow_concat(dev, base, n, s1 + s2 + s3, s4, m);
    lemma_flow_concat(dev, base, n, s1 + s2, s3, m);
    lemma_flow_concat(dev, base, n, s1, s2, m);
    let e1 = flow(dev, base, n, s1, m);
    let e2 = flow(dev, base, n, s2, e1);
    assert(e2 == e1) by {
        reveal_with_fuel(flow_to, 2);
    }
    let e3 = flow(dev, base, n, s3, e2);
    let e4 = flow(dev, base, n, s4, e3);
    lemma_normed(dev, base, res, off, t, m);
    lemma_linear(dev, base, res, il, t, e2);
    lemma_delta(dev, base, res, il, t, e3);
    lemma_end(dev, base, res, il, t, e4);
}

/// A full-attention layer of the plan computes the published block: with `h` the stream
/// that it finds,
///
/// ```text
/// x = rms(h) * attn_norm
/// q = rope(rms_head(Wq x) * q_norm), its gates taken apart first where it has any
/// k = rope(rms_head(Wk x) * k_norm)
/// v = Wv x
/// p = Wo (attn(q, k, v) * sigmoid(gates))
/// ```
///
/// and the layer then ends as every layer does. Nothing but its own cache is kept.
#[verifier::rlimit(60)]
pub proof fn a_planned_attention_layer_computes_the_block<V>(
    dev: Device<V>,
    base: u32,
    res: Resident,
    il: int,
    t: int,
    m: spec_fn(Buf) -> V,
)
    requires
        !res.cfg.recurrent@[il],
    ensures
        ({
            let e = flow(dev, base, t as u32, res.layer_nodes(il, t), m);
            let (tt, d, hd) = (t as u32, res.cfg.d_model as u32, res.cfg.head_dim as u32);
            let (nh, nkv) = (res.cfg.n_heads as u32, res.cfg.n_kv_heads as u32);
            let qd = res.cfg.n_heads * res.cfg.head_dim;
            let kv = (res.cfg.n_kv_heads * res.cfg.head_dim) as u32;
            let (tq, tk) = ((tt * nh) as u32, (tt * nkv) as u32);
            let th = (t * res.cfg.n_heads) as u32;
            let eps = res.scalars.rms_eps;
            let (h, z, ids) = (m(Buf::H), m(Buf::Zero), m(Buf::Tokens));
            let (bk, bv) = (Buf::CacheK(il as usize), Buf::CacheV(il as usize));
            let attn_norm = res.param(blk(il, ".attn_norm.weight"@));
            let wq = res.weight(blk(il, ".attn_q.weight"@));
            let wk = res.weight(blk(il, ".attn_k.weight"@));
            let wv = res.weight(blk(il, ".attn_v.weight"@));
            let q_norm = res.param(blk(il, ".attn_q_norm.weight"@));
            let k_norm = res.param(blk(il, ".attn_k_norm.weight"@));
            let wo = res.weight(blk(il, ".attn_output.weight"@));
            let hx = cellwise(dev, Kernel::Copy, tt, d, 0, h, z, m(Buf::X));
            let x = normed_rows(dev, tt, d, attn_norm, eps, z, hx);
            let pairs = projected(
                dev,
                wq,
                wq.in_dim,
                (2 * qd) as u32,
                tt,
                ids,
                x,
                m(Buf::Fused),
            );
            let q0 = if res.cfg.query_gate {
                split(dev, th, hd, 0, pairs, z, m(Buf::Q))
            } else {
                projected(dev, wq, wq.in_dim, qd as u32, tt, ids, x, m(Buf::Q))
            };
            let gates = split(dev, th, hd, hd, pairs, z, m(Buf::GateA));
            let k0 = projected(dev, wk, wk.in_dim, kv, tt, ids, x, m(Buf::K));
            let v = projected(dev, wv, wv.in_dim, kv, tt, ids, x, m(Buf::V));
            let qn = normed_rows(dev, tq, hd, q_norm, eps, z, q0);
            let kn = normed_rows(dev, tk, hd, k_norm, eps, z, k0);
            let q = part_rope(dev, base, res, tq, nh, z, qn);
            let k = part_rope(dev, base, res, tk, nkv, z, kn);
            let put = seq![tt, kv, 0u32, 0u32, 0u32, 0u32, 0u32, base];
            let ck = (dev.ops)(Kernel::WriteCache, put, k, z, m(bk));
            let cv = (dev.ops)(Kernel::WriteCache, put, v, z, m(bv));
            let end = (base + tt) as u32;
            let scale = res.scalars.attn_scale;
            let w = seq![tt, nh, nkv, hd, kv, base, 0u32, end, scale, 0u32];
            let seen = attended(dev, w, q, ck, cv, m(Buf::Scores), m(Buf::Attn)).1;
            let o = if res.cfg.query_gate {
                cellwise(dev, Kernel::MulSigmoid, tt, qd as u32, 0, z, gates, seen)
            } else {
                seen
            };
            let p = projected(dev, wo, wo.in_dim, d, tt, ids, o, m(Buf::Proj));
            &&& e(Buf::H) == planned_end(
                dev,
                res,
                il,
                t,
                z,
                ids,
                h,
                p,
                x,
                m(Buf::Gate),
                m(Buf::Up),
            )
            &&& e(bk) == ck
            &&& e(bv) == cv
            &&& e(Buf::Zero) == z
            &&& e(Buf::Tokens) == ids
            &&& forall|l: usize|
                l != il as usize ==> #[trigger] e(Buf::CacheK(l)) == m(Buf::CacheK(l))
            &&& forall|l: usize|
                l != il as usize ==> #[trigger] e(Buf::CacheV(l)) == m(Buf::CacheV(l))
            &&& forall|l: usize| #[trigger] e(Buf::ConvState(l)) == m(Buf::ConvState(l))
            &&& forall|l: usize| #[trigger] e(Buf::Recurrent(l)) == m(Buf::Recurrent(l))
        }),
{
    let n = t as u32;
    let r = res.full_refs(il);
    let off = res.param(blk(il, ".attn_norm.weight"@));
    let all = res.layer_nodes(il, t);
    let (s1, s3, s4, s5, s6) = (
        res.normed(off, t),
        res.full_proj_nodes(r, il, t),
        res.rotate_nodes(r, il, t),
        res.attn_nodes(r, il, t),
        res.ffn_nodes(res.ffn_refs(il), il, t),
    );
    let s2 = all.subrange(2, 3);
    assert(all =~= s1 + s2 + s3 + s4 + s5 + s6);
    lemma_flow_concat(dev, base, n, s1 + s2 + s3 + s4 + s5, s6, m);
    lemma_flow_concat(dev, base, n, s1 + s2 + s3 + s4, s5, m);
    lemma_flow_concat(dev, base, n, s1 + s2 + s3, s4, m);
    lemma_flow_concat(dev, base, n, s1 + s2, s3, m);
    lemma_flow_concat(dev, base, n, s1, s2, m);
    let e1 = flow(dev, base, n, s1, m);
    let e2 = flow(dev, base, n, s2, e1);
    assert(e2 == e1) by {
        reveal_with_fuel(flow_to, 2);
    }
    let e3 = flow(dev, base, n, s3, e2);
    let e4 = flow(dev, base, n, s4, e3);
    let e5 = flow(dev, base, n, s5, e4);
    lemma_normed(dev, base, res, off, t, m);
    lemma_full(dev, base, res, il, t, e2);
    lemma_turned(dev, base, res, il, t, e3);
    lemma_seen(dev, base, res, il, t, e4);
    lemma_end(dev, base, res, il, t, e5);
}

/// The stream starts with the rows of the embedding table for the token ids.
pub proof fn planned_tokens_enter_embedded<V>(
    dev: Device<V>,
    base: u32,
    res: Resident,
    t: int,
    m: spec_fn(Buf) -> V,
)
    ensures
        ({
            let e = flow(dev, base, t as u32, res.embed_nodes(t), m);
            let table = res.weight("token_embd.weight"@);
            &&& e(Buf::H) == (dev.matvec)(
                embed_kernel(table.ty)->0,
                seq![
                    table.base_u32,
                    res.cfg.d_model as u32,
                    res.cfg.vocab as u32,
                    t as u32,
                ],
                table.buffer,
                m(Buf::Tokens),
                m(Buf::Zero),
                m(Buf::H),
            )
            &&& forall|b: Buf| b != Buf::H ==> #[trigger] e(b) == m(b)
        }),
{
    reveal_with_fuel(flow_to, 3);
    reveal_with_fuel(runs_flow, 2);
}

proof fn lemma_states<V>(
    dev: Device<V>,
    base: u32,
    res: Resident,
    t: int,
    m: spec_fn(Buf) -> V,
    states: Seq<spec_fn(Buf) -> V>,
    n: int,
)
    requires
        0 <= n < states.len(),
        states[0] == flow(dev, base, t as u32, res.embed_nodes(t), m),
        forall|l: int|
            #![trigger res.layer_nodes(l, t)]
            0 <= l < states.len() - 1 ==> states[l + 1] == flow(
                dev,
                base,
                t as u32,
                res.layer_nodes(l, t),
                states[l],
            ),
    ensures
        flow(dev, base, t as u32, res.nodes_to(n, t), m) == states[n],
    decreases n,
{
    if n > 0 {
        let l = n - 1;
        lemma_states(dev, base, res, t, m, states, l);
        lemma_flow_concat(dev, base, t as u32, res.nodes_to(l, t), res.layer_nodes(l, t), m);
        assert(states[l + 1] == states[n]);
    }
}

/// A planned pass is its layers, one behind the other, behind the embedding; the stream
/// is normed at the end.
pub proof fn a_planned_pass_is_its_layers<V>(
    dev: Device<V>,
    base: u32,
    res: Resident,
    t: int,
    m: spec_fn(Buf) -> V,
    states: Seq<spec_fn(Buf) -> V>,
)
    requires
        states.len() == res.cfg.n_layers + 1,
        states[0] == flow(dev, base, t as u32, res.embed_nodes(t), m),
        forall|l: int|
            #![trigger res.layer_nodes(l, t)]
            0 <= l < res.cfg.n_layers ==> states[l + 1] == flow(
                dev,
                base,
                t as u32,
                res.layer_nodes(l, t),
                states[l],
            ),
    ensures
        ({
            let e = flow(dev, base, t as u32, res.nodes(t), m);
            let end = states[res.cfg.n_layers as int];
            let gain = res.param("output_norm.weight"@);
            let (tt, d) = (t as u32, res.cfg.d_model as u32);
            let eps = res.scalars.rms_eps;
            &&& e(Buf::H) == normed_rows(dev, tt, d, gain, eps, end(Buf::Zero), end(Buf::H))
            &&& forall|b: Buf| b != Buf::H ==> #[trigger] e(b) == end(b)
        }),
{
    let n = res.cfg.n_layers as int;
    lemma_states(dev, base, res, t, m, states, n);
    let body = res.nodes_to(n, t);
    let rest = res.nodes(t).subrange(body.len() as int, res.nodes(t).len() as int);
    assert(res.nodes(t) =~= body + rest);
    lemma_flow_concat(dev, base, t as u32, body, rest, m);
    assert(rest.len() == 2);
    reveal_with_fuel(flow_to, 3);
    reveal_with_fuel(runs_flow, 2);
}

/// The logits are the output matrix times the row that the output head is given; where
/// the model ships no such matrix it is the embedding table.
pub proof fn the_planned_head_gives_the_logits<V>(
    dev: Device<V>,
    base: u32,
    res: Resident,
    m: spec_fn(Buf) -> V,
)
    ensures
        ({
            let tail = res.tail();
            let e = plan_flow(dev, base, 1, tail, res.tail_slots(), tail.len() as int, m);
            let (d, v) = (res.cfg.d_model as u32, res.cfg.vocab as u32);
            let h = if res.weights.handles@.contains_key("output.weight"@) {
                res.weight("output.weight"@)
            } else {
                res.weight("token_embd.weight"@)
            };
            e(Buf::Logits) == projected(
                dev,
                h,
                d,
                v,
                1,
                m(Buf::Tokens),
                m(Buf::X),
                m(Buf::Logits),
            )
        }),
{
    reveal_with_fuel(plan_flow, 2);
}

} // verus!
