//! What the plans compute, as the models are published.
//!
//! The laws name what every buffer holds by the kernels that were run for it, from what
//! the buffers held before: which weight, which gain and which parameters each of them
//! takes is said there, by the tensors' own names.

use crate::gguf::GgmlType;
use crate::gpu::flow::{
    attended, bare_normed, cellwise, flow, flow_to, lemma_flow_concat, normed_rows, plan_flow,
    projected, runs_flow, Device,
};
use crate::gpu::forward::{blk, Resident};
use crate::gpu::grid::Kernel;
use crate::gpu::plan::{param_at, Buf, ONE};
use vstd::prelude::*;

verus! {

/// What the buffers hold after the first part of a layer, up to the three projections.
proof fn lemma_qkv<V>(
    dev: Device<V>,
    base: u32,
    res: Resident,
    il: int,
    t: int,
    m: spec_fn(Buf) -> V,
)
    ensures
        ({
            let r = res.refs_of(il);
            let e = flow(dev, base, t as u32, res.qkv_nodes(r, il, t), m);
            let (tt, d) = (t as u32, res.cfg.d_model as u32);
            let kv = res.layer(il).kv_width() as u32;
            let eps = res.scalars.rms_eps;
            let (z, ids) = (m(Buf::Zero), m(Buf::Tokens));
            let copy = cellwise(dev, Kernel::Copy, tt, d, 0, m(Buf::H), z, m(Buf::X));
            let x = normed_rows(dev, tt, d, r.attn_norm, eps, z, copy);
            let q = projected(dev, r.q, d, res.q_dim(il) as u32, tt, ids, x, m(Buf::Q));
            let k = projected(dev, r.k, d, kv, tt, ids, x, m(Buf::K));
            let v = match r.v {
                Some(h) => projected(dev, h, d, kv, tt, ids, x, m(Buf::V)),
                None => cellwise(dev, Kernel::Copy, tt, kv, 0, k, z, m(Buf::V)),
            };
            &&& e(Buf::X) == x
            &&& e(Buf::Q) == q
            &&& e(Buf::K) == k
            &&& e(Buf::V) == v
            &&& forall|b: Buf|
                b != Buf::X && b != Buf::Q && b != Buf::K && b != Buf::V ==> #[trigger] e(b) == m(b)
        }),
{
    reveal_with_fuel(flow_to, 9);
    reveal_with_fuel(runs_flow, 2);
}

/// The same of the norms and rotations of the heads.
proof fn lemma_rotated<V>(
    dev: Device<V>,
    base: u32,
    res: Resident,
    il: int,
    t: int,
    m: spec_fn(Buf) -> V,
)
    ensures
        ({
            let r = res.refs_of(il);
            let e = flow(dev, base, t as u32, res.rotate_nodes(r, il, t), m);
            let (tt, hd) = (t as u32, res.layer(il).head_dim as u32);
            let (nh, nkv) = (res.cfg.n_heads as u32, res.layer(il).n_kv_heads as u32);
            let (tq, tk) = ((tt * nh) as u32, (tt * nkv) as u32);
            let eps = res.scalars.rms_eps;
            let z = m(Buf::Zero);
            let q = normed_rows(dev, tq, hd, r.q_norm, eps, z, m(Buf::Q));
            let k = normed_rows(dev, tk, hd, r.k_norm, eps, z, m(Buf::K));
            &&& e(Buf::Q) == rope(dev, base, res, il, tq, nh, z, q)
            &&& e(Buf::K) == rope(dev, base, res, il, tk, nkv, z, k)
            &&& e(Buf::V) == bare_normed(dev, tk, hd, eps, z, m(Buf::V))
            &&& forall|b: Buf|
                b != Buf::Q && b != Buf::K && b != Buf::V ==> #[trigger] e(b) == m(b)
        }),
{
    reveal_with_fuel(flow_to, 9);
    reveal_with_fuel(runs_flow, 2);
}

/// The rotation of `n` heads, `per_token` to a token: by the layer's own base, and by
/// the model's factors where the layer has them.
pub open spec fn rope<V>(
    dev: Device<V>,
    base: u32,
    res: Resident,
    il: int,
    n: u32,
    per_token: u32,
    z: V,
    x: V,
) -> V {
    let at = match param_at(res.param_off.offsets@, "rope_freqs.weight"@) {
        Ok(o) => o,
        Err(_) => 0u32,
    };
    let factors = if res.cfg.layers@[il].rope_factors {
        1u32
    } else {
        0u32
    };
    let hd = res.cfg.layers@[il].head_dim as u32;
    (dev.ops)(
        Kernel::Rope,
        seq![n, hd, at, factors, res.scalars.rope_bases@[il], 0u32, per_token, base],
        z,
        z,
        x,
    )
}

/// What a batch of `n` tokens at `base` sees in a ring of `window` rows, or of a linear
/// cache.
pub open spec fn in_sight(base: u32, n: u32, window: u32) -> u32 {
    let end = (base + n) as u32;
    if window == 0 || end < window {
        end
    } else {
        window
    }
}

/// The same of attention.
proof fn lemma_attended<V>(
    dev: Device<V>,
    base: u32,
    res: Resident,
    il: int,
    t: int,
    m: spec_fn(Buf) -> V,
)
    ensures
        ({
            let r = res.refs_of(il);
            let e = flow(dev, base, t as u32, res.attn_nodes(r, il, t), m);
            let (tt, d) = (t as u32, res.cfg.d_model as u32);
            let (hd, kv) = (res.layer(il).head_dim as u32, res.layer(il).kv_width() as u32);
            let (nh, nkv) = (res.cfg.n_heads as u32, res.layer(il).n_kv_heads as u32);
            let win = res.window(il);
            let (z, ids) = (m(Buf::Zero), m(Buf::Tokens));
            let (bk, bv) = (Buf::CacheK(il as usize), Buf::CacheV(il as usize));
            let put = seq![tt, kv, 0u32, 0u32, 0u32, 0u32, win, base];
            let ck = (dev.ops)(Kernel::WriteCache, put, m(Buf::K), z, m(bk));
            let cv = (dev.ops)(Kernel::WriteCache, put, m(Buf::V), z, m(bv));
            let w = seq![
                tt,
                nh,
                nkv,
                hd,
                kv,
                base,
                win,
                in_sight(base, tt, win),
                res.scalars.attn_scale,
                0u32,
            ];
            let o = attended(dev, w, m(Buf::Q), ck, cv, m(Buf::Scores), m(Buf::Attn)).1;
            let p = projected(dev, r.output, res.q_dim(il) as u32, d, tt, ids, o, m(Buf::Proj));
            let pn = normed_rows(dev, tt, d, r.post_attention_norm, res.scalars.rms_eps, z, p);
            &&& e(bk) == ck
            &&& e(bv) == cv
            &&& e(Buf::Proj) == pn
            &&& e(Buf::H) == cellwise(dev, Kernel::AddScale, tt, d, ONE, z, pn, m(Buf::H))
            &&& forall|b: Buf|
                b != bk && b != bv && b != Buf::Scores && b != Buf::Attn && b != Buf::Proj && b
                    != Buf::H ==> #[trigger] e(b) == m(b)
        }),
{
    reveal_with_fuel(flow_to, 9);
    reveal_with_fuel(runs_flow, 4);
}

/// The same of the feed-forward block.
proof fn lemma_fed<V>(
    dev: Device<V>,
    base: u32,
    res: Resident,
    il: int,
    t: int,
    m: spec_fn(Buf) -> V,
)
    ensures
        ({
            let r = res.refs_of(il);
            let e = flow(dev, base, t as u32, res.ffn_nodes(r, il, t), m);
            let (tt, d, f) = (t as u32, res.cfg.d_model as u32, res.cfg.ffn_dim as u32);
            let eps = res.scalars.rms_eps;
            let (z, ids) = (m(Buf::Zero), m(Buf::Tokens));
            let copy = cellwise(dev, Kernel::Copy, tt, d, 0, m(Buf::H), z, m(Buf::X));
            let y = normed_rows(dev, tt, d, r.ffn_norm, eps, z, copy);
            let gate = projected(dev, r.gate, d, f, tt, ids, y, m(Buf::Gate));
            let up = projected(dev, r.up, d, f, tt, ids, y, m(Buf::Up));
            let g = cellwise(dev, Kernel::Geglu, tt, f, 0, z, up, gate);
            let p = projected(dev, r.down, f, d, tt, ids, g, m(Buf::Proj));
            let pn = normed_rows(dev, tt, d, r.post_ffw_norm, eps, z, p);
            let scale = res.scalars.layer_scales@[il];
            &&& e(Buf::H) == cellwise(dev, Kernel::AddScale, tt, d, scale, z, pn, m(Buf::H))
            &&& forall|b: Buf|
                b != Buf::X && b != Buf::Gate && b != Buf::Up && b != Buf::Proj && b != Buf::H
                    ==> #[trigger] e(b) == m(b)
        }),
{
    reveal_with_fuel(flow_to, 11);
    reveal_with_fuel(runs_flow, 2);
}

/// A layer of the plan computes the published block: with `h` the stream that it finds,
///
/// ```text
/// x = rms(h) * attn_norm
/// q = rope(rms_head(Wq x) * q_norm)
/// k = rope(rms_head(Wk x) * k_norm)
/// v = rms_head(Wv x), or of Wk x where V comes from K
/// a = h + rms(Wo attn(q, k, v)) * post_attention_norm
/// y = rms(a) * ffn_norm
/// (a + rms(Wd (gelu(Wg y) * (Wu y))) * post_ffw_norm) * scale
/// ```
///
/// Keys and values go into the layer's own cache, in a ring of its window, and nothing
/// else is kept.
#[verifier::rlimit(60)]
pub proof fn a_planned_layer_computes_the_block<V>(
    dev: Device<V>,
    base: u32,
    res: Resident,
    il: int,
    t: int,
    m: spec_fn(Buf) -> V,
)
    ensures
        ({
            let e = flow(dev, base, t as u32, res.layer_nodes(il, t), m);
            let (tt, d, f) = (t as u32, res.cfg.d_model as u32, res.cfg.ffn_dim as u32);
            let layer = res.cfg.layers@[il];
            let (nh, nkv) = (res.cfg.n_heads as u32, layer.n_kv_heads as u32);
            let hd = layer.head_dim as u32;
            let qd = (res.cfg.n_heads * layer.head_dim) as u32;
            let kv = (layer.n_kv_heads * layer.head_dim) as u32;
            let (tq, tk) = ((tt * nh) as u32, (tt * nkv) as u32);
            let win = match layer.window {
                Some(w) if w < res.n_ctx => w as u32,
                Some(_) => res.n_ctx as u32,
                None => 0u32,
            };
            let eps = res.scalars.rms_eps;
            let (h, z, ids) = (m(Buf::H), m(Buf::Zero), m(Buf::Tokens));
            let (bk, bv) = (Buf::CacheK(il as usize), Buf::CacheV(il as usize));
            // What is looked up.
            let attn_norm = res.param(blk(il, ".attn_norm.weight"@));
            let wq = res.weight(blk(il, ".attn_q.weight"@));
            let wk = res.weight(blk(il, ".attn_k.weight"@));
            let wv = res.weight(blk(il, ".attn_v.weight"@));
            let q_norm = res.param(blk(il, ".attn_q_norm.weight"@));
            let k_norm = res.param(blk(il, ".attn_k_norm.weight"@));
            let wo = res.weight(blk(il, ".attn_output.weight"@));
            let post_attention_norm = res.param(blk(il, ".post_attention_norm.weight"@));
            let ffn_norm = res.param(blk(il, ".ffn_norm.weight"@));
            let wg = res.weight(blk(il, ".ffn_gate.weight"@));
            let wu = res.weight(blk(il, ".ffn_up.weight"@));
            let wd = res.weight(blk(il, ".ffn_down.weight"@));
            let post_ffw_norm = res.param(blk(il, ".post_ffw_norm.weight"@));
            // Queries, keys and values.
            let hx = cellwise(dev, Kernel::Copy, tt, d, 0, h, z, m(Buf::X));
            let x = normed_rows(dev, tt, d, attn_norm, eps, z, hx);
            let q0 = projected(dev, wq, d, qd, tt, ids, x, m(Buf::Q));
            let k0 = projected(dev, wk, d, kv, tt, ids, x, m(Buf::K));
            let v0 = if layer.v_from_k {
                cellwise(dev, Kernel::Copy, tt, kv, 0, k0, z, m(Buf::V))
            } else {
                projected(dev, wv, d, kv, tt, ids, x, m(Buf::V))
            };
            let qn = normed_rows(dev, tq, hd, q_norm, eps, z, q0);
            let kn = normed_rows(dev, tk, hd, k_norm, eps, z, k0);
            let q = rope(dev, base, res, il, tq, nh, z, qn);
            let k = rope(dev, base, res, il, tk, nkv, z, kn);
            let v = bare_normed(dev, tk, hd, eps, z, v0);
            // Attention over the cache.
            let put = seq![tt, kv, 0u32, 0u32, 0u32, 0u32, win, base];
            let ck = (dev.ops)(Kernel::WriteCache, put, k, z, m(bk));
            let cv = (dev.ops)(Kernel::WriteCache, put, v, z, m(bv));
            let sees = in_sight(base, tt, win);
            let w = seq![tt, nh, nkv, hd, kv, base, win, sees, res.scalars.attn_scale, 0u32];
            let o = attended(dev, w, q, ck, cv, m(Buf::Scores), m(Buf::Attn)).1;
            let p0 = projected(dev, wo, qd, d, tt, ids, o, m(Buf::Proj));
            let p = normed_rows(dev, tt, d, post_attention_norm, eps, z, p0);
            let a = cellwise(dev, Kernel::AddScale, tt, d, 0x3F80_0000, z, p, h);
            // Feed-forward.
            let ax = cellwise(dev, Kernel::Copy, tt, d, 0, a, z, x);
            let y = normed_rows(dev, tt, d, ffn_norm, eps, z, ax);
            let gate = projected(dev, wg, d, f, tt, ids, y, m(Buf::Gate));
            let up = projected(dev, wu, d, f, tt, ids, y, m(Buf::Up));
            let g = cellwise(dev, Kernel::Geglu, tt, f, 0, z, up, gate);
            let down = projected(dev, wd, f, d, tt, ids, g, p);
            let last = normed_rows(dev, tt, d, post_ffw_norm, eps, z, down);
            let scale = res.scalars.layer_scales@[il];
            &&& e(Buf::H) == cellwise(dev, Kernel::AddScale, tt, d, scale, z, last, a)
            &&& e(bk) == ck
            &&& e(bv) == cv
            &&& e(Buf::Zero) == z
            &&& e(Buf::Tokens) == ids
            &&& forall|l: usize|
                l != il as usize ==> #[trigger] e(Buf::CacheK(l)) == m(Buf::CacheK(l))
            &&& forall|l: usize|
                l != il as usize ==> #[trigger] e(Buf::CacheV(l)) == m(Buf::CacheV(l))
        }),
{
    let n = t as u32;
    let r = res.refs_of(il);
    let (s1, s2, s3, s4) = (
        res.qkv_nodes(r, il, t),
        res.rotate_nodes(r, il, t),
        res.attn_nodes(r, il, t),
        res.ffn_nodes(r, il, t),
    );
    lemma_flow_concat(dev, base, n, s1 + s2 + s3, s4, m);
    lemma_flow_concat(dev, base, n, s1 + s2, s3, m);
    lemma_flow_concat(dev, base, n, s1, s2, m);
    let e1 = flow(dev, base, n, s1, m);
    let e2 = flow(dev, base, n, s2, e1);
    let e3 = flow(dev, base, n, s3, e2);
    lemma_qkv(dev, base, res, il, t, m);
    lemma_rotated(dev, base, res, il, t, e1);
    lemma_attended(dev, base, res, il, t, e2);
    lemma_fed(dev, base, res, il, t, e3);
}

/// The stream starts with the rows of the embedding table for the token ids, scaled.
pub proof fn planned_tokens_enter_embedded<V>(
    dev: Device<V>,
    base: u32,
    res: Resident,
    t: int,
    m: spec_fn(Buf) -> V,
)
    ensures
        ({
            let e = flow(dev, base, t as u32, res.embed_nodes(t), m);
            let (tt, d) = (t as u32, res.cfg.d_model as u32);
            let (z, ids) = (m(Buf::Zero), m(Buf::Tokens));
            let table = res.weight("token_embd.weight"@);
            let taken = (dev.matvec)(
                Kernel::Embed { ty: GgmlType::Q6K },
                seq![table.base_u32, d, res.cfg.vocab as u32, tt],
                table.buffer,
                ids,
                z,
                m(Buf::H),
            );
            let scale = res.scalars.embed_scale;
            &&& e(Buf::H) == cellwise(dev, Kernel::Scale, tt, d, scale, z, z, taken)
            &&& forall|b: Buf| b != Buf::H ==> #[trigger] e(b) == m(b)
        }),
{
    reveal_with_fuel(flow_to, 4);
    reveal_with_fuel(runs_flow, 2);
}

proof fn lemma_states<V>(
    dev: Device<V>,
    base: u32,
    res: Resident,
    t: int,
    m: spec_fn(Buf) -> V,
    states: Seq<spec_fn(Buf) -> V>,
    n: int,
)
    requires
        0 <= n < states.len(),
        states[0] == flow(dev, base, t as u32, res.embed_nodes(t), m),
        forall|l: int|
            #![trigger res.layer_nodes(l, t)]
            0 <= l < states.len() - 1 ==> states[l + 1] == flow(
                dev,
                base,
                t as u32,
                res.layer_nodes(l, t),
                states[l],
            ),
    ensures
        flow(dev, base, t as u32, res.nodes_to(n, t), m) == states[n],
    decreases n,
{
    if n > 0 {
        let l = n - 1;
        lemma_states(dev, base, res, t, m, states, l);
        lemma_flow_concat(dev, base, t as u32, res.nodes_to(l, t), res.layer_nodes(l, t), m);
        assert(states[l + 1] == states[n]);
    }
}

/// A planned pass is its layers, one behind the other, behind the embedding; the stream
/// is normed at the end.
pub proof fn a_planned_pass_is_its_layers<V>(
    dev: Device<V>,
    base: u32,
    res: Resident,
    t: int,
    m: spec_fn(Buf) -> V,
    states: Seq<spec_fn(Buf) -> V>,
)
    requires
        states.len() == res.cfg.n_layers + 1,
        states[0] == flow(dev, base, t as u32, res.embed_nodes(t), m),
        forall|l: int|
            #![trigger res.layer_nodes(l, t)]
            0 <= l < res.cfg.n_layers ==> states[l + 1] == flow(
                dev,
                base,
                t as u32,
                res.layer_nodes(l, t),
                states[l],
            ),
    ensures
        ({
            let e = flow(dev, base, t as u32, res.nodes(t), m);
            let end = states[res.cfg.n_layers as int];
            let gain = res.param("output_norm.weight"@);
            let (tt, d) = (t as u32, res.cfg.d_model as u32);
            let eps = res.scalars.rms_eps;
            &&& e(Buf::H) == normed_rows(dev, tt, d, gain, eps, end(Buf::Zero), end(Buf::H))
            &&& forall|b: Buf| b != Buf::H ==> #[trigger] e(b) == end(b)
        }),
{
    let n = res.cfg.n_layers as int;
    lemma_states(dev, base, res, t, m, states, n);
    let body = res.nodes_to(n, t);
    let rest = res.nodes(t).subrange(body.len() as int, res.nodes(t).len() as int);
    assert(res.nodes(t) =~= body + rest);
    lemma_flow_concat(dev, base, t as u32, body, rest, m);
    assert(rest.len() == 2);
    reveal_with_fuel(flow_to, 3);
    reveal_with_fuel(runs_flow, 2);
}

/// The logits are the embedding table times the row that the output head is given, under
/// the cap where there is one.
pub proof fn the_planned_head_gives_the_logits<V>(
    dev: Device<V>,
    base: u32,
    res: Resident,
    m: spec_fn(Buf) -> V,
)
    ensures
        ({
            let tail = res.tail();
            let e = plan_flow(dev, base, 1, tail, res.tail_slots(), tail.len() as int, m);
            let (d, v) = (res.cfg.d_model as u32, res.cfg.vocab as u32);
            let z = m(Buf::Zero);
            let table = res.weight("token_embd.weight"@);
            let row = m(Buf::X);
            let raw = projected(dev, table, d, v, 1, m(Buf::Tokens), row, m(Buf::Logits));
            e(Buf::Logits) == match res.scalars.softcap {
                Some(cap) => cellwise(dev, Kernel::SoftCap, 0, v, cap, z, z, raw),
                None => raw,
            }
        }),
{
    reveal_with_fuel(plan_flow, 3);
}

} // verus!
