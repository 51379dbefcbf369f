//! What the vision tower's plan computes, as the tower is published.

use crate::gpu::flow::{
    attended, bare_normed, cellwise, flow, flow_to, lemma_flow_concat, normed_rows, projected,
    runs_flow, Device,
};
use crate::gpu::grid::Kernel;
use crate::gpu::plan::{Buf, ONE};
use crate::gpu::vision::{vblk, Clamp, Patches, VisionGpu};
use vstd::prelude::*;

verus! {

/// `n` rows of `d` numbers, held to a range.
pub open spec fn held<V>(
    dev: Device<V>,
    range: (u32, u32),
    n: u32,
    d: u32,
    z: V,
    x: V,
) -> V {
    (dev.ops)(
        Kernel::ClampRange,
        seq![n, d, 0u32, 0u32, range.0, range.1, 0u32, 0u32],
        z,
        z,
        x,
    )
}

/// A tensor's projection, as the input and the result are left: both are held to the
/// tensor's ranges where it has any.
pub open spec fn lined<V>(
    dev: Device<V>,
    g: VisionGpu,
    name: Seq<char>,
    n: u32,
    in_dim: u32,
    out_dim: u32,
    z: V,
    ids: V,
    x: V,
    y: V,
) -> (V, V) {
    let w = g.weight(name);
    match g.clamp_of(name) {
        None => (x, projected(dev, w, in_dim, out_dim, n, ids, x, y)),
        Some(c) => {
            let from = held(dev, Clamp::range(c.in_lo, c.in_hi), n, in_dim, z, x);
            let to = projected(dev, w, in_dim, out_dim, n, ids, from, y);
            (from, held(dev, Clamp::range(c.out_lo, c.out_hi), n, out_dim, z, to))
        },
    }
}

proof fn lemma_lined<V>(
    dev: Device<V>,
    g: VisionGpu,
    name: Seq<char>,
    n: int,
    src: Buf,
    dst: Buf,
    out_dim: int,
    in_dim: int,
    m: spec_fn(Buf) -> V,
)
    requires
        src != dst,
        src != Buf::Zero && src != Buf::Tokens,
        dst != Buf::Zero && dst != Buf::Tokens,
    ensures
        ({
            let s = g.linear(name, g.weight(name), n, src, dst, out_dim, in_dim);
            let e = flow(dev, 0, n as u32, s, m);
            let r = lined(
                dev,
                g,
                name,
                n as u32,
                in_dim as u32,
                out_dim as u32,
                m(Buf::Zero),
                m(Buf::Tokens),
                m(src),
                m(dst),
            );
            &&& e(src) == r.0
            &&& e(dst) == r.1
            &&& forall|b: Buf| b != src && b != dst ==> #[trigger] e(b) == m(b)
        }),
{
    let s = g.linear(name, g.weight(name), n, src, dst, out_dim, in_dim);
    if g.clamp_of(name) is None {
        assert(s.len() == 1);
    } else {
        assert(s.len() == 3);
    }
    reveal_with_fuel(flow_to, 4);
    reveal_with_fuel(runs_flow, 2);
}

proof fn lemma_normed<V>(dev: Device<V>, g: VisionGpu, n: int, off: u32, m: spec_fn(Buf) -> V)
    ensures
        ({
            let e = flow(dev, 0, n as u32, g.normed(n, off), m);
            let (nn, d) = (n as u32, g.cfg.d_model as u32);
            let z = m(Buf::Zero);
            let copy = cellwise(dev, Kernel::Copy, nn, d, 0, m(Buf::H), z, m(Buf::X));
            &&& e(Buf::X) == normed_rows(dev, nn, d, off, g.eps, z, copy)
            &&& forall|b: Buf| b != Buf::X ==> #[trigger] e(b) == m(b)
        }),
{
    reveal_with_fuel(flow_to, 3);
    reveal_with_fuel(runs_flow, 2);
}

/// The two-dimensional rotation of all heads of `p`'s patches.
pub open spec fn rope2d<V>(dev: Device<V>, g: VisionGpu, p: Patches, z: V, x: V) -> V {
    let rows = (p.n * g.cfg.n_heads) as u32;
    let (hd, nh, nx) = (g.cfg.head_dim as u32, g.cfg.n_heads as u32, p.nx as u32);
    (dev.ops)(Kernel::Rope2d, seq![rows, hd, 0u32, 0u32, g.rope_theta, 0u32, nh, nx], z, z, x)
}

proof fn lemma_seen<V>(dev: Device<V>, g: VisionGpu, il: int, p: Patches, m: spec_fn(Buf) -> V)
    ensures
        ({
            let r = g.refs_of(il);
            let e = flow(dev, 0, p.n as u32, g.attn_nodes(r, p), m);
            let rows = (p.n * g.cfg.n_heads) as u32;
            let (hd, nh, d) = (g.cfg.head_dim as u32, g.cfg.n_heads as u32, g.cfg.d_model as u32);
            let n = p.n as u32;
            let z = m(Buf::Zero);
            let q = rope2d(
                dev,
                g,
                p,
                z,
                normed_rows(dev, rows, hd, r.q_norm, g.eps, z, m(Buf::Q)),
            );
            let k = rope2d(
                dev,
                g,
                p,
                z,
                normed_rows(dev, rows, hd, r.k_norm, g.eps, z, m(Buf::K)),
            );
            let v = bare_normed(dev, rows, hd, g.eps, z, m(Buf::V));
            let w = seq![n, nh, nh, hd, d, 0u32, 0u32, n, ONE, 1u32];
            &&& e(Buf::Attn) == attended(dev, w, q, k, v, m(Buf::Scores), m(Buf::Attn)).1
            &&& forall|b: Buf|
                b != Buf::Q && b != Buf::K && b != Buf::V && b != Buf::Scores && b != Buf::Attn
                    ==> #[trigger] e(b) == m(b)
        }),
{
    reveal_with_fuel(flow_to, 7);
    reveal_with_fuel(runs_flow, 4);
}

/// A norm of a buffer and its addition to the stream.
proof fn lemma_added<V>(
    dev: Device<V>,
    g: VisionGpu,
    n: int,
    off: u32,
    m: spec_fn(Buf) -> V,
)
    ensures
        ({
            let s = seq![g.norm_node(n, off, Buf::Proj), g.add_node(n, Buf::Proj)];
            let e = flow(dev, 0, n as u32, s, m);
            let (nn, d) = (n as u32, g.cfg.d_model as u32);
            let z = m(Buf::Zero);
            let p = normed_rows(dev, nn, d, off, g.eps, z, m(Buf::Proj));
            &&& e(Buf::Proj) == p
            &&& e(Buf::H) == cellwise(dev, Kernel::AddScale, nn, d, ONE, z, p, m(Buf::H))
            &&& forall|b: Buf| b != Buf::Proj && b != Buf::H ==> #[trigger] e(b) == m(b)
        }),
{
    reveal_with_fuel(flow_to, 3);
    reveal_with_fuel(runs_flow, 2);
}

/// A layer of the tower's plan computes the published block: with `h` the stream that it
/// finds,
///
/// ```text
/// x = rms(h) * ln1
/// q = rope2d(rms_head(Wq x) * q_norm)
/// k = rope2d(rms_head(Wk x) * k_norm)
/// v = rms_head(Wv x)
/// a = h + rms(Wo attn(q, k, v)) * attn_post_norm
/// y = rms(a) * ln2
/// a + rms(Wd (gelu(Wg y) * Wu y)) * ffn_post_norm
/// ```
///
/// Every patch sees every patch.
#[verifier::rlimit(80)]
#[verifier::spinoff_prover]
pub proof fn a_planned_tower_layer_computes_the_block<V>(
    dev: Device<V>,
    g: VisionGpu,
    il: int,
    p: Patches,
    m: spec_fn(Buf) -> V,
)
    ensures
        ({
            let e = flow(dev, 0, p.n as u32, g.layer_nodes(il, p), m);
            let (n, d, f) = (p.n as u32, g.cfg.d_model as u32, g.cfg.ffn_dim as u32);
            let (nh, hd) = (g.cfg.n_heads as u32, g.cfg.head_dim as u32);
            let rows = (p.n * g.cfg.n_heads) as u32;
            let (h, z, ids) = (m(Buf::H), m(Buf::Zero), m(Buf::Tokens));
            let ln1 = g.gain(vblk(il, ".ln1.weight"@));
            let q_norm = g.gain(vblk(il, ".attn_q_norm.weight"@));
            let k_norm = g.gain(vblk(il, ".attn_k_norm.weight"@));
            let attn_post_norm = g.gain(vblk(il, ".attn_post_norm.weight"@));
            let ln2 = g.gain(vblk(il, ".ln2.weight"@));
            let ffn_post_norm = g.gain(vblk(il, ".ffn_post_norm.weight"@));
            let (wq, wk) = (vblk(il, ".attn_q.weight"@), vblk(il, ".attn_k.weight"@));
            let (wv, wo) = (vblk(il, ".attn_v.weight"@), vblk(il, ".attn_out.weight"@));
            let (wg, wu) = (vblk(il, ".ffn_gate.weight"@), vblk(il, ".ffn_up.weight"@));
            let wd = vblk(il, ".ffn_down.weight"@);
            // Queries, keys and values.
            let hx = cellwise(dev, Kernel::Copy, n, d, 0, h, z, m(Buf::X));
            let x = normed_rows(dev, n, d, ln1, g.eps, z, hx);
            let (x1, q0) = lined(dev, g, wq, n, d, d, z, ids, x, m(Buf::Q));
            let (x2, k0) = lined(dev, g, wk, n, d, d, z, ids, x1, m(Buf::K));
            let (x3, v0) = lined(dev, g, wv, n, d, d, z, ids, x2, m(Buf::V));
            let q = rope2d(dev, g, p, z, normed_rows(dev, rows, hd, q_norm, g.eps, z, q0));
            let k = rope2d(dev, g, p, z, normed_rows(dev, rows, hd, k_norm, g.eps, z, k0));
            let v = bare_normed(dev, rows, hd, g.eps, z, v0);
            // Attention in both directions, unscaled.
            let w = seq![n, nh, nh, hd, d, 0u32, 0u32, n, 0x3F80_0000u32, 1u32];
            let o = attended(dev, w, q, k, v, m(Buf::Scores), m(Buf::Attn)).1;
            let p0 = lined(dev, g, wo, n, d, d, z, ids, o, m(Buf::Proj)).1;
            let pn = normed_rows(dev, n, d, attn_post_norm, g.eps, z, p0);
            let a = cellwise(dev, Kernel::AddScale, n, d, 0x3F80_0000, z, pn, h);
            // Feed-forward.
            let ax = cellwise(dev, Kernel::Copy, n, d, 0, a, z, x3);
            let y = normed_rows(dev, n, d, ln2, g.eps, z, ax);
            let (y1, gate) = lined(dev, g, wg, n, d, f, z, ids, y, m(Buf::Gate));
            let up = lined(dev, g, wu, n, d, f, z, ids, y1, m(Buf::Up)).1;
            let act = cellwise(dev, Kernel::Geglu, n, f, 0, z, up, gate);
            let down = lined(dev, g, wd, n, f, d, z, ids, act, pn).1;
            let last = normed_rows(dev, n, d, ffn_post_norm, g.eps, z, down);
            &&& e(Buf::H) == cellwise(dev, Kernel::AddScale, n, d, 0x3F80_0000, z, last, a)
            &&& e(Buf::Zero) == z
            &&& e(Buf::Tokens) == ids
        }),
{
    let n = p.n as int;
    let nn = p.n as u32;
    let (d, f) = (g.cfg.d_model as int, g.cfg.ffn_dim as int);
    let r = g.refs_of(il);
    let (wq, wk) = (vblk(il, ".attn_q.weight"@), vblk(il, ".attn_k.weight"@));
    let (wv, wo) = (vblk(il, ".attn_v.weight"@), vblk(il, ".attn_out.weight"@));
    let (wg, wu) = (vblk(il, ".ffn_gate.weight"@), vblk(il, ".ffn_up.weight"@));
    let wd = vblk(il, ".ffn_down.weight"@);
    let s1 = g.normed(n, r.ln1);
    let s2 = g.linear(wq, r.q, n, Buf::X, Buf::Q, d, d);
    let s3 = g.linear(wk, r.k, n, Buf::X, Buf::K, d, d);
    let s4 = g.linear(wv, r.v, n, Buf::X, Buf::V, d, d);
    let s5 = g.attn_nodes(r, p);
    let s6 = g.linear(wo, r.out, n, Buf::Attn, Buf::Proj, d, d);
    let s7 = seq![g.norm_node(n, r.attn_post_norm, Buf::Proj), g.add_node(n, Buf::Proj)];
    let s8 = g.normed(n, r.ln2);
    let s9 = g.linear(wg, r.gate, n, Buf::X, Buf::Gate, f, d);
    let s10 = g.linear(wu, r.up, n, Buf::X, Buf::Up, f, d);
    let gated = g.gated_nodes(r, il, n);
    let s11 = gated.skip(gated.len() - 1);
    let s12 = g.linear(wd, r.down, n, Buf::Gate, Buf::Proj, d, f);
    let s13 = seq![g.norm_node(n, r.ffn_post_norm, Buf::Proj), g.add_node(n, Buf::Proj)];
    let a1 = s1 + s2 + s3 + s4;
    let a3 = s6 + s7;
    let a4 = s8 + s9 + s10 + s11;
    let a5 = s12 + s13;
    assert(gated =~= a4);
    assert(g.layer_nodes(il, p) =~= a1 + s5 + a3 + a4 + a5);
    lemma_flow_concat(dev, 0, nn, a1 + s5 + a3 + a4, a5, m);
    lemma_flow_concat(dev, 0, nn, a1 + s5 + a3, a4, m);
    lemma_flow_concat(dev, 0, nn, a1 + s5, a3, m);
    lemma_flow_concat(dev, 0, nn, a1, s5, m);
    lemma_flow_concat(dev, 0, nn, s1 + s2 + s3, s4, m);
    lemma_flow_concat(dev, 0, nn, s1 + s2, s3, m);
    lemma_flow_concat(dev, 0, nn, s1, s2, m);
    let e1 = flow(dev, 0, nn, s1, m);
    let e2 = flow(dev, 0, nn, s2, e1);
    let e3 = flow(dev, 0, nn, s3, e2);
    let e4 = flow(dev, 0, nn, s4, e3);
    let e5 = flow(dev, 0, nn, s5, e4);
    lemma_normed(dev, g, n, r.ln1, m);
    lemma_lined(dev, g, wq, n, Buf::X, Buf::Q, d, d, e1);
    lemma_lined(dev, g, wk, n, Buf::X, Buf::K, d, d, e2);
    lemma_lined(dev, g, wv, n, Buf::X, Buf::V, d, d, e3);
    lemma_seen(dev, g, il, p, e4);
    lemma_flow_concat(dev, 0, nn, s6, s7, e5);
    let e6 = flow(dev, 0, nn, s6, e5);
    let e7 = flow(dev, 0, nn, s7, e6);
    lemma_lined(dev, g, wo, n, Buf::Attn, Buf::Proj, d, d, e5);
    lemma_added(dev, g, n, r.attn_post_norm, e6);
    lemma_flow_concat(dev, 0, nn, s8 + s9 + s10, s11, e7);
    lemma_flow_concat(dev, 0, nn, s8 + s9, s10, e7);
    lemma_flow_concat(dev, 0, nn, s8, s9, e7);
    let e8 = flow(dev, 0, nn, s8, e7);
    let e9 = flow(dev, 0, nn, s9, e8);
    let e10 = flow(dev, 0, nn, s10, e9);
    let e11 = flow(dev, 0, nn, s11, e10);
    lemma_normed(dev, g, n, r.ln2, e7);
    lemma_lined(dev, g, wg, n, Buf::X, Buf::Gate, f, d, e8);
    lemma_lined(dev, g, wu, n, Buf::X, Buf::Up, f, d, e9);
    lemma_gated(dev, g, il, n, e10);
    lemma_flow_concat(dev, 0, nn, s12, s13, e11);
    let e12 = flow(dev, 0, nn, s12, e11);
    lemma_lined(dev, g, wd, n, Buf::Gate, Buf::Proj, d, f, e11);
    lemma_added(dev, g, n, r.ffn_post_norm, e12);
}

proof fn lemma_gated<V>(dev: Device<V>, g: VisionGpu, il: int, n: int, m: spec_fn(Buf) -> V)
    ensures
        ({
            let gated = g.gated_nodes(g.refs_of(il), il, n);
            let e = flow(dev, 0, n as u32, gated.skip(gated.len() - 1), m);
            let (nn, f) = (n as u32, g.cfg.ffn_dim as u32);
            let z = m(Buf::Zero);
            &&& e(Buf::Gate) == cellwise(
                dev,
                Kernel::Geglu,
                nn,
                f,
                0,
                z,
                m(Buf::Up),
                m(Buf::Gate),
            )
            &&& forall|b: Buf| b != Buf::Gate ==> #[trigger] e(b) == m(b)
        }),
{
    let gated = g.gated_nodes(g.refs_of(il), il, n);
    assert(gated.skip(gated.len() - 1).len() == 1);
    assert(gated.skip(gated.len() - 1)[0] == gated.last());
    reveal_with_fuel(flow_to, 2);
    reveal_with_fuel(runs_flow, 2);
}

/// The stream starts with the patches through the patch filter, to which their positions
/// are added.
pub proof fn planned_patches_enter_with_their_place<V>(
    dev: Device<V>,
    g: VisionGpu,
    n: int,
    m: spec_fn(Buf) -> V,
)
    ensures
        ({
            let e = flow(dev, 0, n as u32, g.embed_nodes(n), m);
            let (nn, d) = (n as u32, g.cfg.d_model as u32);
            let wide = (g.cfg.patch_size * g.cfg.patch_size * 3) as u32;
            let (z, ids) = (m(Buf::Zero), m(Buf::Tokens));
            let name = "v.patch_embd.weight"@;
            let rows = lined(dev, g, name, nn, wide, d, z, ids, m(Buf::X), m(Buf::H)).1;
            &&& e(Buf::H) == cellwise(
                dev,
                Kernel::AddScale,
                nn,
                d,
                0x3F80_0000,
                z,
                m(Buf::Pos),
                rows,
            )
            &&& forall|b: Buf| b != Buf::H && b != Buf::X ==> #[trigger] e(b) == m(b)
        }),
{
    let name = "v.patch_embd.weight"@;
    let d = g.cfg.d_model as int;
    let s1 = g.linear(name, g.weight(name), n, Buf::X, Buf::H, d, g.patch_width());
    let s2 = seq![g.add_node(n, Buf::Pos)];
    assert(g.embed_nodes(n) =~= s1 + s2);
    lemma_flow_concat(dev, 0, n as u32, s1, s2, m);
    lemma_lined(dev, g, name, n, Buf::X, Buf::H, d, g.patch_width(), m);
    reveal_with_fuel(flow_to, 2);
    reveal_with_fuel(runs_flow, 2);
}

/// The tokens for the text model are the pooled patches, normed and projected.
pub proof fn planned_tokens_are_pooled_and_projected<V>(
    dev: Device<V>,
    g: VisionGpu,
    p: Patches,
    m: spec_fn(Buf) -> V,
)
    ensures
        ({
            let e = flow(dev, 0, p.n as u32, g.pool_nodes(p), m);
            let (k, d) = (p.n_out as u32, g.cfg.d_model as u32);
            let (z, ids) = (m(Buf::Zero), m(Buf::Tokens));
            let pooled = (dev.ops)(
                Kernel::PoolAvg,
                seq![k, d, 0u32, 0u32, g.sqrt_d, 0u32, g.cfg.n_merge as u32, p.nx as u32],
                m(Buf::H),
                z,
                m(Buf::Pooled),
            );
            let rows = bare_normed(dev, k, d, g.eps, z, pooled);
            let w = g.weight("mm.input_projection.weight"@);
            e(Buf::Out) == projected(
                dev,
                w,
                d,
                g.cfg.proj_dim as u32,
                k,
                ids,
                rows,
                m(Buf::Out),
            )
        }),
{
    reveal_with_fuel(flow_to, 4);
    reveal_with_fuel(runs_flow, 2);
}

proof fn lemma_states<V>(
    dev: Device<V>,
    g: VisionGpu,
    p: Patches,
    m: spec_fn(Buf) -> V,
    states: Seq<spec_fn(Buf) -> V>,
    k: int,
)
    requires
        0 <= k < states.len(),
        states[0] == flow(dev, 0, p.n as u32, g.embed_nodes(p.n as int), m),
        forall|l: int|
            #![trigger g.layer_nodes(l, p)]
            0 <= l < states.len() - 1 ==> states[l + 1] == flow(
                dev,
                0,
                p.n as u32,
                g.layer_nodes(l, p),
                states[l],
            ),
    ensures
        flow(dev, 0, p.n as u32, g.nodes_to(k, p), m) == states[k],
    decreases k,
{
    if k > 0 {
        let l = k - 1;
        lemma_states(dev, g, p, m, states, l);
        lemma_flow_concat(dev, 0, p.n as u32, g.nodes_to(l, p), g.layer_nodes(l, p), m);
        assert(states[l + 1] == states[k]);
    }
}

/// A planned tower is its layers, one behind the other, between the patches and the pool.
pub proof fn a_planned_tower_is_its_layers<V>(
    dev: Device<V>,
    g: VisionGpu,
    p: Patches,
    m: spec_fn(Buf) -> V,
    states: Seq<spec_fn(Buf) -> V>,
)
    requires
        states.len() == g.cfg.n_layers + 1,
        states[0] == flow(dev, 0, p.n as u32, g.embed_nodes(p.n as int), m),
        forall|l: int|
            #![trigger g.layer_nodes(l, p)]
            0 <= l < g.cfg.n_layers ==> states[l + 1] == flow(
                dev,
                0,
                p.n as u32,
                g.layer_nodes(l, p),
                states[l],
            ),
    ensures
        flow(dev, 0, p.n as u32, g.nodes(p), m) == flow(
            dev,
            0,
            p.n as u32,
            g.pool_nodes(p),
            states[g.cfg.n_layers as int],
        ),
{
    let k = g.cfg.n_layers as int;
    lemma_states(dev, g, p, m, states, k);
    lemma_flow_concat(dev, 0, p.n as u32, g.nodes_to(k, p), g.pool_nodes(p), m);
}

} // verus!
