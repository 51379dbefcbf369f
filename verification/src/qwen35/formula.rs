//! What a pass of the hybrid stack computes, as the model is published.
//!
//! As for the other model, the laws are equations between rows: for whatever rows satisfy
//! the equations of a block, the steps leave the row that the block ends with.

use crate::cpu::formula::{by_head, fitted, lemma_copy, lemma_heads, lemma_whole, rms, times};
use crate::cpu::meaning::{
    both, cached, each_pair, each_within, embedded, head, lane, lemma_embed, lemma_mark,
    lemma_run_concat, logits, normed, part, run, run_to, stream, Arithmetic, Memory, Op, Pair,
};
use crate::cpu::{rows, Gain, Matrix, Scratch};
use crate::qwen35::batch::{
    after, alpha_of, beta_of, key_of, lemma_head_out, lemma_layer, looks_back, mix_of, net, opened,
    query_of, ready, recalled, seen, turn, value_of,
};
use crate::qwen35::config::Config;
use crate::qwen35::cpu::{
    embed_steps, head_out_steps, layer_steps, layers_steps, lemma_products, sizable, steps,
};
use vstd::prelude::*;

verus! {

/// An operation on the first `w` numbers of each of `n` rows of `st`; the others stay.
pub open spec fn by_lane<C>(
    ar: Arithmetic<C>,
    op: Op,
    x: Seq<u32>,
    n: int,
    st: int,
    w: int,
) -> Seq<u32> {
    Seq::new(
        (n * st) as nat,
        |j: int|
            if j % st < w {
                (ar.one)(op, lane(x, j / st, st, 0, w))[j % st]
            } else {
                x[j]
            },
    )
}

proof fn lemma_lanes<C>(ar: Arithmetic<C>, op: Op, x: Seq<u32>, n: int, st: int, w: int)
    requires
        op !is Same,
    ensures
        each_within(ar, op, x, n, st, w) == by_lane(ar, op, x, n, st, w),
{
    assert(each_within(ar, op, x, n, st, w) =~= by_lane(ar, op, x, n, st, w));
}

/// What a layer of either kind ends with: with `h` the rows that it finds and `p` what its
/// mixer gives them,
///
/// ```text
/// a = h + p
/// y = rms(a) * post_attention_norm
/// a + Wd (silu(Wg y) * (Wu y))
/// ```
pub open spec fn ended<C>(
    ar: Arithmetic<C>,
    cfg: Config,
    k: usize,
    h: Seq<u32>,
    p: Seq<u32>,
    a: Seq<u32>,
    y: Seq<u32>,
    g: Seq<u32>,
) -> bool {
    let (d, f) = (cfg.d_model as int, cfg.ffn_dim as int);
    &&& a == fitted((ar.two)(Pair::Sum, h, p), d)
    &&& y == rms(ar, Gain::PostAttentionNorm(k), a, d)
    &&& g == fitted(
        (ar.two)(
            Pair::Swiglu,
            times(ar, Matrix::FfnGate(k), y, f),
            times(ar, Matrix::FfnUp(k), y, f),
        ),
        f,
    )
}

proof fn lemma_ended<C>(
    ar: Arithmetic<C>,
    cfg: Config,
    il: int,
    h: Seq<u32>,
    p: Seq<u32>,
    a: Seq<u32>,
    y: Seq<u32>,
    g: Seq<u32>,
)
    requires
        ended(ar, cfg, il as usize, h, p, a, y, g),
    ensures
        after(ar, cfg, il, h, p) == fitted(
            (ar.two)(
                Pair::Sum,
                a,
                times(ar, Matrix::FfnDown(il as usize), g, cfg.d_model as int),
            ),
            cfg.d_model as int,
        ),
{
    let (d, f) = (cfg.d_model as int, cfg.ffn_dim as int);
    let k = il as usize;
    assert(a =~= both(ar, Pair::Sum, h, p, d));
    lemma_copy(ar, a);
    lemma_whole(ar, Op::Norm(Some(Gain::PostAttentionNorm(k))), a, d);
    lemma_whole(ar, Op::Project(Matrix::FfnGate(k)), y, f);
    lemma_whole(ar, Op::Project(Matrix::FfnUp(k)), y, f);
    let gate = times(ar, Matrix::FfnGate(k), y, f);
    let up = times(ar, Matrix::FfnUp(k), y, f);
    assert(g =~= both(ar, Pair::Swiglu, gate, up, f));
    lemma_whole(ar, Op::Project(Matrix::FfnDown(k)), g, d);
    let down = times(ar, Matrix::FfnDown(k), g, d);
    assert(after(ar, cfg, il, h, p) =~= fitted((ar.two)(Pair::Sum, a, down), d));
}

/// A recurrent layer computes the published block. With `h` the rows that it finds,
///
/// ```text
/// x = rms(h) * attn_norm
/// s = the state, with Wqkv x, Walpha x and Wbeta x taken in
/// o = what the state gives for them
/// p = Wout (rms_head(o) * silu(Wz x))
/// ```
///
/// and then as every layer.
#[verifier::rlimit(60)]
#[verifier::spinoff_prover]
pub proof fn a_recurrent_layer_computes_the_block<C>(
    ar: Arithmetic<C>,
    ids: Seq<u32>,
    cfg: Config,
    il: int,
    t: int,
    max: int,
    base: int,
    m: Memory<C>,
    x: Seq<Seq<u32>>,
    c: Seq<C>,
    o: Seq<Seq<u32>>,
    p: Seq<Seq<u32>>,
    a: Seq<Seq<u32>>,
    y: Seq<Seq<u32>>,
    g: Seq<Seq<u32>>,
)
    requires
        sizable(cfg, max),
        looks_back(ar),
        0 <= il < cfg.n_layers,
        cfg.recurrent@[il],
        0 <= t <= max <= usize::MAX,
        0 <= base,
        base + t <= usize::MAX,
        x.len() == t && o.len() == t && p.len() == t && a.len() == t && y.len() == t,
        g.len() == t && c.len() == t + 1,
        forall|i: int|
            0 <= i < t ==> #[trigger] x[i] == rms(
                ar,
                Gain::AttnNorm(il as usize),
                part(m, Scratch::H, i, cfg.d_model as int),
                cfg.d_model as int,
            ),
        c[0] == (m.kept)(il as usize),
        forall|i: int|
            #![trigger x[i]]
            0 <= i < t ==> c[i + 1] == ({
                let nv = cfg.n_v_heads as int;
                let conv = 2 * cfg.n_k_heads * cfg.lin_head_dim + cfg.d_inner;
                (ar.absorb)(
                    c[i],
                    il as usize,
                    times(ar, Matrix::Qkv(il as usize), x[i], conv),
                    times(ar, Matrix::Alpha(il as usize), x[i], nv),
                    times(ar, Matrix::Beta(il as usize), x[i], nv),
                )
            }),
        forall|i: int|
            0 <= i < t ==> #[trigger] o[i] == ({
                let nv = cfg.n_v_heads as int;
                let conv = 2 * cfg.n_k_heads * cfg.lin_head_dim + cfg.d_inner;
                fitted(
                    (ar.emit)(
                        c[i + 1],
                        il as usize,
                        times(ar, Matrix::Qkv(il as usize), x[i], conv),
                        times(ar, Matrix::Alpha(il as usize), x[i], nv),
                        times(ar, Matrix::Beta(il as usize), x[i], nv),
                    ),
                    cfg.d_inner as int,
                )
            }),
        forall|i: int|
            0 <= i < t ==> #[trigger] p[i] == ({
                let (n, w) = (cfg.n_v_heads as int, cfg.lin_head_dim as int);
                let z = times(ar, Matrix::LinearGate(il as usize), x[i], cfg.d_inner as int);
                let gated = Seq::new(
                    (n * w) as nat,
                    |j: int|
                        (ar.two)(
                            Pair::GatedNorm(il as usize),
                            head(o[i], j / w, w),
                            head(z, j / w, w),
                        )[j % w],
                );
                times(ar, Matrix::LinearOut(il as usize), gated, cfg.d_model as int)
            }),
        forall|i: int|
            #![trigger a[i]]
            0 <= i < t ==> ended(
                ar,
                cfg,
                il as usize,
                part(m, Scratch::H, i, cfg.d_model as int),
                p[i],
                a[i],
                y[i],
                g[i],
            ),
    ensures
        ({
            let e = run(ar, ids, layer_steps(cfg, il, t, base), m);
            let d = cfg.d_model as int;
            &&& forall|i: int|
                0 <= i < t ==> #[trigger] part(e, Scratch::H, i, d) == fitted(
                    (ar.two)(
                        Pair::Sum,
                        a[i],
                        times(ar, Matrix::FfnDown(il as usize), g[i], d),
                    ),
                    d,
                )
            &&& (e.kept)(il as usize) == c[t]
            &&& forall|l: usize| l != il ==> #[trigger] (e.kept)(l) == (m.kept)(l)
        }),
{
    let e = run(ar, ids, layer_steps(cfg, il, t, base), m);
    let k = il as usize;
    let (d, di) = (cfg.d_model as int, cfg.d_inner as int);
    let (nv, lin) = (cfg.n_v_heads as int, cfg.lin_head_dim as int);
    let conv = cfg.conv_width();
    let hs = stream(m, d, t);
    lemma_products(cfg, t, max);
    lemma_layer(ar, ids, cfg, il, t, max, base, m);
    assert forall|i: int| 0 <= i < t implies #[trigger] x[i] == ready(ar, cfg, il, hs[i]) && times(
        ar,
        Matrix::Qkv(k),
        x[i],
        conv,
    ) == mix_of(ar, cfg, il, x[i]) && times(ar, Matrix::Alpha(k), x[i], nv) == alpha_of(
        ar,
        cfg,
        il,
        x[i],
    ) && times(ar, Matrix::Beta(k), x[i], nv) == beta_of(ar, cfg, il, x[i]) by {
        lemma_copy(ar, hs[i]);
        lemma_whole(ar, Op::Norm(Some(Gain::AttnNorm(k))), hs[i], d);
        lemma_whole(ar, Op::Project(Matrix::Qkv(k)), x[i], conv);
        lemma_whole(ar, Op::Project(Matrix::Alpha(k)), x[i], nv);
        lemma_whole(ar, Op::Project(Matrix::Beta(k)), x[i], nv);
    }
    lemma_absorbed_chain(ar, cfg, il, base, hs, x, c, t);
    assert forall|i: int| 0 <= i < t implies #[trigger] part(e, Scratch::H, i, d) == fitted(
        (ar.two)(Pair::Sum, a[i], times(ar, Matrix::FfnDown(k), g[i], d)),
        d,
    ) by {
        assert(part(e, Scratch::H, i, d) == stream(e, d, t)[i]);
        lemma_absorbed_chain(ar, cfg, il, base, hs, x, c, i + 1);
        assert(x[i] == ready(ar, cfg, il, hs[i]));
        lemma_whole(ar, Op::Project(Matrix::LinearGate(k)), x[i], di);
        let z = times(ar, Matrix::LinearGate(k), x[i], di);
        let gated = Seq::new(
            (nv * lin) as nat,
            |j: int|
                (ar.two)(Pair::GatedNorm(k), head(o[i], j / lin, lin), head(z, j / lin, lin))[j
                    % lin],
        );
        let want = each_pair(ar, Pair::GatedNorm(k), o[i], z, nv, lin, lin, 0);
        assert forall|j: int| 0 <= j < nv * lin implies #[trigger] gated[j] == want[j] by {
            assert(head(z, j / lin, lin) =~= lane(z, j / lin, lin, 0, lin));
        }
        assert(gated =~= want);
        lemma_whole(ar, Op::Project(Matrix::LinearOut(k)), gated, d);
        assert(o[i] =~= Seq::new(
            di as nat,
            |j: int|
                (ar.emit)(
                    c[i + 1],
                    k,
                    mix_of(ar, cfg, il, x[i]),
                    alpha_of(ar, cfg, il, x[i]),
                    beta_of(ar, cfg, il, x[i]),
                )[j],
        ));
        assert(p[i] == recalled(ar, cfg, il, x[i], c[i + 1]));
        assert(a[i] == a[i]);
        lemma_ended(ar, cfg, il, hs[i], p[i], a[i], y[i], g[i]);
    }
}

proof fn lemma_absorbed_chain<C>(
    ar: Arithmetic<C>,
    cfg: Config,
    il: int,
    base: int,
    hs: Seq<Seq<u32>>,
    x: Seq<Seq<u32>>,
    c: Seq<C>,
    n: int,
)
    requires
        cfg.recurrent@[il],
        0 <= n <= x.len(),
        c.len() == x.len() + 1,
        forall|i: int| 0 <= i < x.len() ==> #[trigger] x[i] == ready(ar, cfg, il, hs[i]),
        forall|i: int|
            #![trigger x[i]]
            0 <= i < x.len() ==> c[i + 1] == (ar.absorb)(
                c[i],
                il as usize,
                mix_of(ar, cfg, il, x[i]),
                alpha_of(ar, cfg, il, x[i]),
                beta_of(ar, cfg, il, x[i]),
            ),
    ensures
        cached(net(ar, cfg), il, base, hs, n, c[0]) == c[n],
    decreases n,
{
    if n > 0 {
        lemma_absorbed_chain(ar, cfg, il, base, hs, x, c, n - 1);
        assert(x[n - 1] == ready(ar, cfg, il, hs[n - 1]));
        assert(c[(n - 1) + 1] == c[n]);
    }
}

/// A full-attention layer computes the published block. With `h` the rows that it finds,
///
/// ```text
/// x = rms(h) * attn_norm
/// q = rope(rms_head(Wq x) * q_norm), with the gates beside it where there are any
/// k = rope(rms_head(Wk x) * k_norm)
/// v = Wv x
/// o = attn(q, k, v), times the sigmoid of the gates where there are any
/// p = Wo o
/// ```
///
/// and then as every layer. Every position up to a token's own is seen.
#[verifier::rlimit(60)]
#[verifier::spinoff_prover]
pub proof fn an_attention_layer_computes_the_block<C>(
    ar: Arithmetic<C>,
    ids: Seq<u32>,
    cfg: Config,
    il: int,
    t: int,
    max: int,
    base: int,
    m: Memory<C>,
    x: Seq<Seq<u32>>,
    q: Seq<Seq<u32>>,
    k: Seq<Seq<u32>>,
    v: Seq<Seq<u32>>,
    c: Seq<C>,
    o: Seq<Seq<u32>>,
    p: Seq<Seq<u32>>,
    a: Seq<Seq<u32>>,
    y: Seq<Seq<u32>>,
    g: Seq<Seq<u32>>,
)
    requires
        sizable(cfg, max),
        looks_back(ar),
        0 <= il < cfg.n_layers,
        !cfg.recurrent@[il],
        0 <= t <= max <= usize::MAX,
        0 <= base,
        base + t <= usize::MAX,
        x.len() == t && q.len() == t && k.len() == t && v.len() == t && o.len() == t,
        p.len() == t && a.len() == t && y.len() == t && g.len() == t && c.len() == t + 1,
        forall|i: int|
            0 <= i < t ==> #[trigger] x[i] == rms(
                ar,
                Gain::AttnNorm(il as usize),
                part(m, Scratch::H, i, cfg.d_model as int),
                cfg.d_model as int,
            ),
        forall|i: int|
            0 <= i < t ==> #[trigger] q[i] == ({
                let (n, w) = (cfg.n_heads as int, cfg.head_dim as int);
                let st = if cfg.query_gate {
                    2 * w
                } else {
                    w
                };
                let raw = times(ar, Matrix::Query(il as usize), x[i], n * st);
                let normed = by_lane(
                    ar,
                    Op::Norm(Some(Gain::QueryNorm(il as usize))),
                    raw,
                    n,
                    st,
                    w,
                );
                let turn = Op::Turn {
                    layer: il as usize,
                    factors: false,
                    turning: cfg.n_rot,
                    pos: base + i,
                };
                by_lane(ar, turn, normed, n, st, w)
            }),
        forall|i: int|
            0 <= i < t ==> #[trigger] k[i] == ({
                let (n, w) = (cfg.n_kv_heads as int, cfg.head_dim as int);
                let raw = times(ar, Matrix::Key(il as usize), x[i], n * w);
                let normed = by_head(ar, Op::Norm(Some(Gain::KeyNorm(il as usize))), raw, n, w);
                let turn = Op::Turn {
                    layer: il as usize,
                    factors: false,
                    turning: cfg.n_rot,
                    pos: base + i,
                };
                by_head(ar, turn, normed, n, w)
            }),
        forall|i: int|
            0 <= i < t ==> #[trigger] v[i] == times(
                ar,
                Matrix::Value(il as usize),
                x[i],
                cfg.n_kv_heads * cfg.head_dim,
            ),
        c[0] == (m.kept)(il as usize),
        forall|i: int|
            #![trigger k[i]]
            0 <= i < t ==> c[i + 1] == (ar.store)(c[i], (base + i) as usize, k[i], v[i]),
        forall|i: int|
            0 <= i < t ==> #[trigger] o[i] == ({
                let (n, w) = (cfg.n_heads as int, cfg.head_dim as int);
                let st = if cfg.query_gate {
                    2 * w
                } else {
                    w
                };
                let group = n / (cfg.n_kv_heads as int);
                let seen = Seq::new(
                    (n * w) as nat,
                    |j: int|
                        (ar.attend)(
                            c[i + 1],
                            il as usize,
                            (j / w) / group,
                            0,
                            (base + i) as usize,
                            lane(q[i], j / w, st, 0, w),
                        )[j % w],
                );
                if cfg.query_gate {
                    Seq::new(
                        (n * w) as nat,
                        |j: int|
                            (ar.two)(
                                Pair::Open,
                                head(seen, j / w, w),
                                lane(q[i], j / w, st, w, w),
                            )[j % w],
                    )
                } else {
                    seen
                }
            }),
        forall|i: int|
            0 <= i < t ==> #[trigger] p[i] == times(
                ar,
                Matrix::AttnOutput(il as usize),
                o[i],
                cfg.d_model as int,
            ),
        forall|i: int|
            #![trigger a[i]]
            0 <= i < t ==> ended(
                ar,
                cfg,
                il as usize,
                part(m, Scratch::H, i, cfg.d_model as int),
                p[i],
                a[i],
                y[i],
                g[i],
            ),
    ensures
        ({
            let e = run(ar, ids, layer_steps(cfg, il, t, base), m);
            let d = cfg.d_model as int;
            &&& forall|i: int|
                0 <= i < t ==> #[trigger] part(e, Scratch::H, i, d) == fitted(
                    (ar.two)(
                        Pair::Sum,
                        a[i],
                        times(ar, Matrix::FfnDown(il as usize), g[i], d),
                    ),
                    d,
                )
            &&& (e.kept)(il as usize) == c[t]
            &&& forall|l: usize| l != il ==> #[trigger] (e.kept)(l) == (m.kept)(l)
        }),
{
    let e = run(ar, ids, layer_steps(cfg, il, t, base), m);
    let d = cfg.d_model as int;
    let (nh, nkv, hd) = (cfg.n_heads as int, cfg.n_kv_heads as int, cfg.head_dim as int);
    let st = crate::qwen35::cpu::stride(cfg);
    let hs = stream(m, d, t);
    lemma_products(cfg, t, max);
    lemma_layer(ar, ids, cfg, il, t, max, base, m);
    assert forall|i: int| 0 <= i < t implies #[trigger] x[i] == ready(ar, cfg, il, hs[i]) by {
        lemma_copy(ar, hs[i]);
        lemma_whole(ar, Op::Norm(Some(Gain::AttnNorm(il as usize))), hs[i], d);
    }
    assert forall|i: int| 0 <= i < t implies #[trigger] q[i] == query_of(
        ar,
        cfg,
        il,
        base + i,
        x[i],
    ) by {
        let op = Op::Norm(Some(Gain::QueryNorm(il as usize)));
        lemma_whole(ar, Op::Project(Matrix::Query(il as usize)), x[i], nh * st);
        let raw = times(ar, Matrix::Query(il as usize), x[i], nh * st);
        lemma_lanes(ar, op, raw, nh, st, hd);
        lemma_lanes(ar, turn(cfg, il, base + i), by_lane(ar, op, raw, nh, st, hd), nh, st, hd);
    }
    assert forall|i: int| 0 <= i < t implies #[trigger] k[i] == key_of(
        ar,
        cfg,
        il,
        base + i,
        x[i],
    ) && v[i] == value_of(ar, cfg, il, x[i]) by {
        let op = Op::Norm(Some(Gain::KeyNorm(il as usize)));
        lemma_whole(ar, Op::Project(Matrix::Key(il as usize)), x[i], nkv * hd);
        lemma_whole(ar, Op::Project(Matrix::Value(il as usize)), x[i], nkv * hd);
        let raw = times(ar, Matrix::Key(il as usize), x[i], nkv * hd);
        lemma_heads(ar, op, raw, nkv, hd);
        lemma_heads(ar, turn(cfg, il, base + i), by_head(ar, op, raw, nkv, hd), nkv, hd);
        assert(v[i] == v[i]);
    }
    lemma_chain(ar, cfg, il, base, hs, x, k, v, c, t);
    assert forall|i: int| 0 <= i < t implies #[trigger] part(e, Scratch::H, i, d) == fitted(
        (ar.two)(Pair::Sum, a[i], times(ar, Matrix::FfnDown(il as usize), g[i], d)),
        d,
    ) by {
        assert(part(e, Scratch::H, i, d) == stream(e, d, t)[i]);
        lemma_chain(ar, cfg, il, base, hs, x, k, v, c, i + 1);
        assert(x[i] == ready(ar, cfg, il, hs[i]));
        let sees = seen(ar, cfg, il, base + i, q[i], c[i + 1]);
        let group = nh / nkv;
        let plain = Seq::new(
            (nh * hd) as nat,
            |j: int|
                (ar.attend)(
                    c[i + 1],
                    il as usize,
                    (j / hd) / group,
                    0,
                    (base + i) as usize,
                    lane(q[i], j / hd, st, 0, hd),
                )[j % hd],
        );
        assert(plain =~= sees);
        if cfg.query_gate {
            assert(o[i] =~= each_pair(ar, Pair::Open, sees, q[i], nh, hd, st, hd));
        } else {
            assert(o[i] =~= sees);
        }
        lemma_whole(ar, Op::Project(Matrix::AttnOutput(il as usize)), o[i], d);
        assert(p[i] == opened(ar, cfg, il, q[i], sees));
        assert(a[i] == a[i]);
        lemma_ended(ar, cfg, il, hs[i], p[i], a[i], y[i], g[i]);
    }
}

proof fn lemma_chain<C>(
    ar: Arithmetic<C>,
    cfg: Config,
    il: int,
    base: int,
    hs: Seq<Seq<u32>>,
    x: Seq<Seq<u32>>,
    k: Seq<Seq<u32>>,
    v: Seq<Seq<u32>>,
    c: Seq<C>,
    n: int,
)
    requires
        !cfg.recurrent@[il],
        0 <= n <= k.len(),
        c.len() == k.len() + 1,
        v.len() == k.len() && x.len() == k.len(),
        forall|i: int| 0 <= i < x.len() ==> #[trigger] x[i] == ready(ar, cfg, il, hs[i]),
        forall|i: int|
            0 <= i < k.len() ==> #[trigger] k[i] == key_of(ar, cfg, il, base + i, x[i]) && v[i]
                == value_of(ar, cfg, il, x[i]),
        forall|i: int|
            #![trigger k[i]]
            0 <= i < k.len() ==> c[i + 1] == (ar.store)(c[i], (base + i) as usize, k[i], v[i]),
    ensures
        cached(net(ar, cfg), il, base, hs, n, c[0]) == c[n],
    decreases n,
{
    if n > 0 {
        lemma_chain(ar, cfg, il, base, hs, x, k, v, c, n - 1);
        assert(x[n - 1] == ready(ar, cfg, il, hs[n - 1]));
        assert(k[n - 1] == key_of(ar, cfg, il, base + (n - 1), x[n - 1]));
        assert(c[(n - 1) + 1] == c[n]);
    }
}

/// A pass is its layers, one behind the other, between the embedding and the output
/// head.
pub proof fn a_pass_is_its_layers<C>(
    ar: Arithmetic<C>,
    ids: Seq<u32>,
    cfg: Config,
    base: int,
    m: Memory<C>,
    states: Seq<Memory<C>>,
)
    requires
        states.len() == cfg.n_layers + 1,
        states[0] == run(ar, ids, embed_steps(cfg, ids.len() as int), m),
        forall|l: int|
            #![trigger layer_steps(cfg, l, ids.len() as int, base)]
            0 <= l < cfg.n_layers ==> states[l + 1] == run(
                ar,
                ids,
                layer_steps(cfg, l, ids.len() as int, base),
                states[l],
            ),
    ensures
        run(ar, ids, steps(cfg, ids.len() as int, base), m) == run(
            ar,
            ids,
            head_out_steps(cfg, ids.len() as int),
            states[cfg.n_layers as int],
        ),
{
    let t = ids.len() as int;
    let n = cfg.n_layers as int;
    lemma_states(ar, ids, cfg, base, states, n);
    lemma_run_concat(ar, ids, embed_steps(cfg, t), layers_steps(cfg, n, t, base), m);
    lemma_run_concat(
        ar,
        ids,
        embed_steps(cfg, t) + layers_steps(cfg, n, t, base),
        head_out_steps(cfg, t),
        m,
    );
}

proof fn lemma_states<C>(
    ar: Arithmetic<C>,
    ids: Seq<u32>,
    cfg: Config,
    base: int,
    states: Seq<Memory<C>>,
    n: int,
)
    requires
        0 <= n < states.len(),
        states.len() == cfg.n_layers + 1,
        forall|l: int|
            #![trigger layer_steps(cfg, l, ids.len() as int, base)]
            0 <= l < cfg.n_layers ==> states[l + 1] == run(
                ar,
                ids,
                layer_steps(cfg, l, ids.len() as int, base),
                states[l],
            ),
    ensures
        run(ar, ids, layers_steps(cfg, n, ids.len() as int, base), states[0]) == states[n],
    decreases n,
{
    let t = ids.len() as int;
    if n > 0 {
        lemma_states(ar, ids, cfg, base, states, n - 1);
        let l = n - 1;
        lemma_run_concat(
            ar,
            ids,
            layers_steps(cfg, l, t, base),
            layer_steps(cfg, l, t, base),
            states[0],
        );
        assert(states[l + 1] == states[n]);
    }
}

/// The embedding gives every token its own row, and keeps nothing.
pub proof fn tokens_enter_embedded<C>(
    ar: Arithmetic<C>,
    ids: Seq<u32>,
    cfg: Config,
    m: Memory<C>,
    i: int,
)
    requires
        ids.len() <= usize::MAX,
        0 <= i < ids.len(),
    ensures
        ({
            let e = run(ar, ids, embed_steps(cfg, ids.len() as int), m);
            let d = cfg.d_model as int;
            &&& part(e, Scratch::H, i, d) == fitted((ar.embed)(ids[i]), d)
            &&& e.kept == m.kept
        }),
{
    let t = ids.len() as int;
    let d = cfg.d_model as int;
    let s = embed_steps(cfg, t);
    let e = run(ar, ids, s, m);
    lemma_embed(ar, ids, rows(Scratch::H, t, d), m);
    let e1 = crate::cpu::meaning::effect(ar, ids, s[0], m);
    lemma_mark(ar, ids, s[1], e1);
    assert(e == e1) by {
        reveal_with_fuel(run_to, 3);
    }
    assert(embedded(ar, d, ids[i]) =~= fitted((ar.embed)(ids[i]), d));
}

/// The logits are those of the last token: its row, normed, through the output matrix.
pub proof fn the_last_token_gives_the_logits<C>(
    ar: Arithmetic<C>,
    ids: Seq<u32>,
    cfg: Config,
    t: int,
    max: int,
    m: Memory<C>,
)
    requires
        sizable(cfg, max),
        0 < t <= max <= usize::MAX,
    ensures
        ({
            let e = run(ar, ids, head_out_steps(cfg, t), m);
            let (d, v) = (cfg.d_model as int, cfg.vocab as int);
            let last = part(m, Scratch::H, t - 1, d);
            &&& logits(e, v) == times(ar, Matrix::Output, rms(ar, Gain::OutputNorm, last, d), v)
            &&& e.kept == m.kept
        }),
{
    let (d, v) = (cfg.d_model as int, cfg.vocab as int);
    lemma_head_out(ar, ids, cfg, t, max, m);
    let last = part(m, Scratch::H, t - 1, d);
    assert(stream(m, d, t)[t - 1] == last);
    lemma_whole(ar, Op::Norm(Some(Gain::OutputNorm)), last, d);
    lemma_whole(ar, Op::Project(Matrix::Output), rms(ar, Gain::OutputNorm, last, d), v);
}

} // verus!
