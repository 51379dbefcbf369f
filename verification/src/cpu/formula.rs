//! What a pass computes, as the model is published.
//!
//! The laws here are equations between rows. For whatever rows satisfy the equations of
//! the block, the steps leave the row that the block ends with: which weight, which gain
//! and which activation meet where is said by the equations alone, over the operations of
//! an arithmetic.

use crate::config::Config;
use crate::cpu::batch::{
    after_attention, after_ffn, hushed, key_of, lemma_entered, lemma_head_out, lemma_layer, net,
    query_of, raw_key, raw_query, raw_value, seen, turn, value_of,
};
use crate::cpu::meaning::{
    both, cached, each, head, lemma_run_concat, logits, normed, part, run, stream, Arithmetic,
    Memory, Op, Pair,
};
use crate::cpu::{
    embed_steps, head_out_steps, layer_steps, layers_steps, sizable, steps, Gain, Matrix, Scratch,
};
use vstd::prelude::*;

verus! {

/// The first `w` numbers of a row.
pub open spec fn fitted(s: Seq<u32>, w: int) -> Seq<u32> {
    Seq::new(w as nat, |j: int| s[j])
}

/// A gain's norm of a row of `d` numbers.
pub open spec fn rms<C>(ar: Arithmetic<C>, gain: Gain, x: Seq<u32>, d: int) -> Seq<u32> {
    fitted((ar.one)(Op::Norm(Some(gain)), x), d)
}

/// A matrix applied to a row, with `d` numbers for its result.
pub open spec fn times<C>(ar: Arithmetic<C>, a: Matrix, x: Seq<u32>, d: int) -> Seq<u32> {
    fitted((ar.one)(Op::Project(a), x), d)
}

/// An operation on each of `n` heads of `w` numbers.
pub open spec fn by_head<C>(ar: Arithmetic<C>, op: Op, x: Seq<u32>, n: int, w: int) -> Seq<u32> {
    Seq::new((n * w) as nat, |j: int| (ar.one)(op, head(x, j / w, w))[j % w])
}

/// An operation on a whole row.
pub(crate) proof fn lemma_whole<C>(ar: Arithmetic<C>, op: Op, x: Seq<u32>, w: int)
    requires
        0 <= w,
        op !is Same,
    ensures
        each(ar, op, x, 1, x.len() as int, w) == fitted((ar.one)(op, x), w),
{
    let a = each(ar, op, x, 1, x.len() as int, w);
    let b = fitted((ar.one)(op, x), w);
    assert(head(x, 0, x.len() as int) =~= x);
    assert forall|j: int| 0 <= j < w implies #[trigger] a[j] == b[j] by {
        vstd::arithmetic::div_mod::lemma_basic_div(j, w);
        vstd::arithmetic::div_mod::lemma_small_mod(j as nat, w as nat);
    }
    assert(a =~= b);
}

/// A copy of a whole row.
pub(crate) proof fn lemma_copy<C>(ar: Arithmetic<C>, x: Seq<u32>)
    ensures
        each(ar, Op::Same, x, 1, x.len() as int, x.len() as int) == x,
{
    let w = x.len() as int;
    let a = each(ar, Op::Same, x, 1, w, w);
    assert(head(x, 0, w) =~= x);
    assert forall|j: int| 0 <= j < w implies #[trigger] a[j] == x[j] by {
        vstd::arithmetic::div_mod::lemma_basic_div(j, w);
        vstd::arithmetic::div_mod::lemma_small_mod(j as nat, w as nat);
    }
    assert(a =~= x);
}

pub(crate) proof fn lemma_heads<C>(ar: Arithmetic<C>, op: Op, x: Seq<u32>, n: int, w: int)
    requires
        op !is Same,
    ensures
        each(ar, op, x, n, w, w) == by_head(ar, op, x, n, w),
{
    assert(each(ar, op, x, n, w, w) =~= by_head(ar, op, x, n, w));
}

/// A layer computes the published block. With `h` the rows that it finds,
///
/// ```text
/// x = rms(h) * attn_norm
/// q = rope(rms_head(Wq x) * q_norm)
/// k = rope(rms_head(Wk x) * k_norm)
/// v = rms_head(Wv x), or rms_head(Wk x) where the layer has no Wv
/// a = h + rms(Wo attn(q, k, v)) * post_attention_norm
/// y = rms(a) * ffn_norm
/// g = gelu(Wg y) * (Wu y)
/// ```
///
/// it leaves `(a + rms(Wd g) * post_ffw_norm)`, scaled by the layer. A token is kept
/// before it attends, and attends to the positions of the layer's window that end with
/// its own.
#[verifier::rlimit(60)]
#[verifier::spinoff_prover]
pub proof fn a_layer_computes_the_block<C>(
    ar: Arithmetic<C>,
    ids: Seq<u32>,
    cfg: Config,
    il: int,
    t: int,
    max: int,
    base: int,
    m: Memory<C>,
    x: Seq<Seq<u32>>,
    q: Seq<Seq<u32>>,
    k: Seq<Seq<u32>>,
    v: Seq<Seq<u32>>,
    c: Seq<C>,
    o: Seq<Seq<u32>>,
    a: Seq<Seq<u32>>,
    y: Seq<Seq<u32>>,
    g: Seq<Seq<u32>>,
)
    requires
        sizable(cfg, max),
        0 <= il < cfg.n_layers,
        0 <= t <= max <= usize::MAX,
        0 <= base,
        base + t <= usize::MAX,
        x.len() == t && q.len() == t && k.len() == t && v.len() == t && o.len() == t,
        a.len() == t && y.len() == t && g.len() == t && c.len() == t + 1,
        forall|i: int|
            0 <= i < t ==> #[trigger] x[i] == rms(
                ar,
                Gain::AttnNorm(il as usize),
                part(m, Scratch::H, i, cfg.d_model as int),
                cfg.d_model as int,
            ),
        forall|i: int|
            0 <= i < t ==> #[trigger] q[i] == ({
                let l = cfg.layers@[il];
                let (n, w) = (cfg.n_heads as int, l.head_dim as int);
                let raw = times(ar, Matrix::Query(il as usize), x[i], n * w);
                let normed = by_head(ar, Op::Norm(Some(Gain::QueryNorm(il as usize))), raw, n, w);
                let turn = Op::Turn {
                    layer: il as usize,
                    factors: l.rope_factors,
                    turning: l.head_dim,
                    pos: base + i,
                };
                by_head(ar, turn, normed, n, w)
            }),
        forall|i: int|
            0 <= i < t ==> #[trigger] k[i] == ({
                let l = cfg.layers@[il];
                let (n, w) = (l.n_kv_heads as int, l.head_dim as int);
                let raw = times(ar, Matrix::Key(il as usize), x[i], n * w);
                let normed = by_head(ar, Op::Norm(Some(Gain::KeyNorm(il as usize))), raw, n, w);
                let turn = Op::Turn {
                    layer: il as usize,
                    factors: l.rope_factors,
                    turning: l.head_dim,
                    pos: base + i,
                };
                by_head(ar, turn, normed, n, w)
            }),
        forall|i: int|
            0 <= i < t ==> #[trigger] v[i] == ({
                let l = cfg.layers@[il];
                let (n, w) = (l.n_kv_heads as int, l.head_dim as int);
                let from = if l.v_from_k {
                    Matrix::Key(il as usize)
                } else {
                    Matrix::Value(il as usize)
                };
                by_head(ar, Op::Norm(None), times(ar, from, x[i], n * w), n, w)
            }),
        c[0] == (m.kept)(il as usize),
        forall|i: int|
            #![trigger k[i]]
            0 <= i < t ==> c[i + 1] == (ar.store)(c[i], (base + i) as usize, k[i], v[i]),
        forall|i: int|
            0 <= i < t ==> #[trigger] o[i] == ({
                let l = cfg.layers@[il];
                let (n, w) = (cfg.n_heads as int, l.head_dim as int);
                let pos = base + i;
                let from = match l.window {
                    Some(win) => if pos + 1 > win {
                        pos + 1 - win
                    } else {
                        0
                    },
                    None => 0int,
                };
                let group = n / (l.n_kv_heads as int);
                Seq::new(
                    (n * w) as nat,
                    |j: int|
                        (ar.attend)(
                            c[i + 1],
                            il as usize,
                            (j / w) / group,
                            from as usize,
                            pos as usize,
                            head(q[i], j / w, w),
                        )[j % w],
                )
            }),
        forall|i: int|
            0 <= i < t ==> #[trigger] a[i] == ({
                let d = cfg.d_model as int;
                let out = times(ar, Matrix::AttnOutput(il as usize), o[i], d);
                let p = rms(ar, Gain::PostAttentionNorm(il as usize), out, d);
                fitted((ar.two)(Pair::Sum, part(m, Scratch::H, i, d), p), d)
            }),
        forall|i: int|
            0 <= i < t ==> #[trigger] y[i] == rms(
                ar,
                Gain::FfnNorm(il as usize),
                a[i],
                cfg.d_model as int,
            ),
        forall|i: int|
            0 <= i < t ==> #[trigger] g[i] == fitted(
                (ar.two)(
                    Pair::Geglu,
                    times(ar, Matrix::FfnGate(il as usize), y[i], cfg.ffn_dim as int),
                    times(ar, Matrix::FfnUp(il as usize), y[i], cfg.ffn_dim as int),
                ),
                cfg.ffn_dim as int,
            ),
    ensures
        ({
            let e = run(ar, ids, layer_steps(cfg, il, t, base), m);
            let d = cfg.d_model as int;
            &&& forall|i: int|
                0 <= i < t ==> #[trigger] part(e, Scratch::H, i, d) == fitted(
                    (ar.two)(
                        Pair::ScaledSum(il as usize),
                        a[i],
                        rms(
                            ar,
                            Gain::PostFfwNorm(il as usize),
                            times(ar, Matrix::FfnDown(il as usize), g[i], d),
                            d,
                        ),
                    ),
                    d,
                )
            &&& (e.kept)(il as usize) == c[t]
            &&& forall|l: usize| l != il ==> #[trigger] (e.kept)(l) == (m.kept)(l)
        }),
{
    let e = run(ar, ids, layer_steps(cfg, il, t, base), m);
    let l = cfg.layers@[il];
    let (d, f) = (cfg.d_model as int, cfg.ffn_dim as int);
    let (nh, nkv, hd) = (cfg.n_heads as int, l.n_kv_heads as int, l.head_dim as int);
    let hs = stream(m, d, t);
    let n_ = net(ar, cfg);
    lemma_layer(ar, ids, cfg, il, t, max, base, m);
    assert forall|i: int| 0 <= i < t implies #[trigger] x[i] == normed(
        ar,
        d,
        Gain::AttnNorm(il as usize),
        hs[i],
    ) by {
        lemma_copy(ar, hs[i]);
        lemma_whole(ar, Op::Norm(Some(Gain::AttnNorm(il as usize))), hs[i], d);
    }
    assert forall|i: int| 0 <= i < t implies #[trigger] q[i] == query_of(
        ar,
        cfg,
        il,
        base + i,
        hs[i],
    ) by {
        let op = Op::Norm(Some(Gain::QueryNorm(il as usize)));
        lemma_whole(ar, Op::Project(Matrix::Query(il as usize)), x[i], nh * hd);
        lemma_heads(ar, op, raw_query(ar, cfg, il, hs[i]), nh, hd);
        lemma_heads(
            ar,
            turn(cfg, il, base + i),
            by_head(ar, op, raw_query(ar, cfg, il, hs[i]), nh, hd),
            nh,
            hd,
        );
    }
    assert forall|i: int| 0 <= i < t implies #[trigger] k[i] == key_of(
        ar,
        cfg,
        il,
        base + i,
        hs[i],
    ) && v[i] == value_of(ar, cfg, il, hs[i]) by {
        let op = Op::Norm(Some(Gain::KeyNorm(il as usize)));
        let raw = raw_key(ar, cfg, il, hs[i]);
        lemma_whole(ar, Op::Project(Matrix::Key(il as usize)), x[i], nkv * hd);
        lemma_whole(ar, Op::Project(Matrix::Value(il as usize)), x[i], nkv * hd);
        lemma_heads(ar, op, raw, nkv, hd);
        lemma_heads(ar, turn(cfg, il, base + i), by_head(ar, op, raw, nkv, hd), nkv, hd);
        lemma_copy(ar, raw);
        lemma_heads(ar, Op::Norm(None), raw_value(ar, cfg, il, hs[i]), nkv, hd);
        assert(v[i] == v[i]);
    }
    lemma_chain(ar, cfg, il, base, hs, k, v, c, t);
    assert forall|i: int| 0 <= i < t implies #[trigger] part(e, Scratch::H, i, d) == fitted(
        (ar.two)(
            Pair::ScaledSum(il as usize),
            a[i],
            rms(
                ar,
                Gain::PostFfwNorm(il as usize),
                times(ar, Matrix::FfnDown(il as usize), g[i], d),
                d,
            ),
        ),
        d,
    ) by {
        assert(part(e, Scratch::H, i, d) == stream(e, d, t)[i]);
        lemma_chain(ar, cfg, il, base, hs, k, v, c, i + 1);
        let sees = seen(ar, cfg, il, base + i, q[i], c[i + 1]);
        assert(k[i] == k[i]);
        assert(o[i] =~= sees);
        lemma_whole(ar, Op::Project(Matrix::AttnOutput(il as usize)), o[i], d);
        let out = times(ar, Matrix::AttnOutput(il as usize), o[i], d);
        lemma_whole(ar, Op::Norm(Some(Gain::PostAttentionNorm(il as usize))), out, d);
        assert(a[i] =~= after_attention(ar, cfg, il, hs[i], o[i]));
        lemma_copy(ar, a[i]);
        lemma_whole(ar, Op::Norm(Some(Gain::FfnNorm(il as usize))), a[i], d);
        lemma_whole(ar, Op::Project(Matrix::FfnGate(il as usize)), y[i], f);
        lemma_whole(ar, Op::Project(Matrix::FfnUp(il as usize)), y[i], f);
        let gate = times(ar, Matrix::FfnGate(il as usize), y[i], f);
        let up = times(ar, Matrix::FfnUp(il as usize), y[i], f);
        assert(g[i] =~= both(ar, Pair::Geglu, gate, up, f));
        lemma_whole(ar, Op::Project(Matrix::FfnDown(il as usize)), g[i], d);
        let down = times(ar, Matrix::FfnDown(il as usize), g[i], d);
        lemma_whole(ar, Op::Norm(Some(Gain::PostFfwNorm(il as usize))), down, d);
        assert(part(e, Scratch::H, i, d) =~= after_ffn(ar, cfg, il, a[i]));
    }
}

/// What the layer keeps is what the keys and values were put into, one by one.
proof fn lemma_chain<C>(
    ar: Arithmetic<C>,
    cfg: Config,
    il: int,
    base: int,
    hs: Seq<Seq<u32>>,
    k: Seq<Seq<u32>>,
    v: Seq<Seq<u32>>,
    c: Seq<C>,
    n: int,
)
    requires
        0 <= n <= k.len(),
        c.len() == k.len() + 1,
        v.len() == k.len(),
        forall|i: int|
            0 <= i < k.len() ==> #[trigger] k[i] == key_of(ar, cfg, il, base + i, hs[i]) && v[i]
                == value_of(ar, cfg, il, hs[i]),
        forall|i: int|
            #![trigger k[i]]
            0 <= i < k.len() ==> c[i + 1] == (ar.store)(c[i], (base + i) as usize, k[i], v[i]),
    ensures
        cached(net(ar, cfg), il, base, hs, n, c[0]) == c[n],
    decreases n,
{
    if n > 0 {
        lemma_chain(ar, cfg, il, base, hs, k, v, c, n - 1);
        assert(k[n - 1] == key_of(ar, cfg, il, base + (n - 1), hs[n - 1]));
        assert(c[(n - 1) + 1] == c[n]);
    }
}

/// A pass is its layers, one behind the other, between the embedding and the output
/// head: with the memory before each of them, it ends where the head does.
pub proof fn a_pass_is_its_layers<C>(
    ar: Arithmetic<C>,
    ids: Seq<u32>,
    cfg: Config,
    base: int,
    m: Memory<C>,
    states: Seq<Memory<C>>,
)
    requires
        states.len() == cfg.n_layers + 1,
        states[0] == run(ar, ids, embed_steps(cfg, ids.len() as int), m),
        forall|l: int|
            #![trigger layer_steps(cfg, l, ids.len() as int, base)]
            0 <= l < cfg.n_layers ==> states[l + 1] == run(
                ar,
                ids,
                layer_steps(cfg, l, ids.len() as int, base),
                states[l],
            ),
    ensures
        run(ar, ids, steps(cfg, ids.len() as int, base), m) == run(
            ar,
            ids,
            head_out_steps(cfg, ids.len() as int),
            states[cfg.n_layers as int],
        ),
{
    let t = ids.len() as int;
    let n = cfg.n_layers as int;
    lemma_states(ar, ids, cfg, base, states, n);
    lemma_run_concat(ar, ids, embed_steps(cfg, t), layers_steps(cfg, n, t, base), m);
    lemma_run_concat(
        ar,
        ids,
        embed_steps(cfg, t) + layers_steps(cfg, n, t, base),
        head_out_steps(cfg, t),
        m,
    );
}

proof fn lemma_states<C>(
    ar: Arithmetic<C>,
    ids: Seq<u32>,
    cfg: Config,
    base: int,
    states: Seq<Memory<C>>,
    n: int,
)
    requires
        0 <= n < states.len(),
        states.len() == cfg.n_layers + 1,
        forall|l: int|
            #![trigger layer_steps(cfg, l, ids.len() as int, base)]
            0 <= l < cfg.n_layers ==> states[l + 1] == run(
                ar,
                ids,
                layer_steps(cfg, l, ids.len() as int, base),
                states[l],
            ),
    ensures
        run(ar, ids, layers_steps(cfg, n, ids.len() as int, base), states[0]) == states[n],
    decreases n,
{
    let t = ids.len() as int;
    if n > 0 {
        lemma_states(ar, ids, cfg, base, states, n - 1);
        let l = n - 1;
        lemma_run_concat(
            ar,
            ids,
            layers_steps(cfg, l, t, base),
            layer_steps(cfg, l, t, base),
            states[0],
        );
        assert(states[l + 1] == states[n]);
    }
}

/// The embedding gives every token its own row, scaled, and keeps nothing.
pub proof fn tokens_enter_embedded<C>(
    ar: Arithmetic<C>,
    ids: Seq<u32>,
    cfg: Config,
    m: Memory<C>,
    i: int,
)
    requires
        ids.len() <= usize::MAX,
        0 <= i < ids.len(),
    ensures
        ({
            let e = run(ar, ids, embed_steps(cfg, ids.len() as int), m);
            let d = cfg.d_model as int;
            &&& part(e, Scratch::H, i, d) == fitted(
                (ar.one)(Op::Scale, fitted((ar.embed)(ids[i]), d)),
                d,
            )
            &&& e.kept == m.kept
        }),
{
    let e = run(ar, ids, embed_steps(cfg, ids.len() as int), m);
    let d = cfg.d_model as int;
    lemma_entered(ar, ids, cfg, m);
    assert(part(e, Scratch::H, i, d) == stream(e, d, ids.len() as int)[i]);
    let row = crate::cpu::meaning::embedded(ar, d, ids[i]);
    assert(row =~= fitted((ar.embed)(ids[i]), d));
    lemma_whole(ar, Op::Scale, row, d);
}

/// The logits are those of the last token: its row, normed, through the output matrix,
/// capped where the model caps them; a token that is never emitted has the logit that
/// says so.
pub proof fn the_last_token_gives_the_logits<C>(
    ar: Arithmetic<C>,
    ids: Seq<u32>,
    cfg: Config,
    t: int,
    max: int,
    m: Memory<C>,
    j: int,
)
    requires
        sizable(cfg, max),
        0 < t <= max <= usize::MAX,
        0 <= j < cfg.vocab,
    ensures
        ({
            let e = run(ar, ids, head_out_steps(cfg, t), m);
            let (d, v) = (cfg.d_model as int, cfg.vocab as int);
            let last = part(m, Scratch::H, t - 1, d);
            let raw = times(ar, Matrix::Output, rms(ar, Gain::OutputNorm, last, d), v);
            let capped = if cfg.logit_softcap is Some {
                fitted((ar.one)(Op::Cap, raw), v)
            } else {
                raw
            };
            &&& cfg.suppress_tokens@.contains(j as u32) && j <= u32::MAX ==> logits(e, v)[j]
                == ar.never
            &&& !(j <= u32::MAX && cfg.suppress_tokens@.contains(j as u32)) ==> logits(e, v)[j]
                == capped[j]
            &&& e.kept == m.kept
        }),
{
    let (d, v) = (cfg.d_model as int, cfg.vocab as int);
    lemma_head_out(ar, ids, cfg, t, max, m);
    let last = part(m, Scratch::H, t - 1, d);
    assert(stream(m, d, t)[t - 1] == last);
    lemma_whole(ar, Op::Norm(Some(Gain::OutputNorm)), last, d);
    let x = rms(ar, Gain::OutputNorm, last, d);
    lemma_whole(ar, Op::Project(Matrix::Output), x, v);
    lemma_whole(ar, Op::Cap, times(ar, Matrix::Output, x, v), v);
    let hush = cfg.suppress_tokens@;
    if j <= u32::MAX && hush.contains(j as u32) {
        let i = choose|i: int| 0 <= i < hush.len() && hush[i] == j as u32;
        assert(hush[i] == j);
        assert(hushed(hush, j));
    } else if hushed(hush, j) {
        let i = choose|i: int| 0 <= i < hush.len() && #[trigger] hush[i] == j;
        assert(hush.contains(j as u32));
    }
}

} // verus!
