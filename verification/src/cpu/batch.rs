//! Splitting a batch changes nothing.
//!
//! A pass writes every row of a scratch buffer before it reads it, a token's rows come
//! from that token's alone, and a layer takes the tokens in one by one. So a token
//! comes out of a layer as a function of its row and of what the layer keeps, and
//! batches can be cut anywhere. All of it holds of any arithmetic.

use crate::config::Config;
use crate::cpu::meaning::{
    attended, becomes, both, cached, covers, each, effect, embedded, head, keeps, layered,
    leaves, lemma_batches, lemma_embed, lemma_flat, lemma_index, lemma_last, lemma_mark,
    lemma_one, lemma_run_concat, lemma_start, lemma_turn, lemma_two, logits, normed, part, row,
    run, run_to, stream, through, Arithmetic, Memory, Net, Op, Pair,
};
use crate::cpu::{
    attend_step, attn_steps, embed_steps, ffn_steps, head_out_steps, head_steps, layer_steps,
    layers_steps, lemma_dims, out_steps, q_dim, qkv_steps, rows, rows_of, seen_from, sizable,
    size_of, steps, store_step, Gain, Label, Matrix, Scratch, Step,
};
use vstd::prelude::*;

verus! {

// ---------------------------------------------------------------------------
// A layer, token by token
// ---------------------------------------------------------------------------
/// The projection of a token's key, before its norm.
pub open spec fn raw_key<C>(ar: Arithmetic<C>, cfg: Config, il: int, h: Seq<u32>) -> Seq<u32> {
    let l = cfg.layers@[il];
    let x = normed(ar, cfg.d_model as int, Gain::AttnNorm(il as usize), h);
    each(ar, Op::Project(Matrix::Key(il as usize)), x, 1, cfg.d_model as int, l.kv_width())
}

/// The projection of a token's value, before its norm.
pub open spec fn raw_value<C>(ar: Arithmetic<C>, cfg: Config, il: int, h: Seq<u32>) -> Seq<u32> {
    let l = cfg.layers@[il];
    let x = normed(ar, cfg.d_model as int, Gain::AttnNorm(il as usize), h);
    if l.v_from_k {
        each(ar, Op::Same, raw_key(ar, cfg, il, h), 1, l.kv_width(), l.kv_width())
    } else {
        each(ar, Op::Project(Matrix::Value(il as usize)), x, 1, cfg.d_model as int, l.kv_width())
    }
}

/// The projection of a token's query, before its norm.
pub open spec fn raw_query<C>(ar: Arithmetic<C>, cfg: Config, il: int, h: Seq<u32>) -> Seq<u32> {
    let l = cfg.layers@[il];
    let x = normed(ar, cfg.d_model as int, Gain::AttnNorm(il as usize), h);
    each(ar, Op::Project(Matrix::Query(il as usize)), x, 1, cfg.d_model as int, q_dim(cfg, l))
}

/// The rotation of a layer at a position.
pub open spec fn turn(cfg: Config, il: int, pos: int) -> Op {
    let l = cfg.layers@[il];
    Op::Turn { layer: il as usize, factors: l.rope_factors, turning: l.head_dim, pos }
}

/// The query of a token at a position.
pub open spec fn query_of<C>(ar: Arithmetic<C>, cfg: Config, il: int, pos: int, h: Seq<u32>) -> Seq<u32> {
    let w = cfg.layers@[il].head_dim as int;
    let n = cfg.n_heads as int;
    let q = raw_query(ar, cfg, il, h);
    let q = each(ar, Op::Norm(Some(Gain::QueryNorm(il as usize))), q, n, w, w);
    each(ar, turn(cfg, il, pos), q, n, w, w)
}

/// The key of a token at a position.
pub open spec fn key_of<C>(ar: Arithmetic<C>, cfg: Config, il: int, pos: int, h: Seq<u32>) -> Seq<u32> {
    let w = cfg.layers@[il].head_dim as int;
    let n = cfg.layers@[il].n_kv_heads as int;
    let k = raw_key(ar, cfg, il, h);
    let k = each(ar, Op::Norm(Some(Gain::KeyNorm(il as usize))), k, n, w, w);
    each(ar, turn(cfg, il, pos), k, n, w, w)
}

/// The value of a token.
pub open spec fn value_of<C>(ar: Arithmetic<C>, cfg: Config, il: int, h: Seq<u32>) -> Seq<u32> {
    let w = cfg.layers@[il].head_dim as int;
    let n = cfg.layers@[il].n_kv_heads as int;
    each(ar, Op::Norm(None), raw_value(ar, cfg, il, h), n, w, w)
}

/// A token's row with what attention gave it.
pub open spec fn after_attention<C>(
    ar: Arithmetic<C>,
    cfg: Config,
    il: int,
    h: Seq<u32>,
    o: Seq<u32>,
) -> Seq<u32> {
    let d = cfg.d_model as int;
    let i = il as usize;
    let p = each(ar, Op::Project(Matrix::AttnOutput(i)), o, 1, q_dim(cfg, cfg.layers@[il]), d);
    let p = each(ar, Op::Norm(Some(Gain::PostAttentionNorm(i))), p, 1, d, d);
    both(ar, Pair::Sum, h, p, d)
}

/// A token's row with what the feed-forward part gave it.
pub open spec fn after_ffn<C>(ar: Arithmetic<C>, cfg: Config, il: int, h: Seq<u32>) -> Seq<u32> {
    let d = cfg.d_model as int;
    let f = cfg.ffn_dim as int;
    let i = il as usize;
    let x = normed(ar, cfg.d_model as int, Gain::FfnNorm(i), h);
    let g = each(ar, Op::Project(Matrix::FfnGate(i)), x, 1, d, f);
    let u = each(ar, Op::Project(Matrix::FfnUp(i)), x, 1, d, f);
    let p = each(ar, Op::Project(Matrix::FfnDown(i)), both(ar, Pair::Geglu, g, u, f), 1, f, d);
    let p = each(ar, Op::Norm(Some(Gain::PostFfwNorm(i))), p, 1, d, d);
    both(ar, Pair::ScaledSum(i), h, p, d)
}

/// What attention gives to a token at a position, of a layer that keeps `c`.
pub open spec fn seen<C>(
    ar: Arithmetic<C>,
    cfg: Config,
    il: int,
    pos: int,
    q: Seq<u32>,
    c: C,
) -> Seq<u32> {
    let l = cfg.layers@[il];
    attended(
        ar,
        c,
        il as usize,
        (cfg.n_heads as int / l.n_kv_heads as int) as usize as int,
        seen_from(l.window, pos) as usize,
        pos as usize,
        q,
        cfg.n_heads as int,
        l.head_dim as int,
    )
}

/// The model.
pub open spec fn net<C>(ar: Arithmetic<C>, cfg: Config) -> Net<C> {
    Net {
        next: |il: int, pos: int, h: Seq<u32>, c: C|
            (ar.store)(
                c,
                pos as usize,
                key_of(ar, cfg, il, pos, h),
                value_of(ar, cfg, il, h),
            ),
        out: |il: int, pos: int, h: Seq<u32>, c: C|
            after_ffn(
                ar,
                cfg,
                il,
                after_attention(
                    ar,
                    cfg,
                    il,
                    h,
                    seen(ar, cfg, il, pos, query_of(ar, cfg, il, pos, h), c),
                ),
            ),
    }
}

/// Sizes under which the numbers of a layer's rows are themselves.
proof fn lemma_counts(cfg: Config, il: int, t: int, max: int)
    requires
        sizable(cfg, max),
        0 <= il < cfg.n_layers,
        0 <= t <= max <= usize::MAX,
    ensures
        0 <= q_dim(cfg, cfg.layers@[il]) <= usize::MAX,
        0 <= cfg.layers@[il].kv_width() <= usize::MAX,
        0 <= t * cfg.n_heads <= usize::MAX,
        0 <= t * cfg.layers@[il].n_kv_heads <= usize::MAX,
{
    lemma_dims(cfg, il, max);
    let l = cfg.layers@[il];
    let (a, b) = (cfg.n_heads as int, l.n_kv_heads as int);
    assert(0 <= t * a <= max * a && 0 <= t * b <= max * b) by (nonlinear_arith)
        requires
            0 <= t <= max,
            0 <= a,
            0 <= b,
    ;
}

#[verifier::rlimit(40)]
proof fn lemma_qkv<C>(
    ar: Arithmetic<C>,
    ids: Seq<u32>,
    cfg: Config,
    il: int,
    t: int,
    max: int,
    m: Memory<C>,
)
    requires
        sizable(cfg, max),
        0 <= il < cfg.n_layers,
        0 <= t <= max <= usize::MAX,
    ensures
        ({
            let e = run(ar, ids, qkv_steps(cfg, il, t), m);
            let l = cfg.layers@[il];
            let d = cfg.d_model as int;
            &&& forall|i: int|
                #![trigger part(e, Scratch::Q, i, q_dim(cfg, l))]
                0 <= i < t ==> part(e, Scratch::Q, i, q_dim(cfg, l)) == raw_query(
                    ar,
                    cfg,
                    il,
                    part(m, Scratch::H, i, d),
                )
            &&& forall|i: int|
                #![trigger part(e, Scratch::K, i, l.kv_width())]
                0 <= i < t ==> part(e, Scratch::K, i, l.kv_width()) == raw_key(
                    ar,
                    cfg,
                    il,
                    part(m, Scratch::H, i, d),
                )
            &&& forall|i: int|
                #![trigger part(e, Scratch::V, i, l.kv_width())]
                0 <= i < t ==> part(e, Scratch::V, i, l.kv_width()) == raw_value(
                    ar,
                    cfg,
                    il,
                    part(m, Scratch::H, i, d),
                )
            &&& forall|i: int, w: int| #[trigger]
                part(e, Scratch::H, i, w) == part(m, Scratch::H, i, w)
            &&& e.kept == m.kept
        }),
{
    lemma_counts(cfg, il, t, max);
    let l = cfg.layers@[il];
    let i = il as usize;
    let h = rows(Scratch::H, t, cfg.d_model as int);
    let x = rows(Scratch::X, t, cfg.d_model as int);
    let q = rows(Scratch::Q, t, q_dim(cfg, l));
    let k = rows(Scratch::K, t, l.kv_width());
    let v = rows(Scratch::V, t, l.kv_width());
    let s = qkv_steps(cfg, il, t);
    let m1 = effect(ar, ids, s[0], m);
    let m2 = effect(ar, ids, s[1], m1);
    let m3 = effect(ar, ids, s[2], m2);
    let m4 = effect(ar, ids, s[3], m3);
    let m5 = effect(ar, ids, s[4], m4);
    let m6 = effect(ar, ids, s[5], m5);
    let m7 = effect(ar, ids, s[6], m6);
    let m8 = effect(ar, ids, s[7], m7);
    let m9 = effect(ar, ids, s[8], m8);
    lemma_flat(ar, ids, s[0], m, h, x, Op::Same, t);
    lemma_flat(ar, ids, s[1], m1, x, x, Op::Norm(Some(Gain::AttnNorm(i))), t);
    lemma_mark(ar, ids, s[2], m2);
    lemma_flat(ar, ids, s[3], m3, x, q, Op::Project(Matrix::Query(i)), t);
    lemma_mark(ar, ids, s[4], m4);
    lemma_flat(ar, ids, s[5], m5, x, k, Op::Project(Matrix::Key(i)), t);
    lemma_mark(ar, ids, s[6], m6);
    if l.v_from_k {
        lemma_flat(ar, ids, s[7], m7, k, v, Op::Same, t);
    } else {
        lemma_flat(ar, ids, s[7], m7, x, v, Op::Project(Matrix::Value(i)), t);
    }
    lemma_mark(ar, ids, s[8], m8);
    assert(run(ar, ids, s, m) == m9) by {
        reveal_with_fuel(run_to, 10);
    }
}

#[verifier::rlimit(40)]
proof fn lemma_heads<C>(
    ar: Arithmetic<C>,
    ids: Seq<u32>,
    cfg: Config,
    il: int,
    t: int,
    max: int,
    base: int,
    m: Memory<C>,
)
    requires
        sizable(cfg, max),
        0 <= il < cfg.n_layers,
        0 <= t <= max <= usize::MAX,
        0 <= base <= usize::MAX,
    ensures
        ({
            let e = run(ar, ids, head_steps(cfg, il, t, base), m);
            let l = cfg.layers@[il];
            let (w, nh, nkv) = (l.head_dim as int, cfg.n_heads as int, l.n_kv_heads as int);
            let i_ = il as usize;
            &&& forall|i: int|
                #![trigger part(e, Scratch::Q, i, q_dim(cfg, l))]
                0 <= i < t ==> part(e, Scratch::Q, i, q_dim(cfg, l)) == each(
                    ar,
                    turn(cfg, il, base + i),
                    each(
                        ar,
                        Op::Norm(Some(Gain::QueryNorm(i_))),
                        part(m, Scratch::Q, i, q_dim(cfg, l)),
                        nh,
                        w,
                        w,
                    ),
                    nh,
                    w,
                    w,
                )
            &&& forall|i: int|
                #![trigger part(e, Scratch::K, i, l.kv_width())]
                0 <= i < t ==> part(e, Scratch::K, i, l.kv_width()) == each(
                    ar,
                    turn(cfg, il, base + i),
                    each(
                        ar,
                        Op::Norm(Some(Gain::KeyNorm(i_))),
                        part(m, Scratch::K, i, l.kv_width()),
                        nkv,
                        w,
                        w,
                    ),
                    nkv,
                    w,
                    w,
                )
            &&& forall|i: int|
                #![trigger part(e, Scratch::V, i, l.kv_width())]
                0 <= i < t ==> part(e, Scratch::V, i, l.kv_width()) == each(
                    ar,
                    Op::Norm(None),
                    part(m, Scratch::V, i, l.kv_width()),
                    nkv,
                    w,
                    w,
                )
            &&& forall|i: int, w: int| #[trigger]
                part(e, Scratch::H, i, w) == part(m, Scratch::H, i, w)
            &&& e.kept == m.kept
        }),
{
    lemma_counts(cfg, il, t, max);
    let l = cfg.layers@[il];
    let i = il as usize;
    let q = rows(Scratch::Q, t * cfg.n_heads, l.head_dim as int);
    let k = rows(Scratch::K, t * l.n_kv_heads, l.head_dim as int);
    let v = rows(Scratch::V, t * l.n_kv_heads, l.head_dim as int);
    let (nh, nkv) = (cfg.n_heads as int, l.n_kv_heads as int);
    let s = head_steps(cfg, il, t, base);
    let m1 = effect(ar, ids, s[0], m);
    let m2 = effect(ar, ids, s[1], m1);
    let m3 = effect(ar, ids, s[2], m2);
    let m4 = effect(ar, ids, s[3], m3);
    let m5 = effect(ar, ids, s[4], m4);
    let m6 = effect(ar, ids, s[5], m5);
    let m7 = effect(ar, ids, s[6], m6);
    let m8 = effect(ar, ids, s[7], m7);
    let m9 = effect(ar, ids, s[8], m8);
    let m10 = effect(ar, ids, s[9], m9);
    lemma_one(ar, ids, s[0], m, q, q, Op::Norm(Some(Gain::QueryNorm(i))), t, nh);
    lemma_mark(ar, ids, s[1], m1);
    lemma_turn(
        ar,
        ids,
        s[2],
        m2,
        q,
        i,
        l.rope_factors,
        l.head_dim,
        base as usize,
        t,
        cfg.n_heads,
    );
    lemma_mark(ar, ids, s[3], m3);
    lemma_one(ar, ids, s[4], m4, k, k, Op::Norm(Some(Gain::KeyNorm(i))), t, nkv);
    lemma_mark(ar, ids, s[5], m5);
    lemma_turn(
        ar,
        ids,
        s[6],
        m6,
        k,
        i,
        l.rope_factors,
        l.head_dim,
        base as usize,
        t,
        l.n_kv_heads,
    );
    lemma_mark(ar, ids, s[7], m7);
    lemma_one(ar, ids, s[8], m8, v, v, Op::Norm(None), t, nkv);
    lemma_mark(ar, ids, s[9], m9);
    assert(run(ar, ids, s, m) == m10) by {
        reveal_with_fuel(run_to, 11);
    }
}

/// Keeping a token's key and value.
proof fn lemma_store<C>(
    ar: Arithmetic<C>,
    ids: Seq<u32>,
    cfg: Config,
    il: int,
    i: int,
    t: int,
    max: int,
    base: int,
    m: Memory<C>,
)
    requires
        sizable(cfg, max),
        0 <= il < cfg.n_layers,
        0 <= i < t <= max <= usize::MAX,
    ensures
        ({
            let e = effect(ar, ids, store_step(cfg, il, base, i), m);
            let kv = cfg.layers@[il].kv_width();
            &&& forall|b: Scratch, j: int, w: int| #[trigger] part(e, b, j, w) == part(m, b, j, w)
            &&& forall|l: usize| l != il as usize ==> #[trigger] (e.kept)(l) == (m.kept)(l)
            &&& (e.kept)(il as usize) == (ar.store)(
                (m.kept)(il as usize),
                (base + i) as usize,
                part(m, Scratch::K, i, kv),
                part(m, Scratch::V, i, kv),
            )
        }),
{
    let s = store_step(cfg, il, base, i);
    let e = effect(ar, ids, s, m);
    let kv = cfg.layers@[il].kv_width();
    lemma_dims(cfg, il, max);
    assert(size_of(cfg, max, Scratch::K) <= usize::MAX);
    lemma_start(i, t, max, kv, usize::MAX as int);
    assert(1 * kv == kv);
    assert forall|b: Scratch, j: int, w: int| #[trigger] part(e, b, j, w) == part(m, b, j, w) by {
        assert(part(e, b, j, w) =~= part(m, b, j, w));
    }
    let k = rows_of(Scratch::K, i, 1, kv);
    let v = rows_of(Scratch::V, i, 1, kv);
    assert(row(m, k, 0) =~= part(m, Scratch::K, i, kv));
    assert(row(m, v, 0) =~= part(m, Scratch::V, i, kv));
    assert((e.kept)(il as usize) == keeps(ar, s, m, il as usize));
}

/// Attention of a token.
proof fn lemma_attend<C>(
    ar: Arithmetic<C>,
    ids: Seq<u32>,
    cfg: Config,
    il: int,
    i: int,
    t: int,
    max: int,
    base: int,
    m: Memory<C>,
)
    requires
        sizable(cfg, max),
        0 <= il < cfg.n_layers,
        0 <= i < t <= max <= usize::MAX,
    ensures
        ({
            let e = effect(ar, ids, attend_step(cfg, il, base, i), m);
            let qd = q_dim(cfg, cfg.layers@[il]);
            &&& part(e, Scratch::Attn, i, qd) == seen(
                ar,
                cfg,
                il,
                base + i,
                part(m, Scratch::Q, i, qd),
                (m.kept)(il as usize),
            )
            &&& forall|j: int|
                0 <= j < i ==> #[trigger] part(e, Scratch::Attn, j, qd) == part(
                    m,
                    Scratch::Attn,
                    j,
                    qd,
                )
            &&& forall|b: Scratch, j: int, w: int|
                b != Scratch::Attn ==> #[trigger] part(e, b, j, w) == part(m, b, j, w)
            &&& e.kept == m.kept
        }),
{
    let s = attend_step(cfg, il, base, i);
    let e = effect(ar, ids, s, m);
    let l = cfg.layers@[il];
    let qd = q_dim(cfg, l);
    let (nh, hd) = (cfg.n_heads as int, l.head_dim as int);
    lemma_dims(cfg, il, max);
    assert(size_of(cfg, max, Scratch::Q) <= usize::MAX);
    lemma_start(i, t, max, qd, usize::MAX as int);
    let y = rows_of(Scratch::Attn, i, nh, hd);
    let q = rows_of(Scratch::Q, i, nh, hd);
    assert(y.first == i * qd && q.first == i * qd);
    assert(e.kept =~= m.kept);
    assert forall|b: Scratch, j: int, w: int| b != Scratch::Attn implies #[trigger] part(e, b, j, w)
        == part(m, b, j, w) by {
        assert(part(e, b, j, w) =~= part(m, b, j, w));
    }
    assert forall|j: int| 0 <= j < i implies #[trigger] part(e, Scratch::Attn, j, qd) == part(
        m,
        Scratch::Attn,
        j,
        qd,
    ) by {
        assert(j * qd + qd <= i * qd) by (nonlinear_arith)
            requires
                j + 1 <= i,
                0 <= qd,
        ;
        assert(part(e, Scratch::Attn, j, qd) =~= part(m, Scratch::Attn, j, qd));
    }
    let want = seen(
        ar,
        cfg,
        il,
        base + i,
        part(m, Scratch::Q, i, qd),
        (m.kept)(il as usize),
    );
    let got = part(e, Scratch::Attn, i, qd);
    assert forall|j: int| 0 <= j < qd implies #[trigger] got[j] == want[j] by {
        lemma_index(0, 1, nh, hd, j);
        let x = i * qd + j;
        let h = j / hd;
        assert(covers(y, Scratch::Attn, x));
        assert((e.cells)(Scratch::Attn, x) == becomes(ar, ids, s, m, Scratch::Attn, x));
        let of_all = row(m, q, h);
        let of_token = head(part(m, Scratch::Q, i, qd), h, hd);
        assert forall|c: int| 0 <= c < hd implies #[trigger] of_all[c] == of_token[c] by {
            assert(0 <= h * hd + c < nh * hd) by (nonlinear_arith)
                requires
                    0 <= h < nh,
                    0 <= c < hd,
            ;
        }
        assert(of_all =~= of_token);
    }
    assert(got =~= want);
}

/// Each token in its turn is kept and attends.
proof fn lemma_attn<C>(
    ar: Arithmetic<C>,
    ids: Seq<u32>,
    cfg: Config,
    il: int,
    t: int,
    max: int,
    base: int,
    hs: Seq<Seq<u32>>,
    n: int,
    m: Memory<C>,
)
    requires
        sizable(cfg, max),
        0 <= il < cfg.n_layers,
        0 <= n <= t <= max <= usize::MAX,
        forall|i: int|
            0 <= i < t ==> #[trigger] part(m, Scratch::Q, i, q_dim(cfg, cfg.layers@[il]))
                == query_of(ar, cfg, il, base + i, hs[i]),
        forall|i: int|
            0 <= i < t ==> #[trigger] part(m, Scratch::K, i, cfg.layers@[il].kv_width()) == key_of(
                ar,
                cfg,
                il,
                base + i,
                hs[i],
            ),
        forall|i: int|
            0 <= i < t ==> #[trigger] part(m, Scratch::V, i, cfg.layers@[il].kv_width())
                == value_of(ar, cfg, il, hs[i]),
    ensures
        ({
            let e = run_to(ar, ids, attn_steps(cfg, il, t, base), 2 * n, m);
            let c = (m.kept)(il as usize);
            &&& forall|i: int|
                0 <= i < n ==> #[trigger] part(e, Scratch::Attn, i, q_dim(cfg, cfg.layers@[il]))
                    == seen(
                        ar,
                        cfg,
                        il,
                        base + i,
                        query_of(ar, cfg, il, base + i, hs[i]),
                        cached(net(ar, cfg), il, base, hs, i + 1, c),
                    )
            &&& forall|b: Scratch, i: int, w: int|
                b != Scratch::Attn ==> #[trigger] part(e, b, i, w) == part(m, b, i, w)
            &&& (e.kept)(il as usize) == cached(net(ar, cfg), il, base, hs, n, c)
            &&& forall|l: usize| l != il as usize ==> #[trigger] (e.kept)(l) == (m.kept)(l)
        }),
    decreases n,
{
    if n > 0 {
        let v = attn_steps(cfg, il, t, base);
        lemma_attn(ar, ids, cfg, il, t, max, base, hs, n - 1, m);
        let e0 = run_to(ar, ids, v, 2 * (n - 1), m);
        let e1 = effect(ar, ids, store_step(cfg, il, base, n - 1), e0);
        let e2 = effect(ar, ids, attend_step(cfg, il, base, n - 1), e1);
        assert((2 * n - 2) / 2 == n - 1 && (2 * n - 1) / 2 == n - 1);
        assert(v[2 * n - 2] == store_step(cfg, il, base, n - 1));
        assert(v[2 * n - 1] == attend_step(cfg, il, base, n - 1));
        assert(run_to(ar, ids, v, 2 * n - 1, m) == e1);
        assert(run_to(ar, ids, v, 2 * n, m) == e2);
        lemma_store(ar, ids, cfg, il, n - 1, t, max, base, e0);
        lemma_attend(ar, ids, cfg, il, n - 1, t, max, base, e1);
    }
}

#[verifier::rlimit(40)]
proof fn lemma_out<C>(
    ar: Arithmetic<C>,
    ids: Seq<u32>,
    cfg: Config,
    il: int,
    t: int,
    max: int,
    m: Memory<C>,
)
    requires
        sizable(cfg, max),
        0 <= il < cfg.n_layers,
        0 <= t <= max <= usize::MAX,
    ensures
        ({
            let e = run(ar, ids, out_steps(cfg, il, t), m);
            let d = cfg.d_model as int;
            &&& forall|i: int|
                0 <= i < t ==> #[trigger] part(e, Scratch::H, i, d) == after_attention(
                    ar,
                    cfg,
                    il,
                    part(m, Scratch::H, i, d),
                    part(m, Scratch::Attn, i, q_dim(cfg, cfg.layers@[il])),
                )
            &&& e.kept == m.kept
        }),
{
    lemma_counts(cfg, il, t, max);
    let i = il as usize;
    let h = rows(Scratch::H, t, cfg.d_model as int);
    let attn = rows(Scratch::Attn, t, q_dim(cfg, cfg.layers@[il]));
    let proj = rows(Scratch::Proj, t, cfg.d_model as int);
    let s = out_steps(cfg, il, t);
    let m1 = effect(ar, ids, s[0], m);
    let m2 = effect(ar, ids, s[1], m1);
    let m3 = effect(ar, ids, s[2], m2);
    let m4 = effect(ar, ids, s[3], m3);
    let m5 = effect(ar, ids, s[4], m4);
    let m6 = effect(ar, ids, s[5], m5);
    lemma_mark(ar, ids, s[0], m);
    lemma_flat(ar, ids, s[1], m1, attn, proj, Op::Project(Matrix::AttnOutput(i)), t);
    lemma_flat(ar, ids, s[2], m2, proj, proj, Op::Norm(Some(Gain::PostAttentionNorm(i))), t);
    lemma_mark(ar, ids, s[3], m3);
    lemma_two(ar, ids, s[4], m4, h, proj, Pair::Sum, t);
    lemma_mark(ar, ids, s[5], m5);
    assert(run(ar, ids, s, m) == m6) by {
        reveal_with_fuel(run_to, 7);
    }
}

#[verifier::rlimit(60)]
#[verifier::spinoff_prover]
proof fn lemma_ffn<C>(
    ar: Arithmetic<C>,
    ids: Seq<u32>,
    cfg: Config,
    il: int,
    t: int,
    m: Memory<C>,
)
    requires
        0 <= il < cfg.n_layers,
        0 <= t <= usize::MAX,
    ensures
        ({
            let e = run(ar, ids, ffn_steps(cfg, il, t), m);
            let d = cfg.d_model as int;
            &&& forall|i: int|
                0 <= i < t ==> #[trigger] part(e, Scratch::H, i, d) == after_ffn(
                    ar,
                    cfg,
                    il,
                    part(m, Scratch::H, i, d),
                )
            &&& e.kept == m.kept
        }),
{
    let i = il as usize;
    let h = rows(Scratch::H, t, cfg.d_model as int);
    let x = rows(Scratch::X, t, cfg.d_model as int);
    let gate = rows(Scratch::Gate, t, cfg.ffn_dim as int);
    let up = rows(Scratch::Up, t, cfg.ffn_dim as int);
    let proj = rows(Scratch::Proj, t, cfg.d_model as int);
    let s = ffn_steps(cfg, il, t);
    let m1 = effect(ar, ids, s[0], m);
    let m2 = effect(ar, ids, s[1], m1);
    let m3 = effect(ar, ids, s[2], m2);
    let m4 = effect(ar, ids, s[3], m3);
    let m5 = effect(ar, ids, s[4], m4);
    let m6 = effect(ar, ids, s[5], m5);
    let m7 = effect(ar, ids, s[6], m6);
    let m8 = effect(ar, ids, s[7], m7);
    let m9 = effect(ar, ids, s[8], m8);
    let m10 = effect(ar, ids, s[9], m9);
    let m11 = effect(ar, ids, s[10], m10);
    let m12 = effect(ar, ids, s[11], m11);
    lemma_flat(ar, ids, s[0], m, h, x, Op::Same, t);
    lemma_flat(ar, ids, s[1], m1, x, x, Op::Norm(Some(Gain::FfnNorm(i))), t);
    lemma_mark(ar, ids, s[2], m2);
    lemma_flat(ar, ids, s[3], m3, x, gate, Op::Project(Matrix::FfnGate(i)), t);
    lemma_flat(ar, ids, s[4], m4, x, up, Op::Project(Matrix::FfnUp(i)), t);
    lemma_two(ar, ids, s[5], m5, gate, up, Pair::Geglu, t);
    lemma_mark(ar, ids, s[6], m6);
    lemma_flat(ar, ids, s[7], m7, gate, proj, Op::Project(Matrix::FfnDown(i)), t);
    lemma_flat(ar, ids, s[8], m8, proj, proj, Op::Norm(Some(Gain::PostFfwNorm(i))), t);
    lemma_mark(ar, ids, s[9], m9);
    lemma_two(ar, ids, s[10], m10, h, proj, Pair::ScaledSum(i), t);
    lemma_mark(ar, ids, s[11], m11);
    assert(run(ar, ids, s, m) == m12) by {
        reveal_with_fuel(run_to, 13);
    }
    let (d, f) = (cfg.d_model as int, cfg.ffn_dim as int);
    assert forall|j: int| 0 <= j < t implies #[trigger] part(m12, Scratch::H, j, d) == after_ffn(
        ar,
        cfg,
        il,
        part(m, Scratch::H, j, d),
    ) by {
        assert(part(m2, Scratch::X, j, d) == normed(
            ar,
            d,
            Gain::FfnNorm(i),
            part(m, Scratch::H, j, d),
        ));
        assert(part(m4, Scratch::X, j, d) == part(m2, Scratch::X, j, d));
        assert(part(m4, Scratch::Gate, j, f) == each(
            ar,
            Op::Project(Matrix::FfnGate(i)),
            part(m2, Scratch::X, j, d),
            1,
            d,
            f,
        ));
        assert(part(m5, Scratch::Up, j, f) == each(
            ar,
            Op::Project(Matrix::FfnUp(i)),
            part(m2, Scratch::X, j, d),
            1,
            d,
            f,
        ));
        assert(part(m5, Scratch::Gate, j, f) == part(m4, Scratch::Gate, j, f));
        assert(part(m7, Scratch::Gate, j, f) == both(
            ar,
            Pair::Geglu,
            part(m5, Scratch::Gate, j, f),
            part(m5, Scratch::Up, j, f),
            f,
        ));
        assert(part(m8, Scratch::Proj, j, d) == each(
            ar,
            Op::Project(Matrix::FfnDown(i)),
            part(m7, Scratch::Gate, j, f),
            1,
            f,
            d,
        ));
        assert(part(m10, Scratch::Proj, j, d) == each(
            ar,
            Op::Norm(Some(Gain::PostFfwNorm(i))),
            part(m8, Scratch::Proj, j, d),
            1,
            d,
            d,
        ));
        assert(part(m11, Scratch::H, j, d) == both(
            ar,
            Pair::ScaledSum(i),
            part(m10, Scratch::H, j, d),
            part(m10, Scratch::Proj, j, d),
            d,
        ));
        assert(part(m10, Scratch::H, j, d) == part(m9, Scratch::H, j, d));
        assert(part(m9, Scratch::H, j, d) == part(m8, Scratch::H, j, d));
        assert(part(m8, Scratch::H, j, d) == part(m7, Scratch::H, j, d));
        assert(part(m6, Scratch::H, j, d) == part(m5, Scratch::H, j, d));
        assert(part(m5, Scratch::H, j, d) == part(m4, Scratch::H, j, d));
        assert(part(m4, Scratch::H, j, d) == part(m3, Scratch::H, j, d));
        assert(part(m2, Scratch::H, j, d) == part(m1, Scratch::H, j, d));
    }
}

/// A layer's steps do what the layer does to each token in its turn.
#[verifier::rlimit(40)]
pub(crate) proof fn lemma_layer<C>(
    ar: Arithmetic<C>,
    ids: Seq<u32>,
    cfg: Config,
    il: int,
    t: int,
    max: int,
    base: int,
    m: Memory<C>,
)
    requires
        sizable(cfg, max),
        0 <= il < cfg.n_layers,
        0 <= t <= max <= usize::MAX,
        0 <= base <= usize::MAX,
    ensures
        ({
            let e = run(ar, ids, layer_steps(cfg, il, t, base), m);
            let c = (m.kept)(il as usize);
            let hs = stream(m, cfg.d_model as int, t);
            &&& stream(e, cfg.d_model as int, t) == layered(net(ar, cfg), il, base, hs, c)
            &&& (e.kept)(il as usize) == cached(net(ar, cfg), il, base, hs, t, c)
            &&& forall|l: usize| l != il as usize ==> #[trigger] (e.kept)(l) == (m.kept)(l)
        }),
{
    let l = cfg.layers@[il];
    let d = cfg.d_model as int;
    let hs = stream(m, d, t);
    let (v1, v2) = (qkv_steps(cfg, il, t), head_steps(cfg, il, t, base));
    let (v3, v4) = (attn_steps(cfg, il, t, base), out_steps(cfg, il, t));
    let v5 = ffn_steps(cfg, il, t);
    let m1 = run(ar, ids, v1, m);
    let m2 = run(ar, ids, v2, m1);
    let m3 = run(ar, ids, v3, m2);
    let m4 = run(ar, ids, v4, m3);
    let m5 = run(ar, ids, v5, m4);
    lemma_run_concat(ar, ids, v1, v2, m);
    lemma_run_concat(ar, ids, v1 + v2, v3, m);
    lemma_run_concat(ar, ids, v1 + v2 + v3, v4, m);
    lemma_run_concat(ar, ids, v1 + v2 + v3 + v4, v5, m);
    lemma_qkv(ar, ids, cfg, il, t, max, m);
    lemma_heads(ar, ids, cfg, il, t, max, base, m1);
    assert forall|i: int| 0 <= i < t implies #[trigger] part(m2, Scratch::Q, i, q_dim(cfg, l))
        == query_of(ar, cfg, il, base + i, hs[i]) by {
        assert(part(m1, Scratch::Q, i, q_dim(cfg, l)) == raw_query(ar, cfg, il, hs[i]));
    }
    assert forall|i: int| 0 <= i < t implies #[trigger] part(m2, Scratch::K, i, l.kv_width())
        == key_of(ar, cfg, il, base + i, hs[i]) by {
        assert(part(m1, Scratch::K, i, l.kv_width()) == raw_key(ar, cfg, il, hs[i]));
    }
    assert forall|i: int| 0 <= i < t implies #[trigger] part(m2, Scratch::V, i, l.kv_width())
        == value_of(ar, cfg, il, hs[i]) by {
        assert(part(m1, Scratch::V, i, l.kv_width()) == raw_value(ar, cfg, il, hs[i]));
    }
    lemma_attn(ar, ids, cfg, il, t, max, base, hs, t, m2);
    assert(v3.len() == 2 * t);
    lemma_out(ar, ids, cfg, il, t, max, m3);
    lemma_ffn(ar, ids, cfg, il, t, m4);
    let c = (m.kept)(il as usize);
    let want = layered(net(ar, cfg), il, base, hs, c);
    assert forall|i: int| 0 <= i < t implies #[trigger] stream(m5, d, t)[i] == want[i] by {
        assert(part(m5, Scratch::H, i, d) == after_ffn(ar, cfg, il, part(m4, Scratch::H, i, d)));
        assert(part(m3, Scratch::H, i, d) == part(m2, Scratch::H, i, d));
        assert(part(m2, Scratch::H, i, d) == part(m1, Scratch::H, i, d));
        assert(part(m1, Scratch::H, i, d) == hs[i]);
        assert(part(m3, Scratch::Attn, i, q_dim(cfg, l)) == seen(
            ar,
            cfg,
            il,
            base + i,
            query_of(ar, cfg, il, base + i, hs[i]),
            cached(net(ar, cfg), il, base, hs, i + 1, c),
        ));
    }
    assert(stream(m5, d, t) =~= want);
}

/// The layers do in turn what each does.
proof fn lemma_layers<C>(
    ar: Arithmetic<C>,
    ids: Seq<u32>,
    cfg: Config,
    n: int,
    t: int,
    max: int,
    base: int,
    m: Memory<C>,
)
    requires
        sizable(cfg, max),
        0 <= n <= cfg.n_layers,
        0 <= t <= max <= usize::MAX,
        0 <= base <= usize::MAX,
    ensures
        ({
            let e = run(ar, ids, layers_steps(cfg, n, t, base), m);
            let hs = stream(m, cfg.d_model as int, t);
            &&& stream(e, cfg.d_model as int, t) == through(net(ar, cfg), n, base, hs, m.kept)
            &&& leaves(net(ar, cfg), n, base, hs, m.kept, e.kept)
        }),
    decreases n,
{
    if n > 0 {
        lemma_layers(ar, ids, cfg, n - 1, t, max, base, m);
        let front = layers_steps(cfg, n - 1, t, base);
        let e = run(ar, ids, front, m);
        lemma_run_concat(ar, ids, front, layer_steps(cfg, n - 1, t, base), m);
        lemma_layer(ar, ids, cfg, n - 1, t, max, base, e);
    }
}

/// A token as it enters the first layer.
pub open spec fn entered<C>(ar: Arithmetic<C>, cfg: Config, id: u32) -> Seq<u32> {
    let d = cfg.d_model as int;
    each(ar, Op::Scale, embedded(ar, d, id), 1, d, d)
}

pub open spec fn all_entered<C>(ar: Arithmetic<C>, cfg: Config, ids: Seq<u32>) -> Seq<Seq<u32>> {
    Seq::new(ids.len(), |i: int| entered(ar, cfg, ids[i]))
}

pub(crate) proof fn lemma_entered<C>(ar: Arithmetic<C>, ids: Seq<u32>, cfg: Config, m: Memory<C>)
    requires
        ids.len() <= usize::MAX,
    ensures
        ({
            let e = run(ar, ids, embed_steps(cfg, ids.len() as int), m);
            &&& stream(e, cfg.d_model as int, ids.len() as int) == all_entered(ar, cfg, ids)
            &&& e.kept == m.kept
        }),
{
    let t = ids.len() as int;
    let d = cfg.d_model as int;
    let h = rows(Scratch::H, t, d);
    let s = embed_steps(cfg, t);
    let m1 = effect(ar, ids, s[0], m);
    let m2 = effect(ar, ids, s[1], m1);
    let m3 = effect(ar, ids, s[2], m2);
    let m4 = effect(ar, ids, s[3], m3);
    lemma_embed(ar, ids, h, m);
    lemma_mark(ar, ids, s[1], m1);
    lemma_flat(ar, ids, s[2], m2, h, h, Op::Scale, t);
    lemma_mark(ar, ids, s[3], m3);
    assert(run(ar, ids, s, m) == m4) by {
        reveal_with_fuel(run_to, 5);
    }
    assert(stream(m4, d, t) =~= all_entered(ar, cfg, ids));
}

/// A token is among those that are never emitted.
pub open spec fn hushed(ids: Seq<u32>, x: int) -> bool {
    exists|k: int| 0 <= k < ids.len() && #[trigger] ids[k] == x
}

/// The logits that a last row gives.
pub open spec fn spoken<C>(ar: Arithmetic<C>, cfg: Config, h: Seq<u32>) -> Seq<u32> {
    let (d, v) = (cfg.d_model as int, cfg.vocab as int);
    let x = each(ar, Op::Norm(Some(Gain::OutputNorm)), h, 1, d, d);
    let l = each(ar, Op::Project(Matrix::Output), x, 1, d, v);
    let l = if cfg.logit_softcap is Some {
        each(ar, Op::Cap, l, 1, v, v)
    } else {
        l
    };
    Seq::new(
        v as nat,
        |j: int|
            if hushed(cfg.suppress_tokens@, j) {
                ar.never
            } else {
                l[j]
            },
    )
}

/// Suppressing some tokens, one behind the other.
proof fn lemma_suppress<C>(
    ar: Arithmetic<C>,
    ids: Seq<u32>,
    hush: Seq<u32>,
    n: int,
    m: Memory<C>,
)
    requires
        0 <= n <= hush.len(),
    ensures
        ({
            let e = run_to(ar, ids, hush.map_values(|id: u32| Step::Suppress(id)), n, m);
            &&& forall|x: int|
                #[trigger] (e.cells)(Scratch::Logits, x) == if hushed(hush.take(n), x) {
                    ar.never
                } else {
                    (m.cells)(Scratch::Logits, x)
                }
            &&& e.kept == m.kept
        }),
    decreases n,
{
    let v = hush.map_values(|id: u32| Step::Suppress(id));
    if n > 0 {
        lemma_suppress(ar, ids, hush, n - 1, m);
        let before = run_to(ar, ids, v, n - 1, m);
        let e = run_to(ar, ids, v, n, m);
        let s = Step::Suppress(hush[n - 1]);
        assert(v[n - 1] == s);
        assert(e == effect(ar, ids, s, before));
        assert(e.kept =~= before.kept);
        assert forall|x: int| #[trigger] (e.cells)(Scratch::Logits, x) == if hushed(
            hush.take(n),
            x,
        ) {
            ar.never
        } else {
            (m.cells)(Scratch::Logits, x)
        } by {
            assert((e.cells)(Scratch::Logits, x) == becomes(
                ar,
                ids,
                s,
                before,
                Scratch::Logits,
                x,
            ));
            assert((before.cells)(Scratch::Logits, x) == if hushed(hush.take(n - 1), x) {
                ar.never
            } else {
                (m.cells)(Scratch::Logits, x)
            });
            if hushed(hush.take(n), x) {
                let k = choose|k: int|
                    0 <= k < hush.take(n).len() && #[trigger] hush.take(n)[k] == x;
                if k < n - 1 {
                    assert(hush.take(n - 1)[k] == x);
                }
            }
            if hushed(hush.take(n - 1), x) {
                let k = choose|k: int|
                    0 <= k < hush.take(n - 1).len() && #[trigger] hush.take(n - 1)[k] == x;
                assert(hush.take(n)[k] == x);
            }
            if x == hush[n - 1] {
                assert(hush.take(n)[n - 1] == x);
            }
        }
    }
}

#[verifier::rlimit(40)]
pub(crate) proof fn lemma_head_out<C>(
    ar: Arithmetic<C>,
    ids: Seq<u32>,
    cfg: Config,
    t: int,
    max: int,
    m: Memory<C>,
)
    requires
        sizable(cfg, max),
        0 < t <= max <= usize::MAX,
    ensures
        ({
            let e = run(ar, ids, head_out_steps(cfg, t), m);
            &&& logits(e, cfg.vocab as int) == spoken(
                ar,
                cfg,
                stream(m, cfg.d_model as int, t)[t - 1],
            )
            &&& e.kept == m.kept
        }),
{
    let (d, v) = (cfg.d_model as int, cfg.vocab as int);
    let h = rows(Scratch::H, t, d);
    let last = rows_of(Scratch::H, t - 1, 1, d);
    let y = rows(Scratch::Logits, 1, v);
    let v1 = seq![
        Step::Norm { rows: h, gain: Some(Gain::OutputNorm) },
        Step::Mark { label: Label::HNextn, rows: h },
        Step::Mark { label: Label::ResultNorm, rows: last },
        Step::Project { matrix: Matrix::Output, x: last, y },
    ];
    let v2 = if cfg.logit_softcap is Some {
        seq![Step::SoftCap(y)]
    } else {
        Seq::empty()
    };
    let v3 = cfg.suppress_tokens@.map_values(|id: u32| Step::Suppress(id));
    let v4 = seq![Step::Mark { label: Label::ResultOutput, rows: y }];
    assert(head_out_steps(cfg, t) == v1 + v2 + v3 + v4);
    let e1 = run(ar, ids, v1, m);
    let e2 = run(ar, ids, v2, e1);
    let e3 = run(ar, ids, v3, e2);
    let e4 = run(ar, ids, v4, e3);
    lemma_run_concat(ar, ids, v1, v2, m);
    lemma_run_concat(ar, ids, v1 + v2, v3, m);
    lemma_run_concat(ar, ids, v1 + v2 + v3, v4, m);

    let m1 = effect(ar, ids, v1[0], m);
    let m2 = effect(ar, ids, v1[1], m1);
    let m3 = effect(ar, ids, v1[2], m2);
    let m4 = effect(ar, ids, v1[3], m3);
    lemma_flat(ar, ids, v1[0], m, h, h, Op::Norm(Some(Gain::OutputNorm)), t);
    lemma_mark(ar, ids, v1[1], m1);
    lemma_mark(ar, ids, v1[2], m2);
    assert(e1 == m4) by {
        reveal_with_fuel(run_to, 5);
    }
    assert(size_of(cfg, max, Scratch::H) <= usize::MAX);
    lemma_start(t - 1, t, max, d, usize::MAX as int);
    lemma_last(ar, ids, Matrix::Output, t - 1, d, v, m3);

    if cfg.logit_softcap is Some {
        lemma_flat(ar, ids, v2[0], e1, y, y, Op::Cap, 1);
        assert(e2 == effect(ar, ids, v2[0], e1)) by {
            reveal_with_fuel(run_to, 2);
        }
    } else {
        assert(e2 == e1);
    }
    let l = part(e2, Scratch::Logits, 0, v);
    let x = each(
        ar,
        Op::Norm(Some(Gain::OutputNorm)),
        part(m, Scratch::H, t - 1, d),
        1,
        d,
        d,
    );
    assert(part(m3, Scratch::H, t - 1, d) == x);
    let raw = each(ar, Op::Project(Matrix::Output), x, 1, d, v);
    assert(l == if cfg.logit_softcap is Some {
        each(ar, Op::Cap, raw, 1, v, v)
    } else {
        raw
    });
    lemma_suppress(ar, ids, cfg.suppress_tokens@, cfg.suppress_tokens@.len() as int, e2);
    assert(cfg.suppress_tokens@.take(cfg.suppress_tokens@.len() as int)
        =~= cfg.suppress_tokens@);
    lemma_mark(ar, ids, v4[0], e3);
    assert(e4 == e3) by {
        reveal_with_fuel(run_to, 2);
    }
    let want = spoken(ar, cfg, stream(m, d, t)[t - 1]);
    assert forall|j: int| 0 <= j < v implies #[trigger] logits(e4, v)[j] == want[j] by {
        assert((e3.cells)(Scratch::Logits, j) == if hushed(cfg.suppress_tokens@, j) {
            ar.never
        } else {
            (e2.cells)(Scratch::Logits, j)
        });
        assert(l[j] == (e2.cells)(Scratch::Logits, 0 * v + j));
    }
    assert(logits(e4, v) =~= want);
}

/// What a whole pass leaves.
proof fn lemma_pass<C>(
    ar: Arithmetic<C>,
    ids: Seq<u32>,
    cfg: Config,
    max: int,
    base: int,
    m: Memory<C>,
)
    requires
        sizable(cfg, max),
        0 < ids.len() <= max <= usize::MAX,
        0 <= base <= usize::MAX,
    ensures
        ({
            let e = run(ar, ids, steps(cfg, ids.len() as int, base), m);
            let hs = all_entered(ar, cfg, ids);
            let out = through(net(ar, cfg), cfg.n_layers as int, base, hs, m.kept);
            &&& logits(e, cfg.vocab as int) == spoken(ar, cfg, out[ids.len() - 1])
            &&& leaves(net(ar, cfg), cfg.n_layers as int, base, hs, m.kept, e.kept)
        }),
{
    let t = ids.len() as int;
    let v1 = embed_steps(cfg, t);
    let v2 = layers_steps(cfg, cfg.n_layers as int, t, base);
    let v3 = head_out_steps(cfg, t);
    let m1 = run(ar, ids, v1, m);
    let m2 = run(ar, ids, v2, m1);
    lemma_run_concat(ar, ids, v1, v2, m);
    lemma_run_concat(ar, ids, v1 + v2, v3, m);
    lemma_entered(ar, ids, cfg, m);
    lemma_layers(ar, ids, cfg, cfg.n_layers as int, t, max, base, m1);
    lemma_head_out(ar, ids, cfg, t, max, m2);
}

/// Splitting a batch changes nothing, whatever the arithmetic: a pass over `a` and `b`
/// together leaves the logits that a pass over `a` and then one over `b` leave, and
/// every layer keeps the same. What the scratch buffers held before does not matter.
pub proof fn batching_changes_nothing<C>(
    ar: Arithmetic<C>,
    cfg: Config,
    a: Seq<u32>,
    b: Seq<u32>,
    max: int,
    base: int,
    m: Memory<C>,
)
    requires
        sizable(cfg, max),
        0 < a.len(),
        0 < b.len(),
        a.len() + b.len() <= max <= usize::MAX,
        0 <= base,
        base + a.len() + b.len() <= usize::MAX,
    ensures
        ({
            let whole = run(ar, a + b, steps(cfg, (a + b).len() as int, base), m);
            let first = run(ar, a, steps(cfg, a.len() as int, base), m);
            let then = run(ar, b, steps(cfg, b.len() as int, base + a.len()), first);
            &&& logits(whole, cfg.vocab as int) == logits(then, cfg.vocab as int)
            &&& whole.kept == then.kept
        }),
{
    let n = cfg.n_layers as int;
    let (ha, hb) = (all_entered(ar, cfg, a), all_entered(ar, cfg, b));
    let whole = run(ar, a + b, steps(cfg, (a + b).len() as int, base), m);
    let first = run(ar, a, steps(cfg, a.len() as int, base), m);
    let then = run(ar, b, steps(cfg, b.len() as int, base + a.len()), first);
    lemma_pass(ar, a + b, cfg, max, base, m);
    lemma_pass(ar, a, cfg, max, base, m);
    lemma_pass(ar, b, cfg, max, base + a.len(), first);
    assert(all_entered(ar, cfg, a + b) =~= ha + hb);
    lemma_batches(
        net(ar, cfg),
        n,
        base,
        ha,
        hb,
        m.kept,
        first.kept,
        then.kept,
        whole.kept,
    );
}

/// A pass gives a logit for every token of the vocabulary, and those that are never
/// emitted have the logit that says so.
pub proof fn suppressed_tokens_are_never_spoken<C>(
    ar: Arithmetic<C>,
    cfg: Config,
    ids: Seq<u32>,
    max: int,
    base: int,
    m: Memory<C>,
    x: int,
)
    requires
        sizable(cfg, max),
        0 < ids.len() <= max <= usize::MAX,
        0 <= base <= usize::MAX,
        0 <= x < cfg.vocab,
        hushed(cfg.suppress_tokens@, x),
    ensures
        ({
            let e = run(ar, ids, steps(cfg, ids.len() as int, base), m);
            &&& logits(e, cfg.vocab as int).len() == cfg.vocab
            &&& logits(e, cfg.vocab as int)[x] == ar.never
        }),
{
    lemma_pass(ar, ids, cfg, max, base, m);
}

} // verus!
