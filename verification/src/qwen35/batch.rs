//! Splitting a batch changes nothing in the hybrid stack either.
//!
//! A recurrent layer takes the tokens in one by one, so its state joins at any cut. A
//! full-attention layer keeps every position of a batch before any token attends, so
//! there it also matters that attention does not look behind its own position; that,
//! and no more, is asked of the arithmetic.

use crate::cpu::meaning::{
    absorbed, becomes, both, cached, covers, each, each_pair, each_within, effect, embedded, keeps,
    lane, layered, leaves, lemma_batches, lemma_embed, lemma_flat, lemma_index, lemma_last,
    lemma_mark, lemma_one, lemma_pairs, lemma_run_concat, lemma_start, lemma_step, lemma_turn,
    lemma_two, lemma_within, logits, normed, part, result, row, run, run_to, stream, through,
    Arithmetic, Memory, Net, Op, Pair,
};
use crate::cpu::{rows, rows_of, Gain, Matrix, Rows, Scratch};
use crate::qwen35::config::Config;
use crate::qwen35::cpu::{
    attend_step, attn_steps, attn_width, embed_steps, ffn_steps, gates, head_out_steps,
    layer_steps, layers_steps, lemma_products, linear_steps, mixer_steps, norm_steps, out_steps,
    q_width, qkv_steps, queries, query, sizable, size_of, steps, store_step, stride,
};
use vstd::prelude::*;

verus! {

/// Attention from a position does not see what is kept of a later one.
pub open spec fn looks_back<C>(ar: Arithmetic<C>) -> bool {
    forall|
        c: C,
        p: usize,
        k: Seq<u32>,
        v: Seq<u32>,
        layer: usize,
        head: int,
        from: usize,
        pos: usize,
        q: Seq<u32>,
    |
        pos < p ==> #[trigger] (ar.attend)((ar.store)(c, p, k, v), layer, head, from, pos, q) == (
        ar.attend)(c, layer, head, from, pos, q)
}

// ---------------------------------------------------------------------------
// A layer, token by token
// ---------------------------------------------------------------------------
/// A token's row before the projections of a layer.
pub open spec fn ready<C>(ar: Arithmetic<C>, cfg: Config, il: int, h: Seq<u32>) -> Seq<u32> {
    normed(ar, cfg.d_model as int, Gain::AttnNorm(il as usize), h)
}

/// A projection of a token's row to `w` numbers.
pub open spec fn projected<C>(ar: Arithmetic<C>, cfg: Config, a: Matrix, x: Seq<u32>, w: int) -> Seq<u32> {
    each(ar, Op::Project(a), x, 1, cfg.d_model as int, w)
}

/// The rotation of a layer at a position.
pub open spec fn turn(cfg: Config, il: int, pos: int) -> Op {
    Op::Turn { layer: il as usize, factors: false, turning: cfg.n_rot, pos }
}

/// The queries of a token at a position, with the gates beside them.
pub open spec fn query_of<C>(ar: Arithmetic<C>, cfg: Config, il: int, pos: int, x: Seq<u32>) -> Seq<u32> {
    let (n, st, w) = (cfg.n_heads as int, stride(cfg), cfg.head_dim as int);
    let q = projected(ar, cfg, Matrix::Query(il as usize), x, q_width(cfg));
    let q = each_within(ar, Op::Norm(Some(Gain::QueryNorm(il as usize))), q, n, st, w);
    each_within(ar, turn(cfg, il, pos), q, n, st, w)
}

/// The key of a token at a position.
pub open spec fn key_of<C>(ar: Arithmetic<C>, cfg: Config, il: int, pos: int, x: Seq<u32>) -> Seq<u32> {
    let (n, w) = (cfg.n_kv_heads as int, cfg.head_dim as int);
    let k = projected(ar, cfg, Matrix::Key(il as usize), x, cfg.kv_width());
    let k = each(ar, Op::Norm(Some(Gain::KeyNorm(il as usize))), k, n, w, w);
    each(ar, turn(cfg, il, pos), k, n, w, w)
}

/// The value of a token.
pub open spec fn value_of<C>(ar: Arithmetic<C>, cfg: Config, il: int, x: Seq<u32>) -> Seq<u32> {
    projected(ar, cfg, Matrix::Value(il as usize), x, cfg.kv_width())
}

/// What the recurrence takes of a token.
pub open spec fn mix_of<C>(ar: Arithmetic<C>, cfg: Config, il: int, x: Seq<u32>) -> Seq<u32> {
    projected(ar, cfg, Matrix::Qkv(il as usize), x, cfg.conv_width())
}

pub open spec fn alpha_of<C>(ar: Arithmetic<C>, cfg: Config, il: int, x: Seq<u32>) -> Seq<u32> {
    projected(ar, cfg, Matrix::Alpha(il as usize), x, cfg.n_v_heads as int)
}

pub open spec fn beta_of<C>(ar: Arithmetic<C>, cfg: Config, il: int, x: Seq<u32>) -> Seq<u32> {
    projected(ar, cfg, Matrix::Beta(il as usize), x, cfg.n_v_heads as int)
}

/// What the recurrence gives to a token, gated and projected.
pub open spec fn recalled<C>(ar: Arithmetic<C>, cfg: Config, il: int, x: Seq<u32>, c: C) -> Seq<u32> {
    let (n, w, d) = (cfg.n_v_heads as int, cfg.lin_head_dim as int, cfg.d_model as int);
    let i = il as usize;
    let o = Seq::new(
        cfg.d_inner as nat,
        |j: int|
            (ar.emit)(
                c,
                i,
                mix_of(ar, cfg, il, x),
                alpha_of(ar, cfg, il, x),
                beta_of(ar, cfg, il, x),
            )[j],
    );
    let z = projected(ar, cfg, Matrix::LinearGate(i), x, cfg.d_inner as int);
    let g = each_pair(ar, Pair::GatedNorm(i), o, z, n, w, w, 0);
    each(ar, Op::Project(Matrix::LinearOut(i)), g, 1, cfg.d_inner as int, d)
}

/// What attention gives to a token's heads.
pub open spec fn seen<C>(
    ar: Arithmetic<C>,
    cfg: Config,
    il: int,
    pos: int,
    q: Seq<u32>,
    c: C,
) -> Seq<u32> {
    let w = cfg.head_dim as int;
    let group = (cfg.n_heads as int / cfg.n_kv_heads as int) as usize as int;
    Seq::new(
        attn_width(cfg) as nat,
        |j: int|
            (ar.attend)(
                c,
                il as usize,
                (j / w) / group,
                0,
                pos as usize,
                lane(q, j / w, stride(cfg), 0, w),
            )[j % w],
    )
}

/// The same, gated where the model has gates, and projected.
pub open spec fn opened<C>(
    ar: Arithmetic<C>,
    cfg: Config,
    il: int,
    q: Seq<u32>,
    o: Seq<u32>,
) -> Seq<u32> {
    let (n, w) = (cfg.n_heads as int, cfg.head_dim as int);
    let o = if cfg.query_gate {
        each_pair(ar, Pair::Open, o, q, n, w, stride(cfg), w)
    } else {
        o
    };
    let a = Matrix::AttnOutput(il as usize);
    each(ar, Op::Project(a), o, 1, attn_width(cfg), cfg.d_model as int)
}

/// A token's row with `p` added, and with what the feed-forward part then gives it.
pub open spec fn after<C>(ar: Arithmetic<C>, cfg: Config, il: int, h: Seq<u32>, p: Seq<u32>) -> Seq<u32> {
    let (d, f) = (cfg.d_model as int, cfg.ffn_dim as int);
    let i = il as usize;
    let h = both(ar, Pair::Sum, h, p, d);
    let x = normed(ar, d, Gain::PostAttentionNorm(i), h);
    let g = each(ar, Op::Project(Matrix::FfnGate(i)), x, 1, d, f);
    let u = each(ar, Op::Project(Matrix::FfnUp(i)), x, 1, d, f);
    let y = each(ar, Op::Project(Matrix::FfnDown(i)), both(ar, Pair::Swiglu, g, u, f), 1, f, d);
    both(ar, Pair::Sum, h, y, d)
}

/// The model.
pub open spec fn net<C>(ar: Arithmetic<C>, cfg: Config) -> Net<C> {
    Net {
        next: |il: int, pos: int, h: Seq<u32>, c: C|
            {
                let x = ready(ar, cfg, il, h);
                if cfg.recurrent@[il] {
                    (ar.absorb)(
                        c,
                        il as usize,
                        mix_of(ar, cfg, il, x),
                        alpha_of(ar, cfg, il, x),
                        beta_of(ar, cfg, il, x),
                    )
                } else {
                    (ar.store)(
                        c,
                        pos as usize,
                        key_of(ar, cfg, il, pos, x),
                        value_of(ar, cfg, il, x),
                    )
                }
            },
        out: |il: int, pos: int, h: Seq<u32>, c: C|
            {
                let x = ready(ar, cfg, il, h);
                let p = if cfg.recurrent@[il] {
                    recalled(ar, cfg, il, x, c)
                } else {
                    let q = query_of(ar, cfg, il, pos, x);
                    opened(ar, cfg, il, q, seen(ar, cfg, il, pos, q, c))
                };
                after(ar, cfg, il, h, p)
            },
    }
}

/// The norm before a layer.
proof fn lemma_norm<C>(
    ar: Arithmetic<C>,
    ids: Seq<u32>,
    cfg: Config,
    il: int,
    t: int,
    m: Memory<C>,
)
    requires
        0 <= t <= usize::MAX,
    ensures
        ({
            let e = run(ar, ids, norm_steps(cfg, il, t), m);
            let d = cfg.d_model as int;
            &&& forall|i: int|
                0 <= i < t ==> #[trigger] part(e, Scratch::X, i, d) == ready(
                    ar,
                    cfg,
                    il,
                    part(m, Scratch::H, i, d),
                )
            &&& forall|i: int, w: int| #[trigger]
                part(e, Scratch::H, i, w) == part(m, Scratch::H, i, w)
            &&& e.kept == m.kept
        }),
{
    let h = rows(Scratch::H, t, cfg.d_model as int);
    let x = rows(Scratch::X, t, cfg.d_model as int);
    let s = norm_steps(cfg, il, t);
    let m1 = effect(ar, ids, s[0], m);
    let m2 = effect(ar, ids, s[1], m1);
    let m3 = effect(ar, ids, s[2], m2);
    lemma_flat(ar, ids, s[0], m, h, x, Op::Same, t);
    lemma_flat(ar, ids, s[1], m1, x, x, Op::Norm(Some(Gain::AttnNorm(il as usize))), t);
    lemma_mark(ar, ids, s[2], m2);
    assert(run(ar, ids, s, m) == m3) by {
        reveal_with_fuel(run_to, 4);
    }
}

/// The recurrence takes the tokens in one by one.
proof fn lemma_absorbed<C>(
    ar: Arithmetic<C>,
    cfg: Config,
    il: int,
    t: int,
    max: int,
    base: int,
    hs: Seq<Seq<u32>>,
    n: int,
    m: Memory<C>,
)
    requires
        sizable(cfg, max),
        0 <= il < cfg.n_layers,
        cfg.recurrent@[il],
        0 <= n <= t <= max <= usize::MAX,
        forall|i: int|
            0 <= i < t ==> #[trigger] part(m, Scratch::Q, i, cfg.conv_width()) == mix_of(
                ar,
                cfg,
                il,
                ready(ar, cfg, il, hs[i]),
            ),
        forall|i: int|
            0 <= i < t ==> #[trigger] part(m, Scratch::Alpha, i, cfg.n_v_heads as int) == alpha_of(
                ar,
                cfg,
                il,
                ready(ar, cfg, il, hs[i]),
            ),
        forall|i: int|
            0 <= i < t ==> #[trigger] part(m, Scratch::Beta, i, cfg.n_v_heads as int) == beta_of(
                ar,
                cfg,
                il,
                ready(ar, cfg, il, hs[i]),
            ),
    ensures
        absorbed(
            ar,
            m,
            il as usize,
            rows(Scratch::Q, t, cfg.conv_width()),
            rows(Scratch::Alpha, t, cfg.n_v_heads as int),
            rows(Scratch::Beta, t, cfg.n_v_heads as int),
            n,
        ) == cached(net(ar, cfg), il, base, hs, n, (m.kept)(il as usize)),
    decreases n,
{
    if n > 0 {
        lemma_absorbed(ar, cfg, il, t, max, base, hs, n - 1, m);
        lemma_products(cfg, t, max);
        let (cw, nv) = (cfg.conv_width(), cfg.n_v_heads as int);
        let i = n - 1;
        assert(row(m, rows(Scratch::Q, t, cw), i) =~= part(m, Scratch::Q, i, cw));
        assert(row(m, rows(Scratch::Alpha, t, nv), i) =~= part(m, Scratch::Alpha, i, nv));
        assert(row(m, rows(Scratch::Beta, t, nv), i) =~= part(m, Scratch::Beta, i, nv));
    }
}

/// What a recurrent layer gives to every token.
#[verifier::rlimit(60)]
#[verifier::spinoff_prover]
proof fn lemma_linear<C>(
    ar: Arithmetic<C>,
    ids: Seq<u32>,
    cfg: Config,
    il: int,
    t: int,
    max: int,
    base: int,
    hs: Seq<Seq<u32>>,
    m: Memory<C>,
)
    requires
        sizable(cfg, max),
        0 <= il < cfg.n_layers,
        cfg.recurrent@[il],
        0 <= t <= max <= usize::MAX,
        forall|i: int|
            0 <= i < t ==> #[trigger] part(m, Scratch::X, i, cfg.d_model as int) == ready(
                ar,
                cfg,
                il,
                hs[i],
            ),
    ensures
        ({
            let e = run(ar, ids, linear_steps(cfg, il, t), m);
            let c = (m.kept)(il as usize);
            &&& forall|i: int|
                0 <= i < t ==> #[trigger] part(e, Scratch::Proj, i, cfg.d_model as int) == recalled(
                    ar,
                    cfg,
                    il,
                    ready(ar, cfg, il, hs[i]),
                    cached(net(ar, cfg), il, base, hs, i + 1, c),
                )
            &&& forall|i: int, w: int| #[trigger]
                part(e, Scratch::H, i, w) == part(m, Scratch::H, i, w)
            &&& (e.kept)(il as usize) == cached(net(ar, cfg), il, base, hs, t, c)
            &&& forall|l: usize| l != il as usize ==> #[trigger] (e.kept)(l) == (m.kept)(l)
        }),
{
    lemma_products(cfg, t, max);
    let i = il as usize;
    let (cw, nv, di) = (cfg.conv_width(), cfg.n_v_heads as int, cfg.d_inner as int);
    let (d, lin) = (cfg.d_model as int, cfg.lin_head_dim as int);
    let c = (m.kept)(i);
    let x = rows(Scratch::X, t, d);
    let mixed = rows(Scratch::Q, t, cw);
    let z = rows(Scratch::Z, t, di);
    let alpha = rows(Scratch::Alpha, t, nv);
    let beta = rows(Scratch::Beta, t, nv);
    let out = rows(Scratch::Attn, t, di);
    let proj = rows(Scratch::Proj, t, d);
    let heads = rows(Scratch::Attn, t * cfg.n_v_heads, lin);
    let s = linear_steps(cfg, il, t);
    let m1 = effect(ar, ids, s[0], m);
    let m2 = effect(ar, ids, s[1], m1);
    let m3 = effect(ar, ids, s[2], m2);
    let m4 = effect(ar, ids, s[3], m3);
    let m5 = effect(ar, ids, s[4], m4);
    let m6 = effect(ar, ids, s[5], m5);
    let m7 = effect(ar, ids, s[6], m6);
    let m8 = effect(ar, ids, s[7], m7);
    let m9 = effect(ar, ids, s[8], m8);
    let m10 = effect(ar, ids, s[9], m9);
    let m11 = effect(ar, ids, s[10], m10);
    let m12 = effect(ar, ids, s[11], m11);
    let m13 = effect(ar, ids, s[12], m12);
    let m14 = effect(ar, ids, s[13], m13);
    lemma_flat(ar, ids, s[0], m, x, mixed, Op::Project(Matrix::Qkv(i)), t);
    lemma_mark(ar, ids, s[1], m1);
    lemma_flat(ar, ids, s[2], m2, x, z, Op::Project(Matrix::LinearGate(i)), t);
    lemma_mark(ar, ids, s[3], m3);
    lemma_flat(ar, ids, s[4], m4, x, alpha, Op::Project(Matrix::Alpha(i)), t);
    lemma_mark(ar, ids, s[5], m5);
    lemma_flat(ar, ids, s[6], m6, x, beta, Op::Project(Matrix::Beta(i)), t);
    lemma_mark(ar, ids, s[7], m7);
    assert forall|k: int| 0 <= k < t implies #[trigger] part(m8, Scratch::Q, k, cw) == mix_of(
        ar,
        cfg,
        il,
        ready(ar, cfg, il, hs[k]),
    ) by {
        assert(part(m, Scratch::X, k, d) == ready(ar, cfg, il, hs[k]));
    }
    assert forall|k: int| 0 <= k < t implies #[trigger] part(m8, Scratch::Alpha, k, nv) == alpha_of(
        ar,
        cfg,
        il,
        ready(ar, cfg, il, hs[k]),
    ) by {
        assert(part(m4, Scratch::X, k, d) == part(m, Scratch::X, k, d));
    }
    assert forall|k: int| 0 <= k < t implies #[trigger] part(m8, Scratch::Beta, k, nv) == beta_of(
        ar,
        cfg,
        il,
        ready(ar, cfg, il, hs[k]),
    ) by {
        assert(part(m6, Scratch::X, k, d) == part(m, Scratch::X, k, d));
    }
    assert forall|k: int| 0 <= k < t implies #[trigger] part(m8, Scratch::Z, k, di) == projected(
        ar,
        cfg,
        Matrix::LinearGate(i),
        ready(ar, cfg, il, hs[k]),
        di,
    ) by {
        assert(part(m2, Scratch::X, k, d) == part(m, Scratch::X, k, d));
    }
    assert(m8.kept == m.kept);
    lemma_step(ar, ids, s[8], m8, out, t, 1);
    assert(1 * di == di);
    assert forall|k: int| 0 <= k < t implies #[trigger] part(m9, Scratch::Attn, k, di) == Seq::new(
        di as nat,
        |j: int|
            (ar.emit)(
                cached(net(ar, cfg), il, base, hs, k + 1, c),
                i,
                mix_of(ar, cfg, il, ready(ar, cfg, il, hs[k])),
                alpha_of(ar, cfg, il, ready(ar, cfg, il, hs[k])),
                beta_of(ar, cfg, il, ready(ar, cfg, il, hs[k])),
            )[j],
    ) by {
        lemma_absorbed(ar, cfg, il, t, max, base, hs, k + 1, m8);
        assert(row(m8, mixed, k) =~= part(m8, Scratch::Q, k, cw));
        assert(row(m8, alpha, k) =~= part(m8, Scratch::Alpha, k, nv));
        assert(row(m8, beta, k) =~= part(m8, Scratch::Beta, k, nv));
        let want = Seq::new(
            di as nat,
            |j: int|
                (ar.emit)(
                    cached(net(ar, cfg), il, base, hs, k + 1, c),
                    i,
                    mix_of(ar, cfg, il, ready(ar, cfg, il, hs[k])),
                    alpha_of(ar, cfg, il, ready(ar, cfg, il, hs[k])),
                    beta_of(ar, cfg, il, ready(ar, cfg, il, hs[k])),
                )[j],
        );
        let got = part(m9, Scratch::Attn, k, di);
        assert forall|j: int| 0 <= j < di implies #[trigger] got[j] == want[j] by {
            lemma_index(k, t, 1, di, j);
            vstd::arithmetic::div_mod::lemma_basic_div(j, di);
            vstd::arithmetic::div_mod::lemma_small_mod(j as nat, di as nat);
            assert(part(m9, Scratch::Attn, k, 1 * di)[j] == result(
                ar,
                ids,
                s[8],
                m8,
                k * 1 + j / di,
            )[j % di]);
        }
        assert(got =~= want);
    }
    lemma_absorbed(ar, cfg, il, t, max, base, hs, t, m8);
    assert((m9.kept)(i) == keeps(ar, s[8], m8, i));
    assert forall|l: usize| l != i implies #[trigger] (m9.kept)(l) == (m.kept)(l) by {
        assert((m9.kept)(l) == keeps(ar, s[8], m8, l));
    }
    lemma_mark(ar, ids, s[9], m9);
    let zs = Rows { n: heads.n, width: heads.width, stride: heads.stride, ..z };
    lemma_pairs(ar, ids, s[10], m10, heads, zs, Pair::GatedNorm(i), t, nv);
    lemma_mark(ar, ids, s[11], m11);
    lemma_flat(ar, ids, s[12], m12, out, proj, Op::Project(Matrix::LinearOut(i)), t);
    lemma_mark(ar, ids, s[13], m13);
    assert(run(ar, ids, s, m) == m14) by {
        reveal_with_fuel(run_to, 15);
    }
    assert forall|k: int| 0 <= k < t implies #[trigger] part(m14, Scratch::Proj, k, d) == recalled(
        ar,
        cfg,
        il,
        ready(ar, cfg, il, hs[k]),
        cached(net(ar, cfg), il, base, hs, k + 1, c),
    ) by {
        assert(part(m9, Scratch::Z, k, di) == part(m8, Scratch::Z, k, di));
        assert(part(m11, Scratch::Attn, k, nv * lin) == each_pair(
            ar,
            Pair::GatedNorm(i),
            part(m10, Scratch::Attn, k, nv * lin),
            part(m10, Scratch::Z, k, nv * lin),
            nv,
            lin,
            lin,
            0,
        ));
    }
    assert forall|k: int, w: int| #[trigger] part(m14, Scratch::H, k, w) == part(
        m,
        Scratch::H,
        k,
        w,
    ) by {
        assert(part(m13, Scratch::H, k, w) == part(m12, Scratch::H, k, w));
        assert(part(m11, Scratch::H, k, w) == part(m10, Scratch::H, k, w));
        assert(part(m9, Scratch::H, k, w) == part(m8, Scratch::H, k, w));
        assert(part(m7, Scratch::H, k, w) == part(m6, Scratch::H, k, w));
        assert(part(m5, Scratch::H, k, w) == part(m4, Scratch::H, k, w));
        assert(part(m3, Scratch::H, k, w) == part(m2, Scratch::H, k, w));
        assert(part(m1, Scratch::H, k, w) == part(m, Scratch::H, k, w));
    }
}

/// The queries, keys and values of every token.
#[verifier::rlimit(60)]
#[verifier::spinoff_prover]
proof fn lemma_qkv<C>(
    ar: Arithmetic<C>,
    ids: Seq<u32>,
    cfg: Config,
    il: int,
    t: int,
    max: int,
    base: int,
    hs: Seq<Seq<u32>>,
    m: Memory<C>,
)
    requires
        sizable(cfg, max),
        0 <= t <= max <= usize::MAX,
        0 <= base <= usize::MAX,
        forall|i: int|
            0 <= i < t ==> #[trigger] part(m, Scratch::X, i, cfg.d_model as int) == ready(
                ar,
                cfg,
                il,
                hs[i],
            ),
    ensures
        ({
            let e = run(ar, ids, qkv_steps(cfg, il, t, base), m);
            &&& forall|i: int|
                0 <= i < t ==> #[trigger] part(e, Scratch::Q, i, q_width(cfg)) == query_of(
                    ar,
                    cfg,
                    il,
                    base + i,
                    ready(ar, cfg, il, hs[i]),
                )
            &&& forall|i: int|
                0 <= i < t ==> #[trigger] part(e, Scratch::K, i, cfg.kv_width()) == key_of(
                    ar,
                    cfg,
                    il,
                    base + i,
                    ready(ar, cfg, il, hs[i]),
                )
            &&& forall|i: int|
                0 <= i < t ==> #[trigger] part(e, Scratch::V, i, cfg.kv_width()) == value_of(
                    ar,
                    cfg,
                    il,
                    ready(ar, cfg, il, hs[i]),
                )
            &&& forall|i: int, w: int| #[trigger]
                part(e, Scratch::H, i, w) == part(m, Scratch::H, i, w)
            &&& e.kept == m.kept
        }),
{
    lemma_products(cfg, t, max);
    let i = il as usize;
    let (d, kv, qw) = (cfg.d_model as int, cfg.kv_width(), q_width(cfg));
    let (nh, nkv, hd) = (cfg.n_heads as int, cfg.n_kv_heads as int, cfg.head_dim as int);
    let x = rows(Scratch::X, t, d);
    let full = rows(Scratch::Q, t, qw);
    let k = rows(Scratch::K, t, kv);
    let v = rows(Scratch::V, t, kv);
    let keys = rows(Scratch::K, t * cfg.n_kv_heads, hd);
    let qs = queries(cfg, t);
    let s = qkv_steps(cfg, il, t, base);
    let m1 = effect(ar, ids, s[0], m);
    let m2 = effect(ar, ids, s[1], m1);
    let m3 = effect(ar, ids, s[2], m2);
    let m4 = effect(ar, ids, s[3], m3);
    let m5 = effect(ar, ids, s[4], m4);
    let m6 = effect(ar, ids, s[5], m5);
    let m7 = effect(ar, ids, s[6], m6);
    let m8 = effect(ar, ids, s[7], m7);
    let m9 = effect(ar, ids, s[8], m8);
    let m10 = effect(ar, ids, s[9], m9);
    let m11 = effect(ar, ids, s[10], m10);
    let m12 = effect(ar, ids, s[11], m11);
    lemma_flat(ar, ids, s[0], m, x, full, Op::Project(Matrix::Query(i)), t);
    lemma_mark(ar, ids, s[1], m1);
    lemma_flat(ar, ids, s[2], m2, x, k, Op::Project(Matrix::Key(i)), t);
    lemma_mark(ar, ids, s[3], m3);
    lemma_flat(ar, ids, s[4], m4, x, v, Op::Project(Matrix::Value(i)), t);
    lemma_mark(ar, ids, s[5], m5);
    let still = |j: int| Op::Norm(Some(Gain::QueryNorm(i)));
    lemma_within(ar, ids, s[6], m6, qs, still, t, nh);
    let turning = |j: int| turn(cfg, il, base + j);
    lemma_within(ar, ids, s[7], m7, qs, turning, t, nh);
    lemma_one(ar, ids, s[8], m8, keys, keys, Op::Norm(Some(Gain::KeyNorm(i))), t, nkv);
    lemma_turn(
        ar,
        ids,
        s[9],
        m9,
        keys,
        i,
        false,
        cfg.n_rot,
        base as usize,
        t,
        cfg.n_kv_heads,
    );
    lemma_mark(ar, ids, s[10], m10);
    lemma_mark(ar, ids, s[11], m11);
    assert(run(ar, ids, s, m) == m12) by {
        reveal_with_fuel(run_to, 13);
    }
    assert forall|j: int| 0 <= j < t implies #[trigger] part(m12, Scratch::Q, j, qw) == query_of(
        ar,
        cfg,
        il,
        base + j,
        ready(ar, cfg, il, hs[j]),
    ) by {
        assert(part(m, Scratch::X, j, d) == ready(ar, cfg, il, hs[j]));
        assert(part(m10, Scratch::Q, j, qw) == part(m9, Scratch::Q, j, qw));
        assert(part(m9, Scratch::Q, j, qw) == part(m8, Scratch::Q, j, qw));
        assert(part(m8, Scratch::Q, j, nh * stride(cfg)) == each_within(
            ar,
            turning(j),
            part(m7, Scratch::Q, j, nh * stride(cfg)),
            nh,
            stride(cfg),
            hd,
        ));
        assert(part(m7, Scratch::Q, j, nh * stride(cfg)) == each_within(
            ar,
            still(j),
            part(m6, Scratch::Q, j, nh * stride(cfg)),
            nh,
            stride(cfg),
            hd,
        ));
        assert(part(m5, Scratch::Q, j, qw) == part(m4, Scratch::Q, j, qw));
        assert(part(m3, Scratch::Q, j, qw) == part(m2, Scratch::Q, j, qw));
        assert(part(m1, Scratch::Q, j, qw) == projected(
            ar,
            cfg,
            Matrix::Query(i),
            ready(ar, cfg, il, hs[j]),
            qw,
        ));
        assert(part(m6, Scratch::Q, j, qw) == part(m1, Scratch::Q, j, qw));
        assert(qw == nh * stride(cfg));
    }
    assert forall|j: int| 0 <= j < t implies #[trigger] part(m12, Scratch::K, j, kv) == key_of(
        ar,
        cfg,
        il,
        base + j,
        ready(ar, cfg, il, hs[j]),
    ) by {
        assert(part(m2, Scratch::X, j, d) == part(m, Scratch::X, j, d));
        assert(part(m10, Scratch::K, j, nkv * hd) == each(
            ar,
            turn(cfg, il, base + j),
            part(m9, Scratch::K, j, nkv * hd),
            nkv,
            hd,
            hd,
        ));
        assert(part(m9, Scratch::K, j, nkv * hd) == each(
            ar,
            Op::Norm(Some(Gain::KeyNorm(i))),
            part(m8, Scratch::K, j, nkv * hd),
            nkv,
            hd,
            hd,
        ));
        assert(part(m8, Scratch::K, j, kv) == part(m7, Scratch::K, j, kv));
        assert(part(m7, Scratch::K, j, kv) == part(m6, Scratch::K, j, kv));
        assert(part(m5, Scratch::K, j, kv) == part(m4, Scratch::K, j, kv));
        assert(part(m3, Scratch::K, j, kv) == projected(
            ar,
            cfg,
            Matrix::Key(i),
            ready(ar, cfg, il, hs[j]),
            kv,
        ));
        assert(part(m6, Scratch::K, j, kv) == part(m3, Scratch::K, j, kv));
        assert(kv == nkv * hd);
    }
    assert forall|j: int| 0 <= j < t implies #[trigger] part(m12, Scratch::V, j, kv) == value_of(
        ar,
        cfg,
        il,
        ready(ar, cfg, il, hs[j]),
    ) by {
        assert(part(m4, Scratch::X, j, d) == part(m3, Scratch::X, j, d));
        assert(part(m2, Scratch::X, j, d) == part(m, Scratch::X, j, d));
        assert(part(m10, Scratch::V, j, kv) == part(m9, Scratch::V, j, kv));
        assert(part(m9, Scratch::V, j, kv) == part(m8, Scratch::V, j, kv));
        assert(part(m8, Scratch::V, j, kv) == part(m7, Scratch::V, j, kv));
        assert(part(m7, Scratch::V, j, kv) == part(m6, Scratch::V, j, kv));
    }
    assert forall|j: int, w: int| #[trigger] part(m12, Scratch::H, j, w) == part(
        m,
        Scratch::H,
        j,
        w,
    ) by {
        assert(part(m10, Scratch::H, j, w) == part(m9, Scratch::H, j, w));
        assert(part(m9, Scratch::H, j, w) == part(m8, Scratch::H, j, w));
        assert(part(m8, Scratch::H, j, w) == part(m7, Scratch::H, j, w));
        assert(part(m7, Scratch::H, j, w) == part(m6, Scratch::H, j, w));
        assert(part(m5, Scratch::H, j, w) == part(m4, Scratch::H, j, w));
        assert(part(m3, Scratch::H, j, w) == part(m2, Scratch::H, j, w));
        assert(part(m1, Scratch::H, j, w) == part(m, Scratch::H, j, w));
    }
}

/// Every token is kept.
proof fn lemma_stores<C>(
    ar: Arithmetic<C>,
    ids: Seq<u32>,
    cfg: Config,
    il: int,
    t: int,
    max: int,
    base: int,
    hs: Seq<Seq<u32>>,
    n: int,
    m: Memory<C>,
)
    requires
        sizable(cfg, max),
        0 <= il < cfg.n_layers,
        !cfg.recurrent@[il],
        0 <= n <= t <= max <= usize::MAX,
        forall|i: int|
            0 <= i < t ==> #[trigger] part(m, Scratch::K, i, cfg.kv_width()) == key_of(
                ar,
                cfg,
                il,
                base + i,
                ready(ar, cfg, il, hs[i]),
            ),
        forall|i: int|
            0 <= i < t ==> #[trigger] part(m, Scratch::V, i, cfg.kv_width()) == value_of(
                ar,
                cfg,
                il,
                ready(ar, cfg, il, hs[i]),
            ),
    ensures
        ({
            let v = Seq::new(t as nat, |i: int| store_step(cfg, il, base, i));
            let e = run_to(ar, ids, v, n, m);
            &&& forall|b: Scratch, i: int, w: int| #[trigger] part(e, b, i, w) == part(m, b, i, w)
            &&& (e.kept)(il as usize) == cached(
                net(ar, cfg),
                il,
                base,
                hs,
                n,
                (m.kept)(il as usize),
            )
            &&& forall|l: usize| l != il as usize ==> #[trigger] (e.kept)(l) == (m.kept)(l)
        }),
    decreases n,
{
    if n > 0 {
        let v = Seq::new(t as nat, |i: int| store_step(cfg, il, base, i));
        lemma_stores(ar, ids, cfg, il, t, max, base, hs, n - 1, m);
        lemma_products(cfg, t, max);
        let i = n - 1;
        let kv = cfg.kv_width();
        let s = store_step(cfg, il, base, i);
        let before = run_to(ar, ids, v, n - 1, m);
        let e = run_to(ar, ids, v, n, m);
        assert(v[n - 1] == s);
        assert(e == effect(ar, ids, s, before));
        assert(size_of(cfg, max, Scratch::K) <= usize::MAX);
        lemma_start(i, t, max, kv, usize::MAX as int);
        assert(1 * kv == kv);
        assert forall|b: Scratch, j: int, w: int| #[trigger] part(e, b, j, w) == part(
            m,
            b,
            j,
            w,
        ) by {
            assert(part(e, b, j, w) =~= part(before, b, j, w));
        }
        let (k, val) = (rows_of(Scratch::K, i, 1, kv), rows_of(Scratch::V, i, 1, kv));
        assert(row(before, k, 0) =~= part(before, Scratch::K, i, kv));
        assert(row(before, val, 0) =~= part(before, Scratch::V, i, kv));
        assert((e.kept)(il as usize) == keeps(ar, s, before, il as usize));
        assert forall|l: usize| l != il as usize implies #[trigger] (e.kept)(l) == (m.kept)(l) by {
            assert((e.kept)(l) == keeps(ar, s, before, l));
        }
    }
}

/// Every token attends.
proof fn lemma_attends<C>(
    ar: Arithmetic<C>,
    ids: Seq<u32>,
    cfg: Config,
    il: int,
    t: int,
    max: int,
    base: int,
    n: int,
    m: Memory<C>,
)
    requires
        sizable(cfg, max),
        0 <= n <= t <= max <= usize::MAX,
    ensures
        ({
            let v = Seq::new(t as nat, |i: int| attend_step(cfg, il, base, i));
            let e = run_to(ar, ids, v, n, m);
            &&& forall|i: int|
                0 <= i < n ==> #[trigger] part(e, Scratch::Attn, i, attn_width(cfg)) == seen(
                    ar,
                    cfg,
                    il,
                    base + i,
                    part(m, Scratch::Q, i, q_width(cfg)),
                    (m.kept)(il as usize),
                )
            &&& forall|b: Scratch, i: int, w: int|
                b != Scratch::Attn ==> #[trigger] part(e, b, i, w) == part(m, b, i, w)
            &&& e.kept == m.kept
        }),
    decreases n,
{
    if n > 0 {
        let v = Seq::new(t as nat, |i: int| attend_step(cfg, il, base, i));
        lemma_attends(ar, ids, cfg, il, t, max, base, n - 1, m);
        lemma_products(cfg, t, max);
        let i = n - 1;
        let (nh, hd, st) = (cfg.n_heads as int, cfg.head_dim as int, stride(cfg));
        let (aw, qw) = (attn_width(cfg), q_width(cfg));
        let s = attend_step(cfg, il, base, i);
        let before = run_to(ar, ids, v, n - 1, m);
        let e = run_to(ar, ids, v, n, m);
        assert(v[n - 1] == s);
        assert(e == effect(ar, ids, s, before));
        lemma_start(i, t, max, aw, usize::MAX as int);
        lemma_start(i, t, max, qw, usize::MAX as int);
        let y = rows_of(Scratch::Attn, i, nh, hd);
        let q = query(cfg, i);
        assert(y.first == i * aw && q.first == i * qw);
        assert(e.kept =~= before.kept);
        assert forall|b: Scratch, j: int, w: int| b != Scratch::Attn implies #[trigger] part(
            e,
            b,
            j,
            w,
        ) == part(m, b, j, w) by {
            assert(part(e, b, j, w) =~= part(before, b, j, w));
        }
        let want = seen(
            ar,
            cfg,
            il,
            base + i,
            part(m, Scratch::Q, i, qw),
            (m.kept)(il as usize),
        );
        let got = part(e, Scratch::Attn, i, aw);
        assert(part(before, Scratch::Q, i, qw) == part(m, Scratch::Q, i, qw));
        assert forall|j: int| 0 <= j < aw implies #[trigger] got[j] == want[j] by {
            lemma_index(0, 1, nh, hd, j);
            let x = i * aw + j;
            let h = j / hd;
            assert(covers(y, Scratch::Attn, x));
            assert((e.cells)(Scratch::Attn, x) == becomes(ar, ids, s, before, Scratch::Attn, x));
            let of_all = row(before, q, h);
            let of_token = lane(part(before, Scratch::Q, i, qw), h, st, 0, hd);
            assert forall|c: int| 0 <= c < hd implies #[trigger] of_all[c] == of_token[c] by {
                assert(0 <= h * st + c < nh * st) by (nonlinear_arith)
                    requires
                        0 <= h < nh,
                        0 <= c < hd,
                        hd <= st,
                ;
            }
            assert(of_all =~= of_token);
        }
        assert(got =~= want);
        assert forall|j: int| 0 <= j < n implies #[trigger] part(e, Scratch::Attn, j, aw) == seen(
            ar,
            cfg,
            il,
            base + j,
            part(m, Scratch::Q, j, qw),
            (m.kept)(il as usize),
        ) by {
            if j < i {
                assert(j * aw + aw <= i * aw) by (nonlinear_arith)
                    requires
                        j + 1 <= i,
                        0 <= aw,
                ;
                assert(part(e, Scratch::Attn, j, aw) =~= part(before, Scratch::Attn, j, aw));
            }
        }
    }
}

/// What is kept of later tokens does not change what a token sees.
proof fn lemma_later<C>(
    ar: Arithmetic<C>,
    cfg: Config,
    il: int,
    base: int,
    hs: Seq<Seq<u32>>,
    i: int,
    n: int,
    q: Seq<u32>,
    c: C,
)
    requires
        looks_back(ar),
        !cfg.recurrent@[il],
        0 <= i < n,
        0 <= base,
        base + n <= usize::MAX,
    ensures
        seen(ar, cfg, il, base + i, q, cached(net(ar, cfg), il, base, hs, n, c)) == seen(
            ar,
            cfg,
            il,
            base + i,
            q,
            cached(net(ar, cfg), il, base, hs, i + 1, c),
        ),
    decreases n,
{
    if i + 1 < n {
        lemma_later(ar, cfg, il, base, hs, i, n - 1, q, c);
        let a = seen(ar, cfg, il, base + i, q, cached(net(ar, cfg), il, base, hs, n, c));
        let b = seen(ar, cfg, il, base + i, q, cached(net(ar, cfg), il, base, hs, n - 1, c));
        assert(((base + i) as usize) < ((base + (n - 1)) as usize));
        assert(a =~= b);
    }
}

/// The output projection of a full-attention layer.
#[verifier::rlimit(40)]
proof fn lemma_out<C>(
    ar: Arithmetic<C>,
    ids: Seq<u32>,
    cfg: Config,
    il: int,
    t: int,
    max: int,
    m: Memory<C>,
)
    requires
        sizable(cfg, max),
        0 <= t <= max <= usize::MAX,
    ensures
        ({
            let e = run(ar, ids, out_steps(cfg, il, t), m);
            &&& forall|i: int|
                0 <= i < t ==> #[trigger] part(e, Scratch::Proj, i, cfg.d_model as int) == opened(
                    ar,
                    cfg,
                    il,
                    part(m, Scratch::Q, i, q_width(cfg)),
                    part(m, Scratch::Attn, i, attn_width(cfg)),
                )
            &&& forall|i: int, w: int| #[trigger]
                part(e, Scratch::H, i, w) == part(m, Scratch::H, i, w)
            &&& e.kept == m.kept
        }),
{
    lemma_products(cfg, t, max);
    let i = il as usize;
    let (nh, hd) = (cfg.n_heads as int, cfg.head_dim as int);
    let attn = rows(Scratch::Attn, t, attn_width(cfg));
    let proj = rows(Scratch::Proj, t, cfg.d_model as int);
    let heads = rows(Scratch::Attn, t * cfg.n_heads, hd);
    let s = out_steps(cfg, il, t);
    let k: int = if cfg.query_gate {
        1
    } else {
        0
    };
    let m0 = if cfg.query_gate {
        effect(ar, ids, s[0], m)
    } else {
        m
    };
    if cfg.query_gate {
        lemma_pairs(ar, ids, s[0], m, heads, gates(cfg, t), Pair::Open, t, nh);
    }
    let m1 = effect(ar, ids, s[k], m0);
    let m2 = effect(ar, ids, s[k + 1], m1);
    let m3 = effect(ar, ids, s[k + 2], m2);
    lemma_mark(ar, ids, s[k], m0);
    lemma_flat(ar, ids, s[k + 1], m1, attn, proj, Op::Project(Matrix::AttnOutput(i)), t);
    lemma_mark(ar, ids, s[k + 2], m2);
    assert(run(ar, ids, s, m) == m3) by {
        reveal_with_fuel(run_to, 5);
    }
    let (d, aw, qw) = (cfg.d_model as int, attn_width(cfg), q_width(cfg));
    assert forall|j: int| 0 <= j < t implies #[trigger] part(m3, Scratch::Proj, j, d) == opened(
        ar,
        cfg,
        il,
        part(m, Scratch::Q, j, qw),
        part(m, Scratch::Attn, j, aw),
    ) by {
        if cfg.query_gate {
            assert(part(m0, Scratch::Attn, j, nh * hd) == each_pair(
                ar,
                Pair::Open,
                part(m, Scratch::Attn, j, nh * hd),
                part(m, Scratch::Q, j, nh * stride(cfg)),
                nh,
                hd,
                stride(cfg),
                hd,
            ));
        }
        assert(part(m2, Scratch::Proj, j, d) == each(
            ar,
            Op::Project(Matrix::AttnOutput(i)),
            part(m1, Scratch::Attn, j, aw),
            1,
            aw,
            d,
        ));
    }
    assert forall|j: int, w: int| #[trigger] part(m3, Scratch::H, j, w) == part(
        m,
        Scratch::H,
        j,
        w,
    ) by {
        assert(part(m2, Scratch::H, j, w) == part(m1, Scratch::H, j, w));
        assert(part(m0, Scratch::H, j, w) == part(m, Scratch::H, j, w));
    }
}

/// The residual sums and the feed-forward part.
#[verifier::rlimit(60)]
#[verifier::spinoff_prover]
proof fn lemma_ffn<C>(
    ar: Arithmetic<C>,
    ids: Seq<u32>,
    cfg: Config,
    il: int,
    t: int,
    m: Memory<C>,
)
    requires
        0 <= t <= usize::MAX,
    ensures
        ({
            let e = run(ar, ids, ffn_steps(cfg, il, t), m);
            let d = cfg.d_model as int;
            &&& forall|i: int|
                0 <= i < t ==> #[trigger] part(e, Scratch::H, i, d) == after(
                    ar,
                    cfg,
                    il,
                    part(m, Scratch::H, i, d),
                    part(m, Scratch::Proj, i, d),
                )
            &&& e.kept == m.kept
        }),
{
    let i = il as usize;
    let (d, f) = (cfg.d_model as int, cfg.ffn_dim as int);
    let h = rows(Scratch::H, t, d);
    let x = rows(Scratch::X, t, d);
    let gate = rows(Scratch::Gate, t, f);
    let up = rows(Scratch::Up, t, f);
    let proj = rows(Scratch::Proj, t, d);
    let s = ffn_steps(cfg, il, t);
    let m1 = effect(ar, ids, s[0], m);
    let m2 = effect(ar, ids, s[1], m1);
    let m3 = effect(ar, ids, s[2], m2);
    let m4 = effect(ar, ids, s[3], m3);
    let m5 = effect(ar, ids, s[4], m4);
    let m6 = effect(ar, ids, s[5], m5);
    let m7 = effect(ar, ids, s[6], m6);
    let m8 = effect(ar, ids, s[7], m7);
    let m9 = effect(ar, ids, s[8], m8);
    let m10 = effect(ar, ids, s[9], m9);
    let m11 = effect(ar, ids, s[10], m10);
    let m12 = effect(ar, ids, s[11], m11);
    lemma_two(ar, ids, s[0], m, h, proj, Pair::Sum, t);
    lemma_mark(ar, ids, s[1], m1);
    lemma_flat(ar, ids, s[2], m2, h, x, Op::Same, t);
    lemma_flat(ar, ids, s[3], m3, x, x, Op::Norm(Some(Gain::PostAttentionNorm(i))), t);
    lemma_mark(ar, ids, s[4], m4);
    lemma_flat(ar, ids, s[5], m5, x, gate, Op::Project(Matrix::FfnGate(i)), t);
    lemma_flat(ar, ids, s[6], m6, x, up, Op::Project(Matrix::FfnUp(i)), t);
    lemma_two(ar, ids, s[7], m7, gate, up, Pair::Swiglu, t);
    lemma_flat(ar, ids, s[8], m8, gate, proj, Op::Project(Matrix::FfnDown(i)), t);
    lemma_mark(ar, ids, s[9], m9);
    lemma_two(ar, ids, s[10], m10, h, proj, Pair::Sum, t);
    lemma_mark(ar, ids, s[11], m11);
    assert(run(ar, ids, s, m) == m12) by {
        reveal_with_fuel(run_to, 13);
    }
    assert forall|j: int| 0 <= j < t implies #[trigger] part(m12, Scratch::H, j, d) == after(
        ar,
        cfg,
        il,
        part(m, Scratch::H, j, d),
        part(m, Scratch::Proj, j, d),
    ) by {
        let sum = both(
            ar,
            Pair::Sum,
            part(m, Scratch::H, j, d),
            part(m, Scratch::Proj, j, d),
            d,
        );
        assert(part(m1, Scratch::H, j, d) == sum);
        assert(part(m4, Scratch::X, j, d) == normed(ar, d, Gain::PostAttentionNorm(i), sum));
        assert(part(m6, Scratch::X, j, d) == part(m4, Scratch::X, j, d));
        assert(part(m6, Scratch::Gate, j, f) == each(
            ar,
            Op::Project(Matrix::FfnGate(i)),
            part(m4, Scratch::X, j, d),
            1,
            d,
            f,
        ));
        assert(part(m7, Scratch::Up, j, f) == each(
            ar,
            Op::Project(Matrix::FfnUp(i)),
            part(m4, Scratch::X, j, d),
            1,
            d,
            f,
        ));
        assert(part(m7, Scratch::Gate, j, f) == part(m6, Scratch::Gate, j, f));
        assert(part(m8, Scratch::Gate, j, f) == both(
            ar,
            Pair::Swiglu,
            part(m7, Scratch::Gate, j, f),
            part(m7, Scratch::Up, j, f),
            f,
        ));
        assert(part(m9, Scratch::Proj, j, d) == each(
            ar,
            Op::Project(Matrix::FfnDown(i)),
            part(m8, Scratch::Gate, j, f),
            1,
            f,
            d,
        ));
        assert(part(m9, Scratch::H, j, d) == part(m8, Scratch::H, j, d));
        assert(part(m8, Scratch::H, j, d) == part(m7, Scratch::H, j, d));
        assert(part(m7, Scratch::H, j, d) == part(m6, Scratch::H, j, d));
        assert(part(m6, Scratch::H, j, d) == part(m5, Scratch::H, j, d));
        assert(part(m4, Scratch::H, j, d) == part(m3, Scratch::H, j, d));
        assert(part(m3, Scratch::H, j, d) == part(m2, Scratch::H, j, d));
        assert(part(m11, Scratch::H, j, d) == both(
            ar,
            Pair::Sum,
            part(m10, Scratch::H, j, d),
            part(m10, Scratch::Proj, j, d),
            d,
        ));
    }
}

/// What a full-attention layer gives to every token.
proof fn lemma_full<C>(
    ar: Arithmetic<C>,
    ids: Seq<u32>,
    cfg: Config,
    il: int,
    t: int,
    max: int,
    base: int,
    hs: Seq<Seq<u32>>,
    m: Memory<C>,
)
    requires
        sizable(cfg, max),
        looks_back(ar),
        0 <= il < cfg.n_layers,
        !cfg.recurrent@[il],
        0 <= t <= max <= usize::MAX,
        0 <= base,
        base + t <= usize::MAX,
        forall|i: int|
            0 <= i < t ==> #[trigger] part(m, Scratch::X, i, cfg.d_model as int) == ready(
                ar,
                cfg,
                il,
                hs[i],
            ),
    ensures
        ({
            let e = run(ar, ids, mixer_steps(cfg, il, t, base), m);
            let c = (m.kept)(il as usize);
            &&& forall|i: int|
                0 <= i < t ==> #[trigger] part(e, Scratch::Proj, i, cfg.d_model as int) == ({
                    let q = query_of(ar, cfg, il, base + i, ready(ar, cfg, il, hs[i]));
                    opened(
                        ar,
                        cfg,
                        il,
                        q,
                        seen(
                            ar,
                            cfg,
                            il,
                            base + i,
                            q,
                            cached(net(ar, cfg), il, base, hs, i + 1, c),
                        ),
                    )
                })
            &&& forall|i: int, w: int| #[trigger]
                part(e, Scratch::H, i, w) == part(m, Scratch::H, i, w)
            &&& (e.kept)(il as usize) == cached(net(ar, cfg), il, base, hs, t, c)
            &&& forall|l: usize| l != il as usize ==> #[trigger] (e.kept)(l) == (m.kept)(l)
        }),
{
    let c = (m.kept)(il as usize);
    let d = cfg.d_model as int;
    let (v1, v4) = (qkv_steps(cfg, il, t, base), out_steps(cfg, il, t));
    let v2 = Seq::new(t as nat, |i: int| store_step(cfg, il, base, i));
    let v3 = Seq::new(t as nat, |i: int| attend_step(cfg, il, base, i));
    let m1 = run(ar, ids, v1, m);
    let m2 = run(ar, ids, v2, m1);
    let m3 = run(ar, ids, v3, m2);
    let m4 = run(ar, ids, v4, m3);
    assert(attn_steps(cfg, il, t, base) == v2 + v3);
    lemma_run_concat(ar, ids, v2, v3, m1);
    lemma_run_concat(ar, ids, v1, v2 + v3, m);
    lemma_run_concat(ar, ids, v1 + (v2 + v3), v4, m);
    lemma_qkv(ar, ids, cfg, il, t, max, base, hs, m);
    lemma_stores(ar, ids, cfg, il, t, max, base, hs, t, m1);
    lemma_attends(ar, ids, cfg, il, t, max, base, t, m2);
    lemma_out(ar, ids, cfg, il, t, max, m3);
    assert forall|i: int| 0 <= i < t implies #[trigger] part(m4, Scratch::Proj, i, d) == ({
        let q = query_of(ar, cfg, il, base + i, ready(ar, cfg, il, hs[i]));
        opened(
            ar,
            cfg,
            il,
            q,
            seen(ar, cfg, il, base + i, q, cached(net(ar, cfg), il, base, hs, i + 1, c)),
        )
    }) by {
        let q = query_of(ar, cfg, il, base + i, ready(ar, cfg, il, hs[i]));
        assert(part(m1, Scratch::Q, i, q_width(cfg)) == q);
        assert(part(m2, Scratch::Q, i, q_width(cfg)) == q);
        assert(part(m3, Scratch::Q, i, q_width(cfg)) == q);
        lemma_later(ar, cfg, il, base, hs, i, t, q, c);
    }
    assert forall|i: int, w: int| #[trigger] part(m4, Scratch::H, i, w) == part(
        m,
        Scratch::H,
        i,
        w,
    ) by {
        assert(part(m3, Scratch::H, i, w) == part(m2, Scratch::H, i, w));
        assert(part(m2, Scratch::H, i, w) == part(m1, Scratch::H, i, w));
    }
}

/// A layer's steps do what the layer does to each token in its turn.
pub(crate) proof fn lemma_layer<C>(
    ar: Arithmetic<C>,
    ids: Seq<u32>,
    cfg: Config,
    il: int,
    t: int,
    max: int,
    base: int,
    m: Memory<C>,
)
    requires
        sizable(cfg, max),
        looks_back(ar),
        0 <= il < cfg.n_layers,
        0 <= t <= max <= usize::MAX,
        0 <= base,
        base + t <= usize::MAX,
    ensures
        ({
            let e = run(ar, ids, layer_steps(cfg, il, t, base), m);
            let c = (m.kept)(il as usize);
            let d = cfg.d_model as int;
            let hs = stream(m, d, t);
            &&& stream(e, d, t) == layered(net(ar, cfg), il, base, hs, c)
            &&& (e.kept)(il as usize) == cached(net(ar, cfg), il, base, hs, t, c)
            &&& forall|l: usize| l != il as usize ==> #[trigger] (e.kept)(l) == (m.kept)(l)
        }),
{
    let d = cfg.d_model as int;
    let c = (m.kept)(il as usize);
    let hs = stream(m, d, t);
    let (v1, v2) = (norm_steps(cfg, il, t), mixer_steps(cfg, il, t, base));
    let v3 = ffn_steps(cfg, il, t);
    let m1 = run(ar, ids, v1, m);
    let m2 = run(ar, ids, v2, m1);
    let m3 = run(ar, ids, v3, m2);
    lemma_run_concat(ar, ids, v1, v2, m);
    lemma_run_concat(ar, ids, v1 + v2, v3, m);
    lemma_norm(ar, ids, cfg, il, t, m);
    assert forall|i: int| 0 <= i < t implies #[trigger] part(m1, Scratch::X, i, d) == ready(
        ar,
        cfg,
        il,
        hs[i],
    ) by {
        assert(hs[i] == part(m, Scratch::H, i, d));
    }
    if cfg.recurrent@[il] {
        lemma_linear(ar, ids, cfg, il, t, max, base, hs, m1);
    } else {
        lemma_full(ar, ids, cfg, il, t, max, base, hs, m1);
    }
    lemma_ffn(ar, ids, cfg, il, t, m2);
    let want = layered(net(ar, cfg), il, base, hs, c);
    assert forall|i: int| 0 <= i < t implies #[trigger] stream(m3, d, t)[i] == want[i] by {
        assert(part(m3, Scratch::H, i, d) == after(
            ar,
            cfg,
            il,
            part(m2, Scratch::H, i, d),
            part(m2, Scratch::Proj, i, d),
        ));
        assert(part(m2, Scratch::H, i, d) == part(m1, Scratch::H, i, d));
        assert(part(m1, Scratch::H, i, d) == hs[i]);
    }
    assert(stream(m3, d, t) =~= want);
}

/// The layers do in turn what each does.
proof fn lemma_layers<C>(
    ar: Arithmetic<C>,
    ids: Seq<u32>,
    cfg: Config,
    n: int,
    t: int,
    max: int,
    base: int,
    m: Memory<C>,
)
    requires
        sizable(cfg, max),
        looks_back(ar),
        0 <= n <= cfg.n_layers,
        0 <= t <= max <= usize::MAX,
        0 <= base,
        base + t <= usize::MAX,
    ensures
        ({
            let e = run(ar, ids, layers_steps(cfg, n, t, base), m);
            let d = cfg.d_model as int;
            let hs = stream(m, d, t);
            &&& stream(e, d, t) == through(net(ar, cfg), n, base, hs, m.kept)
            &&& leaves(net(ar, cfg), n, base, hs, m.kept, e.kept)
        }),
    decreases n,
{
    if n > 0 {
        lemma_layers(ar, ids, cfg, n - 1, t, max, base, m);
        let front = layers_steps(cfg, n - 1, t, base);
        let e = run(ar, ids, front, m);
        lemma_run_concat(ar, ids, front, layer_steps(cfg, n - 1, t, base), m);
        lemma_layer(ar, ids, cfg, n - 1, t, max, base, e);
    }
}

/// The logits that a last row gives.
pub open spec fn spoken<C>(ar: Arithmetic<C>, cfg: Config, h: Seq<u32>) -> Seq<u32> {
    let (d, v) = (cfg.d_model as int, cfg.vocab as int);
    let x = each(ar, Op::Norm(Some(Gain::OutputNorm)), h, 1, d, d);
    each(ar, Op::Project(Matrix::Output), x, 1, d, v)
}

pub(crate) proof fn lemma_head_out<C>(
    ar: Arithmetic<C>,
    ids: Seq<u32>,
    cfg: Config,
    t: int,
    max: int,
    m: Memory<C>,
)
    requires
        sizable(cfg, max),
        0 < t <= max <= usize::MAX,
    ensures
        ({
            let e = run(ar, ids, head_out_steps(cfg, t), m);
            &&& logits(e, cfg.vocab as int) == spoken(
                ar,
                cfg,
                stream(m, cfg.d_model as int, t)[t - 1],
            )
            &&& e.kept == m.kept
        }),
{
    let (d, v) = (cfg.d_model as int, cfg.vocab as int);
    let h = rows(Scratch::H, t, d);
    let s = head_out_steps(cfg, t);
    let m1 = effect(ar, ids, s[0], m);
    let m2 = effect(ar, ids, s[1], m1);
    let m3 = effect(ar, ids, s[2], m2);
    let m4 = effect(ar, ids, s[3], m3);
    lemma_flat(ar, ids, s[0], m, h, h, Op::Norm(Some(Gain::OutputNorm)), t);
    lemma_mark(ar, ids, s[1], m1);
    assert(size_of(cfg, max, Scratch::H) <= usize::MAX);
    lemma_start(t - 1, t, max, d, usize::MAX as int);
    lemma_last(ar, ids, Matrix::Output, t - 1, d, v, m2);
    lemma_mark(ar, ids, s[3], m3);
    assert(run(ar, ids, s, m) == m4) by {
        reveal_with_fuel(run_to, 5);
    }
    assert(part(m2, Scratch::H, t - 1, d) == each(
        ar,
        Op::Norm(Some(Gain::OutputNorm)),
        part(m, Scratch::H, t - 1, d),
        1,
        d,
        d,
    ));
    assert(logits(m4, v) =~= part(m4, Scratch::Logits, 0, v));
}

pub open spec fn all_embedded<C>(ar: Arithmetic<C>, cfg: Config, ids: Seq<u32>) -> Seq<Seq<u32>> {
    Seq::new(ids.len(), |i: int| embedded(ar, cfg.d_model as int, ids[i]))
}

/// What a whole pass leaves.
proof fn lemma_pass<C>(
    ar: Arithmetic<C>,
    ids: Seq<u32>,
    cfg: Config,
    max: int,
    base: int,
    m: Memory<C>,
)
    requires
        sizable(cfg, max),
        looks_back(ar),
        0 < ids.len() <= max <= usize::MAX,
        0 <= base,
        base + ids.len() <= usize::MAX,
    ensures
        ({
            let e = run(ar, ids, steps(cfg, ids.len() as int, base), m);
            let hs = all_embedded(ar, cfg, ids);
            let n = cfg.n_layers as int;
            let out = through(net(ar, cfg), n, base, hs, m.kept);
            &&& logits(e, cfg.vocab as int) == spoken(ar, cfg, out[ids.len() - 1])
            &&& leaves(net(ar, cfg), n, base, hs, m.kept, e.kept)
        }),
{
    let t = ids.len() as int;
    let d = cfg.d_model as int;
    let v1 = embed_steps(cfg, t);
    let v2 = layers_steps(cfg, cfg.n_layers as int, t, base);
    let v3 = head_out_steps(cfg, t);
    let m1 = run(ar, ids, v1, m);
    let m2 = run(ar, ids, v2, m1);
    lemma_run_concat(ar, ids, v1, v2, m);
    lemma_run_concat(ar, ids, v1 + v2, v3, m);
    let e1 = effect(ar, ids, v1[0], m);
    lemma_embed(ar, ids, rows(Scratch::H, t, d), m);
    lemma_mark(ar, ids, v1[1], e1);
    assert(m1 == e1) by {
        reveal_with_fuel(run_to, 3);
    }
    assert(stream(m1, d, t) =~= all_embedded(ar, cfg, ids));
    lemma_layers(ar, ids, cfg, cfg.n_layers as int, t, max, base, m1);
    lemma_head_out(ar, ids, cfg, t, max, m2);
}

/// Splitting a batch changes nothing, whatever the arithmetic, as long as attention
/// does not look behind its position: a pass over `a` and `b` together leaves the
/// logits that a pass over `a` and then one over `b` leave, and every layer keeps the
/// same.
pub proof fn batching_changes_nothing<C>(
    ar: Arithmetic<C>,
    cfg: Config,
    a: Seq<u32>,
    b: Seq<u32>,
    max: int,
    base: int,
    m: Memory<C>,
)
    requires
        sizable(cfg, max),
        looks_back(ar),
        0 < a.len(),
        0 < b.len(),
        a.len() + b.len() <= max <= usize::MAX,
        0 <= base,
        base + a.len() + b.len() <= usize::MAX,
    ensures
        ({
            let whole = run(ar, a + b, steps(cfg, (a + b).len() as int, base), m);
            let first = run(ar, a, steps(cfg, a.len() as int, base), m);
            let then = run(ar, b, steps(cfg, b.len() as int, base + a.len()), first);
            &&& logits(whole, cfg.vocab as int) == logits(then, cfg.vocab as int)
            &&& whole.kept == then.kept
        }),
{
    let n = cfg.n_layers as int;
    let (ha, hb) = (all_embedded(ar, cfg, a), all_embedded(ar, cfg, b));
    let whole = run(ar, a + b, steps(cfg, (a + b).len() as int, base), m);
    let first = run(ar, a, steps(cfg, a.len() as int, base), m);
    let then = run(ar, b, steps(cfg, b.len() as int, base + a.len()), first);
    lemma_pass(ar, a + b, cfg, max, base, m);
    lemma_pass(ar, a, cfg, max, base, m);
    lemma_pass(ar, b, cfg, max, base + a.len(), first);
    assert(all_embedded(ar, cfg, a + b) =~= ha + hb);
    lemma_batches(
        net(ar, cfg),
        n,
        base,
        ha,
        hb,
        m.kept,
        first.kept,
        then.kept,
        whole.kept,
    );
}

} // verus!
