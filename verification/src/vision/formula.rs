//! What the tower computes, whatever its arithmetic.
//!
//! A step says which rows it reads and which it writes; how the numbers in them are
//! added and multiplied is a parameter here. Steps then have a meaning, and of every
//! arithmetic it is proved that the tower's program computes the tower as it is
//! published: the patches with their positions, the blocks, and the pooled tokens. The
//! laws are equations between rows: which weight, which gain and which activation meet
//! where is said by the equations alone.

use crate::cpu::formula::fitted;
use crate::cpu::meaning::head;
use crate::cpu::{rows, Rows, Scratch};
use crate::vision::cpu::{
    attn_steps, block_steps, blocks_steps, ffn_steps, patch_steps, pool_steps, pooled_patch,
    qkv_steps, steps, PatchGrid, TowerGain, TowerMatrix, TowerStep,
};
use crate::vision::Config;
use vstd::arithmetic::div_mod::{
    lemma_div_multiples_vanish, lemma_fundamental_div_mod, lemma_fundamental_div_mod_converse,
};
use vstd::prelude::*;

verus! {

// ---------------------------------------------------------------------------
// Meaning
// ---------------------------------------------------------------------------
/// What is done to one row.
pub enum TowerOp {
    Norm(Option<TowerGain>),
    Apply(TowerMatrix),
    /// Turn the low half by a column and the high half by a row.
    Turn { column: int, row: int },
    /// Add the learned vectors of a column and of a row.
    Place { column: int, row: int },
    /// Scale by the root of the width.
    Widen,
}

/// What is done to a row with the help of another.
pub enum TowerPair {
    Sum,
    Geglu,
}

/// An arithmetic of the tower.
pub struct TowerArithmetic {
    /// The convolution of a patch.
    pub patch: spec_fn(int) -> Seq<u32>,
    pub one: spec_fn(TowerOp, Seq<u32>) -> Seq<u32>,
    pub two: spec_fn(TowerPair, Seq<u32>, Seq<u32>) -> Seq<u32>,
    /// A head of a patch against the keys and the values of all of them.
    pub attend: spec_fn(Seq<u32>, Seq<Seq<u32>>, Seq<Seq<u32>>) -> Seq<u32>,
    /// The average of some rows.
    pub mean: spec_fn(Seq<Seq<u32>>) -> Seq<u32>,
}

/// The numbers of every scratch buffer.
pub struct TowerMemory {
    pub cells: spec_fn(Scratch, int) -> u32,
}

/// Row `i` of a buffer whose rows have `w` numbers.
pub open spec fn line(m: TowerMemory, b: Scratch, i: int, w: int) -> Seq<u32> {
    Seq::new(w as nat, |c: int| (m.cells)(b, i * w + c))
}

/// Row `i` of some rows.
pub open spec fn tower_row(m: TowerMemory, r: Rows, i: int) -> Seq<u32> {
    Seq::new(r.width as nat, |c: int| (m.cells)(r.buf, r.first + i * r.stride + c))
}

/// The rows that a step writes.
pub open spec fn tower_written(s: TowerStep) -> Rows {
    match s {
        TowerStep::PatchEmbed(r) => r,
        TowerStep::AddPosition { rows, nx: _ } => rows,
        TowerStep::Copy { from: _, to } => to,
        TowerStep::Norm { rows, gain: _ } => rows,
        TowerStep::Linear { matrix: _, x: _, y } => y,
        TowerStep::Rotate { rows, .. } => rows,
        TowerStep::Attend { out, .. } => out,
        TowerStep::Add { to, from: _ } => to,
        TowerStep::Geglu { gate, up: _ } => gate,
        TowerStep::Pool { to, .. } => to,
        TowerStep::ScaleByWidth(r) => r,
    }
}

/// The `h`-th head of `w` numbers of every row.
pub open spec fn every_head(x: Seq<Seq<u32>>, h: int, w: int) -> Seq<Seq<u32>> {
    Seq::new(x.len(), |t: int| head(x[t], h, w))
}

/// All of some rows.
pub open spec fn tower_rows(m: TowerMemory, r: Rows) -> Seq<Seq<u32>> {
    Seq::new(r.n as nat, |t: int| tower_row(m, r, t))
}

/// Every head of a query against the same head of the keys and values.
pub open spec fn attention(
    ar: TowerArithmetic,
    q: Seq<u32>,
    k: Seq<Seq<u32>>,
    v: Seq<Seq<u32>>,
    heads: int,
    w: int,
) -> Seq<u32> {
    Seq::new(
        (heads * w) as nat,
        |j: int|
            (ar.attend)(head(q, j / w, w), every_head(k, j / w, w), every_head(v, j / w, w))[j % w],
    )
}

/// Row `i` of what a step writes.
pub open spec fn tower_result(ar: TowerArithmetic, s: TowerStep, m: TowerMemory, i: int) -> Seq<
    u32,
> {
    match s {
        TowerStep::PatchEmbed(_) => (ar.patch)(i),
        TowerStep::AddPosition { rows, nx } => (ar.one)(
            TowerOp::Place { column: i % (nx as int), row: i / (nx as int) },
            tower_row(m, rows, i),
        ),
        TowerStep::Copy { from, to: _ } => tower_row(m, from, i),
        TowerStep::Norm { rows, gain } => (ar.one)(TowerOp::Norm(gain), tower_row(m, rows, i)),
        TowerStep::Linear { matrix, x, y: _ } => (ar.one)(
            TowerOp::Apply(matrix),
            tower_row(m, x, i),
        ),
        TowerStep::Rotate { rows, per_patch, nx } => {
            let patch = i / (per_patch as int);
            (ar.one)(
                TowerOp::Turn { column: patch % (nx as int), row: patch / (nx as int) },
                tower_row(m, rows, i),
            )
        },
        TowerStep::Attend { q, k, v, out: _, heads } => attention(
            ar,
            tower_row(m, q, i),
            tower_rows(m, k),
            tower_rows(m, v),
            heads as int,
            q.width as int / (heads as int),
        ),
        TowerStep::Add { to, from } => (ar.two)(
            TowerPair::Sum,
            tower_row(m, to, i),
            tower_row(m, from, i),
        ),
        TowerStep::Geglu { gate, up } => (ar.two)(
            TowerPair::Geglu,
            tower_row(m, gate, i),
            tower_row(m, up, i),
        ),
        TowerStep::Pool { from, to: _, nx, merge } => (ar.mean)(
            Seq::new(
                (merge * merge) as nat,
                |j: int| tower_row(m, from, pooled_patch(i, j, nx as int, merge as int)),
            ),
        ),
        TowerStep::ScaleByWidth(r) => (ar.one)(TowerOp::Widen, tower_row(m, r, i)),
    }
}

/// What a step makes of the memory.
pub open spec fn tower_effect(ar: TowerArithmetic, s: TowerStep, m: TowerMemory) -> TowerMemory {
    let y = tower_written(s);
    TowerMemory {
        cells: |b: Scratch, x: int|
            {
                let at = x - y.first;
                if b == y.buf && 0 <= at < y.n * y.stride && at % (y.stride as int) < y.width {
                    tower_result(ar, s, m, at / (y.stride as int))[at % (y.stride as int)]
                } else {
                    (m.cells)(b, x)
                }
            },
    }
}

/// What the first `n` steps make of it.
pub open spec fn tower_run_to(
    ar: TowerArithmetic,
    v: Seq<TowerStep>,
    n: int,
    m: TowerMemory,
) -> TowerMemory
    decreases n,
{
    if n <= 0 {
        m
    } else {
        tower_effect(ar, v[n - 1], tower_run_to(ar, v, n - 1, m))
    }
}

/// What all of them make of it.
pub open spec fn tower_run(ar: TowerArithmetic, v: Seq<TowerStep>, m: TowerMemory) -> TowerMemory {
    tower_run_to(ar, v, v.len() as int, m)
}

// ---------------------------------------------------------------------------
// Steps over whole rows
// ---------------------------------------------------------------------------
proof fn lemma_tower_front(
    ar: TowerArithmetic,
    v: Seq<TowerStep>,
    w: Seq<TowerStep>,
    n: int,
    m: TowerMemory,
)
    requires
        n <= v.len(),
    ensures
        tower_run_to(ar, v + w, n, m) == tower_run_to(ar, v, n, m),
    decreases n,
{
    if n > 0 {
        lemma_tower_front(ar, v, w, n - 1, m);
        assert((v + w)[n - 1] == v[n - 1]);
    }
}

proof fn lemma_tower_back(
    ar: TowerArithmetic,
    v: Seq<TowerStep>,
    w: Seq<TowerStep>,
    n: int,
    m: TowerMemory,
)
    requires
        0 <= n <= w.len(),
    ensures
        tower_run_to(ar, v + w, v.len() + n, m) == tower_run_to(ar, w, n, tower_run(ar, v, m)),
    decreases n,
{
    if n == 0 {
        lemma_tower_front(ar, v, w, v.len() as int, m);
    } else {
        lemma_tower_back(ar, v, w, n - 1, m);
        assert((v + w)[v.len() + n - 1] == w[n - 1]);
    }
}

/// Steps run one list behind the other.
proof fn lemma_tower_concat(
    ar: TowerArithmetic,
    v: Seq<TowerStep>,
    w: Seq<TowerStep>,
    m: TowerMemory,
)
    ensures
        tower_run(ar, v + w, m) == tower_run(ar, w, tower_run(ar, v, m)),
{
    lemma_tower_back(ar, v, w, w.len() as int, m);
}

/// A row of a buffer is that row of all its rows.
proof fn lemma_line(m: TowerMemory, b: Scratch, n: int, w: int, i: int)
    requires
        0 <= n <= usize::MAX,
        0 <= w <= usize::MAX,
    ensures
        tower_row(m, rows(b, n, w), i) == line(m, b, i, w),
{
    assert(tower_row(m, rows(b, n, w), i) =~= line(m, b, i, w));
}

/// A step that writes whole rows leaves its result in them, and the other buffers as
/// they were.
proof fn lemma_tower_step(
    ar: TowerArithmetic,
    s: TowerStep,
    m: TowerMemory,
    b: Scratch,
    n: int,
    w: int,
)
    requires
        tower_written(s) == rows(b, n, w),
        0 <= n <= usize::MAX,
        0 <= w <= usize::MAX,
    ensures
        forall|i: int|
            0 <= i < n ==> #[trigger] line(tower_effect(ar, s, m), b, i, w) == fitted(
                tower_result(ar, s, m, i),
                w,
            ),
        forall|o: Scratch, i: int, d: int|
            o != b ==> #[trigger] line(tower_effect(ar, s, m), o, i, d) == line(m, o, i, d),
{
    let e = tower_effect(ar, s, m);
    assert forall|i: int| 0 <= i < n implies #[trigger] line(e, b, i, w) == fitted(
        tower_result(ar, s, m, i),
        w,
    ) by {
        let want = fitted(tower_result(ar, s, m, i), w);
        assert forall|c: int| 0 <= c < w implies #[trigger] line(e, b, i, w)[c] == want[c] by {
            let at = i * w + c;
            lemma_fundamental_div_mod_converse(at, w, i, c);
            assert(0 <= at < n * w) by (nonlinear_arith)
                requires
                    at == i * w + c,
                    0 <= i < n,
                    0 <= c < w,
            ;
        }
        assert(line(e, b, i, w) =~= want);
    }
    assert forall|o: Scratch, i: int, d: int| o != b implies #[trigger] line(e, o, i, d) == line(
        m,
        o,
        i,
        d,
    ) by {
        assert(line(e, o, i, d) =~= line(m, o, i, d));
    }
}

/// An operation on each head of a row.
pub open spec fn tower_by_head(
    ar: TowerArithmetic,
    op: TowerOp,
    x: Seq<u32>,
    n: int,
    w: int,
) -> Seq<u32> {
    Seq::new((n * w) as nat, |j: int| (ar.one)(op, head(x, j / w, w))[j % w])
}

/// A step over the heads of a buffer works on each head of each row.
proof fn lemma_tower_heads(
    ar: TowerArithmetic,
    s: TowerStep,
    m: TowerMemory,
    b: Scratch,
    n: int,
    heads: int,
    w: int,
    i: int,
    op: TowerOp,
)
    requires
        tower_written(s) == rows(b, n * heads, w),
        0 <= i < n,
        0 < heads,
        0 <= n * heads <= usize::MAX,
        0 <= w <= usize::MAX,
        forall|h: int|
            0 <= h < heads ==> #[trigger] tower_result(ar, s, m, i * heads + h) == (ar.one)(
                op,
                line(m, b, i * heads + h, w),
            ),
    ensures
        line(tower_effect(ar, s, m), b, i, heads * w) == tower_by_head(
            ar,
            op,
            line(m, b, i, heads * w),
            heads,
            w,
        ),
{
    let e = tower_effect(ar, s, m);
    let x = line(m, b, i, heads * w);
    let want = tower_by_head(ar, op, x, heads, w);
    lemma_tower_step(ar, s, m, b, n * heads, w);
    assert forall|j: int| 0 <= j < heads * w implies #[trigger] line(e, b, i, heads * w)[j]
        == want[j] by {
        assert(0 < w) by (nonlinear_arith)
            requires
                0 <= j < heads * w,
                0 <= w,
        ;
        lemma_fundamental_div_mod(j, w);
        let (h, c) = (j / w, j % w);
        assert(0 <= h < heads && 0 <= c < w) by (nonlinear_arith)
            requires
                j == w * h + c,
                h == j / w,
                c == j % w,
                0 < w,
                0 <= j < heads * w,
        ;
        let k = i * heads + h;
        assert(0 <= k < n * heads) by (nonlinear_arith)
            requires
                k == i * heads + h,
                0 <= i < n,
                0 <= h < heads,
        ;
        assert(i * (heads * w) + j == k * w + c) by (nonlinear_arith)
            requires
                k == i * heads + h,
                j == w * h + c,
        ;
        assert(line(e, b, i, heads * w)[j] == line(e, b, k, w)[c]);
        assert(line(m, b, k, w) =~= head(x, h, w)) by {
            assert forall|z: int| 0 <= z < w implies #[trigger] line(m, b, k, w)[z] == head(
                x,
                h,
                w,
            )[z] by {
                assert(i * (heads * w) + (h * w + z) == k * w + z) by (nonlinear_arith)
                    requires
                        k == i * heads + h,
                ;
                assert(0 <= h * w + z < heads * w) by (nonlinear_arith)
                    requires
                        0 <= h < heads,
                        0 <= z < w,
                ;
            }
        }
    }
    assert(line(e, b, i, heads * w) =~= want);
}

// ---------------------------------------------------------------------------
// A block
// ---------------------------------------------------------------------------
/// A gain's norm of a row of `d` numbers, or the norm alone.
pub open spec fn tower_rms(
    ar: TowerArithmetic,
    gain: Option<TowerGain>,
    x: Seq<u32>,
    d: int,
) -> Seq<u32> {
    fitted((ar.one)(TowerOp::Norm(gain), x), d)
}

/// A matrix applied to a row, with `d` numbers for its result.
pub open spec fn tower_times(ar: TowerArithmetic, a: TowerMatrix, x: Seq<u32>, d: int) -> Seq<u32> {
    fitted((ar.one)(TowerOp::Apply(a), x), d)
}

/// What the heads of a patch's query or key become: normed by the gain and turned by the
/// patch's column and row.
pub open spec fn turned(
    ar: TowerArithmetic,
    gain: TowerGain,
    x: Seq<u32>,
    heads: int,
    w: int,
    column: int,
    row: int,
) -> Seq<u32> {
    let normed = tower_by_head(ar, TowerOp::Norm(Some(gain)), x, heads, w);
    tower_by_head(ar, TowerOp::Turn { column, row }, normed, heads, w)
}

/// A norm over heads.
proof fn lemma_norm_heads(
    ar: TowerArithmetic,
    m: TowerMemory,
    b: Scratch,
    n: int,
    heads: int,
    w: int,
    gain: Option<TowerGain>,
)
    requires
        0 < heads,
        0 <= n,
        0 <= n * heads <= usize::MAX,
        0 <= w <= usize::MAX,
    ensures
        ({
            let e = tower_effect(ar, TowerStep::Norm { rows: rows(b, n * heads, w), gain }, m);
            &&& forall|i: int|
                0 <= i < n ==> #[trigger] line(e, b, i, heads * w) == tower_by_head(
                    ar,
                    TowerOp::Norm(gain),
                    line(m, b, i, heads * w),
                    heads,
                    w,
                )
            &&& forall|o: Scratch, i: int, d: int|
                o != b ==> #[trigger] line(e, o, i, d) == line(m, o, i, d)
        }),
{
    let s = TowerStep::Norm { rows: rows(b, n * heads, w), gain };
    let e = tower_effect(ar, s, m);
    lemma_tower_step(ar, s, m, b, n * heads, w);
    assert forall|i: int| 0 <= i < n implies #[trigger] line(e, b, i, heads * w) == tower_by_head(
        ar,
        TowerOp::Norm(gain),
        line(m, b, i, heads * w),
        heads,
        w,
    ) by {
        assert forall|h: int| 0 <= h < heads implies #[trigger] tower_result(
            ar,
            s,
            m,
            i * heads + h,
        ) == (ar.one)(TowerOp::Norm(gain), line(m, b, i * heads + h, w)) by {
            lemma_line(m, b, n * heads, w, i * heads + h);
        }
        lemma_tower_heads(ar, s, m, b, n, heads, w, i, TowerOp::Norm(gain));
    }
}

/// A rotation over heads.
proof fn lemma_turn_heads(
    ar: TowerArithmetic,
    m: TowerMemory,
    b: Scratch,
    n: int,
    heads: int,
    w: int,
    nx: int,
)
    requires
        0 < heads <= usize::MAX,
        0 <= n,
        0 <= nx <= usize::MAX,
        0 <= n * heads <= usize::MAX,
        0 <= w <= usize::MAX,
    ensures
        ({
            let s = TowerStep::Rotate {
                rows: rows(b, n * heads, w),
                per_patch: heads as usize,
                nx: nx as usize,
            };
            let e = tower_effect(ar, s, m);
            &&& forall|i: int|
                0 <= i < n ==> #[trigger] line(e, b, i, heads * w) == tower_by_head(
                    ar,
                    TowerOp::Turn { column: i % nx, row: i / nx },
                    line(m, b, i, heads * w),
                    heads,
                    w,
                )
            &&& forall|o: Scratch, i: int, d: int|
                o != b ==> #[trigger] line(e, o, i, d) == line(m, o, i, d)
        }),
{
    let s = TowerStep::Rotate {
        rows: rows(b, n * heads, w),
        per_patch: heads as usize,
        nx: nx as usize,
    };
    let e = tower_effect(ar, s, m);
    lemma_tower_step(ar, s, m, b, n * heads, w);
    assert forall|i: int| 0 <= i < n implies #[trigger] line(e, b, i, heads * w) == tower_by_head(
        ar,
        TowerOp::Turn { column: i % nx, row: i / nx },
        line(m, b, i, heads * w),
        heads,
        w,
    ) by {
        let op = TowerOp::Turn { column: i % nx, row: i / nx };
        assert forall|h: int| 0 <= h < heads implies #[trigger] tower_result(
            ar,
            s,
            m,
            i * heads + h,
        ) == (ar.one)(op, line(m, b, i * heads + h, w)) by {
            lemma_line(m, b, n * heads, w, i * heads + h);
            lemma_fundamental_div_mod_converse(i * heads + h, heads, i, h);
        }
        lemma_tower_heads(ar, s, m, b, n, heads, w, i, op);
    }
}

/// A step from whole rows to whole rows.
proof fn lemma_rows_step(
    ar: TowerArithmetic,
    s: TowerStep,
    m: TowerMemory,
    from: Scratch,
    dx: int,
    to: Scratch,
    n: int,
    d: int,
)
    requires
        tower_written(s) == rows(to, n, d),
        0 <= n <= usize::MAX,
        0 <= d <= usize::MAX,
        0 <= dx <= usize::MAX,
        match s {
            TowerStep::Copy { from: f, .. } => f == rows(from, n, dx) && dx == d,
            TowerStep::Norm { rows: f, .. } => f == rows(from, n, dx),
            TowerStep::Linear { x: f, .. } => f == rows(from, n, dx),
            TowerStep::Add { from: f, .. } => f == rows(from, n, dx),
            TowerStep::Geglu { up: f, .. } => f == rows(from, n, dx),
            _ => false,
        },
    ensures
        ({
            let e = tower_effect(ar, s, m);
            &&& forall|i: int|
                0 <= i < n ==> #[trigger] line(e, to, i, d) == (match s {
                    TowerStep::Copy { .. } => line(m, from, i, dx),
                    TowerStep::Norm { gain, .. } => tower_rms(ar, gain, line(m, from, i, dx), d),
                    TowerStep::Linear { matrix, .. } => tower_times(
                        ar,
                        matrix,
                        line(m, from, i, dx),
                        d,
                    ),
                    TowerStep::Add { .. } => fitted(
                        (ar.two)(TowerPair::Sum, line(m, to, i, d), line(m, from, i, dx)),
                        d,
                    ),
                    _ => fitted(
                        (ar.two)(TowerPair::Geglu, line(m, to, i, d), line(m, from, i, dx)),
                        d,
                    ),
                })
            &&& forall|o: Scratch, i: int, w: int|
                o != to ==> #[trigger] line(e, o, i, w) == line(m, o, i, w)
        }),
{
    let e = tower_effect(ar, s, m);
    lemma_tower_step(ar, s, m, to, n, d);
    assert forall|i: int| 0 <= i < n implies #[trigger] line(e, to, i, d) == (match s {
        TowerStep::Copy { .. } => line(m, from, i, dx),
        TowerStep::Norm { gain, .. } => tower_rms(ar, gain, line(m, from, i, dx), d),
        TowerStep::Linear { matrix, .. } => tower_times(ar, matrix, line(m, from, i, dx), d),
        TowerStep::Add { .. } => fitted(
            (ar.two)(TowerPair::Sum, line(m, to, i, d), line(m, from, i, dx)),
            d,
        ),
        _ => fitted((ar.two)(TowerPair::Geglu, line(m, to, i, d), line(m, from, i, dx)), d),
    }) by {
        lemma_line(m, from, n, dx, i);
        lemma_line(m, to, n, d, i);
        if s is Copy {
            assert(line(e, to, i, d) =~= line(m, from, i, dx));
        }
    }
}

/// The sizes of a block.
spec fn tower_sizes(cfg: Config, n: int, nx: int) -> bool {
    &&& cfg.wf()
    &&& 0 <= n <= usize::MAX
    &&& 0 <= nx <= usize::MAX
    &&& n * cfg.n_heads <= usize::MAX
}

#[verifier::rlimit(60)]
proof fn lemma_qkv(ar: TowerArithmetic, cfg: Config, il: int, n: int, nx: int, m: TowerMemory)
    requires
        tower_sizes(cfg, n, nx),
    ensures
        ({
            let e = tower_run(ar, qkv_steps(cfg, il, n, nx), m);
            let k = il as usize;
            let (d, nh, hd) = (cfg.d_model as int, cfg.n_heads as int, cfg.head_dim as int);
            &&& forall|i: int|
                0 <= i < n ==> #[trigger] line(e, Scratch::Q, i, d) == turned(
                    ar,
                    TowerGain::QueryNorm(k),
                    tower_times(
                        ar,
                        TowerMatrix::Query(k),
                        tower_rms(ar, Some(TowerGain::Ln1(k)), line(m, Scratch::H, i, d), d),
                        d,
                    ),
                    nh,
                    hd,
                    i % nx,
                    i / nx,
                )
            &&& forall|i: int|
                0 <= i < n ==> #[trigger] line(e, Scratch::K, i, d) == turned(
                    ar,
                    TowerGain::KeyNorm(k),
                    tower_times(
                        ar,
                        TowerMatrix::Key(k),
                        tower_rms(ar, Some(TowerGain::Ln1(k)), line(m, Scratch::H, i, d), d),
                        d,
                    ),
                    nh,
                    hd,
                    i % nx,
                    i / nx,
                )
            &&& forall|i: int|
                0 <= i < n ==> #[trigger] line(e, Scratch::V, i, d) == tower_by_head(
                    ar,
                    TowerOp::Norm(None),
                    tower_times(
                        ar,
                        TowerMatrix::Value(k),
                        tower_rms(ar, Some(TowerGain::Ln1(k)), line(m, Scratch::H, i, d), d),
                        d,
                    ),
                    nh,
                    hd,
                )
            &&& forall|i: int|
                0 <= i < n ==> #[trigger] line(e, Scratch::H, i, d) == line(m, Scratch::H, i, d)
        }),
{
    let (d, nh, hd) = (cfg.d_model as int, cfg.n_heads as int, cfg.head_dim as int);
    let k = il as usize;
    assert(d == nh * hd);
    assert(0 <= n * nh) by (nonlinear_arith)
        requires
            0 <= n,
            0 <= nh,
    ;
    let s = qkv_steps(cfg, il, n, nx);
    let e1 = tower_effect(ar, s[0], m);
    let e2 = tower_effect(ar, s[1], e1);
    let e3 = tower_effect(ar, s[2], e2);
    let e4 = tower_effect(ar, s[3], e3);
    let e5 = tower_effect(ar, s[4], e4);
    let e6 = tower_effect(ar, s[5], e5);
    let e7 = tower_effect(ar, s[6], e6);
    let e8 = tower_effect(ar, s[7], e7);
    let e9 = tower_effect(ar, s[8], e8);
    let e10 = tower_effect(ar, s[9], e9);
    assert(tower_run(ar, s, m) == e10) by {
        reveal_with_fuel(tower_run_to, 11);
    }
    lemma_rows_step(ar, s[0], m, Scratch::H, d, Scratch::X, n, d);
    lemma_rows_step(ar, s[1], e1, Scratch::X, d, Scratch::X, n, d);
    lemma_rows_step(ar, s[2], e2, Scratch::X, d, Scratch::Q, n, d);
    lemma_rows_step(ar, s[3], e3, Scratch::X, d, Scratch::K, n, d);
    lemma_rows_step(ar, s[4], e4, Scratch::X, d, Scratch::V, n, d);
    lemma_norm_heads(ar, e5, Scratch::Q, n, nh, hd, Some(TowerGain::QueryNorm(k)));
    lemma_turn_heads(ar, e6, Scratch::Q, n, nh, hd, nx);
    lemma_norm_heads(ar, e7, Scratch::K, n, nh, hd, Some(TowerGain::KeyNorm(k)));
    lemma_turn_heads(ar, e8, Scratch::K, n, nh, hd, nx);
    lemma_norm_heads(ar, e9, Scratch::V, n, nh, hd, None);
}

/// Every row of a buffer.
pub open spec fn lines(m: TowerMemory, b: Scratch, n: int, w: int) -> Seq<Seq<u32>> {
    Seq::new(n as nat, |i: int| line(m, b, i, w))
}

proof fn lemma_lines(m: TowerMemory, b: Scratch, n: int, w: int)
    requires
        0 <= n <= usize::MAX,
        0 <= w <= usize::MAX,
    ensures
        tower_rows(m, rows(b, n, w)) == lines(m, b, n, w),
{
    assert forall|t: int| 0 <= t < n implies #[trigger] tower_rows(m, rows(b, n, w))[t] == lines(
        m,
        b,
        n,
        w,
    )[t] by {
        lemma_line(m, b, n, w, t);
    }
    assert(tower_rows(m, rows(b, n, w)) =~= lines(m, b, n, w));
}

#[verifier::rlimit(60)]
proof fn lemma_attn(ar: TowerArithmetic, cfg: Config, il: int, n: int, m: TowerMemory)
    requires
        tower_sizes(cfg, n, 0),
    ensures
        ({
            let e = tower_run(ar, attn_steps(cfg, il, n), m);
            let k = il as usize;
            let (d, nh, hd) = (cfg.d_model as int, cfg.n_heads as int, cfg.head_dim as int);
            forall|i: int|
                0 <= i < n ==> #[trigger] line(e, Scratch::H, i, d) == fitted(
                    (ar.two)(
                        TowerPair::Sum,
                        line(m, Scratch::H, i, d),
                        tower_rms(
                            ar,
                            Some(TowerGain::AttnPostNorm(k)),
                            tower_times(
                                ar,
                                TowerMatrix::AttnOut(k),
                                attention(
                                    ar,
                                    line(m, Scratch::Q, i, d),
                                    lines(m, Scratch::K, n, d),
                                    lines(m, Scratch::V, n, d),
                                    nh,
                                    hd,
                                ),
                                d,
                            ),
                            d,
                        ),
                    ),
                    d,
                )
        }),
{
    let (d, nh, hd) = (cfg.d_model as int, cfg.n_heads as int, cfg.head_dim as int);
    let s = attn_steps(cfg, il, n);
    let e1 = tower_effect(ar, s[0], m);
    let e2 = tower_effect(ar, s[1], e1);
    let e3 = tower_effect(ar, s[2], e2);
    let e4 = tower_effect(ar, s[3], e3);
    assert(tower_run(ar, s, m) == e4) by {
        reveal_with_fuel(tower_run_to, 5);
    }
    lemma_div_multiples_vanish(hd, nh);
    assert(d / nh == hd) by {
        assert(nh * hd == hd * nh) by (nonlinear_arith);
    }
    lemma_tower_step(ar, s[0], m, Scratch::Attn, n, d);
    lemma_lines(m, Scratch::K, n, d);
    lemma_lines(m, Scratch::V, n, d);
    assert forall|i: int| 0 <= i < n implies #[trigger] line(e1, Scratch::Attn, i, d) == attention(
        ar,
        line(m, Scratch::Q, i, d),
        lines(m, Scratch::K, n, d),
        lines(m, Scratch::V, n, d),
        nh,
        hd,
    ) by {
        lemma_line(m, Scratch::Q, n, d, i);
        assert(line(e1, Scratch::Attn, i, d) =~= attention(
            ar,
            line(m, Scratch::Q, i, d),
            lines(m, Scratch::K, n, d),
            lines(m, Scratch::V, n, d),
            nh,
            hd,
        ));
    }
    lemma_rows_step(ar, s[1], e1, Scratch::Attn, d, Scratch::Proj, n, d);
    lemma_rows_step(ar, s[2], e2, Scratch::Proj, d, Scratch::Proj, n, d);
    lemma_rows_step(ar, s[3], e3, Scratch::Proj, d, Scratch::H, n, d);
}

/// What the feed-forward part adds to a row.
spec fn fed(ar: TowerArithmetic, cfg: Config, k: usize, h: Seq<u32>) -> Seq<u32> {
    let (d, f) = (cfg.d_model as int, cfg.ffn_dim as int);
    let y = tower_rms(ar, Some(TowerGain::Ln2(k)), h, d);
    let gate = tower_times(ar, TowerMatrix::FfnGate(k), y, f);
    let up = tower_times(ar, TowerMatrix::FfnUp(k), y, f);
    let g = fitted((ar.two)(TowerPair::Geglu, gate, up), f);
    let down = tower_times(ar, TowerMatrix::FfnDown(k), g, d);
    tower_rms(ar, Some(TowerGain::FfnPostNorm(k)), down, d)
}

#[verifier::rlimit(60)]
proof fn lemma_ffn(ar: TowerArithmetic, cfg: Config, il: int, n: int, m: TowerMemory)
    requires
        tower_sizes(cfg, n, 0),
    ensures
        ({
            let e = tower_run(ar, ffn_steps(cfg, il, n), m);
            let k = il as usize;
            let d = cfg.d_model as int;
            forall|i: int|
                0 <= i < n ==> #[trigger] line(e, Scratch::H, i, d) == fitted(
                    (ar.two)(
                        TowerPair::Sum,
                        line(m, Scratch::H, i, d),
                        fed(ar, cfg, k, line(m, Scratch::H, i, d)),
                    ),
                    d,
                )
        }),
{
    let (d, f) = (cfg.d_model as int, cfg.ffn_dim as int);
    let s = ffn_steps(cfg, il, n);
    let e1 = tower_effect(ar, s[0], m);
    let e2 = tower_effect(ar, s[1], e1);
    let e3 = tower_effect(ar, s[2], e2);
    let e4 = tower_effect(ar, s[3], e3);
    let e5 = tower_effect(ar, s[4], e4);
    let e6 = tower_effect(ar, s[5], e5);
    let e7 = tower_effect(ar, s[6], e6);
    let e8 = tower_effect(ar, s[7], e7);
    assert(tower_run(ar, s, m) == e8) by {
        reveal_with_fuel(tower_run_to, 9);
    }
    lemma_rows_step(ar, s[0], m, Scratch::H, d, Scratch::X, n, d);
    lemma_rows_step(ar, s[1], e1, Scratch::X, d, Scratch::X, n, d);
    lemma_rows_step(ar, s[2], e2, Scratch::X, d, Scratch::Gate, n, f);
    lemma_rows_step(ar, s[3], e3, Scratch::X, d, Scratch::Up, n, f);
    lemma_rows_step(ar, s[4], e4, Scratch::Up, f, Scratch::Gate, n, f);
    lemma_rows_step(ar, s[5], e5, Scratch::Gate, f, Scratch::Proj, n, d);
    lemma_rows_step(ar, s[6], e6, Scratch::Proj, d, Scratch::Proj, n, d);
    lemma_rows_step(ar, s[7], e7, Scratch::Proj, d, Scratch::H, n, d);
}

// ---------------------------------------------------------------------------
// Laws
// ---------------------------------------------------------------------------
/// A block computes the published block. With `h` the rows of the patches that it finds,
///
/// ```text
/// x = rms(h) * ln1
/// q = rope2d(rms_head(Wq x) * q_norm)
/// k = rope2d(rms_head(Wk x) * k_norm)
/// v = rms_head(Wv x)
/// o = attn(q, k, v)
/// a = h + rms(Wo o) * attn_post_norm
/// y = rms(a) * ln2
/// g = gelu(Wg y) * (Wu y)
/// ```
///
/// and it leaves `a + rms(Wd g) * ffn_post_norm`. A patch turns by its own column and
/// row, and sees every patch.
#[verifier::rlimit(60)]
pub proof fn a_block_computes_the_published_block(
    ar: TowerArithmetic,
    cfg: Config,
    il: int,
    n: int,
    nx: int,
    m: TowerMemory,
    x: Seq<Seq<u32>>,
    q: Seq<Seq<u32>>,
    k: Seq<Seq<u32>>,
    v: Seq<Seq<u32>>,
    o: Seq<Seq<u32>>,
    a: Seq<Seq<u32>>,
    y: Seq<Seq<u32>>,
    g: Seq<Seq<u32>>,
)
    requires
        cfg.wf(),
        0 <= n <= usize::MAX,
        0 <= nx <= usize::MAX,
        n * cfg.n_heads <= usize::MAX,
        x.len() == n && q.len() == n && k.len() == n && v.len() == n && o.len() == n,
        a.len() == n && y.len() == n && g.len() == n,
        forall|i: int|
            0 <= i < n ==> #[trigger] x[i] == tower_rms(
                ar,
                Some(TowerGain::Ln1(il as usize)),
                line(m, Scratch::H, i, cfg.d_model as int),
                cfg.d_model as int,
            ),
        forall|i: int|
            0 <= i < n ==> #[trigger] q[i] == ({
                let (nh, w) = (cfg.n_heads as int, cfg.head_dim as int);
                let raw = tower_times(
                    ar,
                    TowerMatrix::Query(il as usize),
                    x[i],
                    cfg.d_model as int,
                );
                let op = TowerOp::Norm(Some(TowerGain::QueryNorm(il as usize)));
                let normed = tower_by_head(ar, op, raw, nh, w);
                tower_by_head(
                    ar,
                    TowerOp::Turn { column: i % nx, row: i / nx },
                    normed,
                    nh,
                    w,
                )
            }),
        forall|i: int|
            0 <= i < n ==> #[trigger] k[i] == ({
                let (nh, w) = (cfg.n_heads as int, cfg.head_dim as int);
                let raw = tower_times(ar, TowerMatrix::Key(il as usize), x[i], cfg.d_model as int);
                let op = TowerOp::Norm(Some(TowerGain::KeyNorm(il as usize)));
                let normed = tower_by_head(ar, op, raw, nh, w);
                tower_by_head(
                    ar,
                    TowerOp::Turn { column: i % nx, row: i / nx },
                    normed,
                    nh,
                    w,
                )
            }),
        forall|i: int|
            0 <= i < n ==> #[trigger] v[i] == ({
                let (nh, w) = (cfg.n_heads as int, cfg.head_dim as int);
                let raw = tower_times(
                    ar,
                    TowerMatrix::Value(il as usize),
                    x[i],
                    cfg.d_model as int,
                );
                tower_by_head(ar, TowerOp::Norm(None), raw, nh, w)
            }),
        forall|i: int|
            0 <= i < n ==> #[trigger] o[i] == ({
                let (nh, w) = (cfg.n_heads as int, cfg.head_dim as int);
                Seq::new(
                    (nh * w) as nat,
                    |j: int|
                        (ar.attend)(
                            head(q[i], j / w, w),
                            Seq::new(n as nat, |t: int| head(k[t], j / w, w)),
                            Seq::new(n as nat, |t: int| head(v[t], j / w, w)),
                        )[j % w],
                )
            }),
        forall|i: int|
            0 <= i < n ==> #[trigger] a[i] == ({
                let d = cfg.d_model as int;
                let out = tower_times(ar, TowerMatrix::AttnOut(il as usize), o[i], d);
                let gain = TowerGain::AttnPostNorm(il as usize);
                let h = line(m, Scratch::H, i, d);
                fitted((ar.two)(TowerPair::Sum, h, tower_rms(ar, Some(gain), out, d)), d)
            }),
        forall|i: int|
            0 <= i < n ==> #[trigger] y[i] == tower_rms(
                ar,
                Some(TowerGain::Ln2(il as usize)),
                a[i],
                cfg.d_model as int,
            ),
        forall|i: int|
            0 <= i < n ==> #[trigger] g[i] == ({
                let f = cfg.ffn_dim as int;
                let gate = tower_times(ar, TowerMatrix::FfnGate(il as usize), y[i], f);
                let up = tower_times(ar, TowerMatrix::FfnUp(il as usize), y[i], f);
                fitted((ar.two)(TowerPair::Geglu, gate, up), f)
            }),
    ensures
        ({
            let e = tower_run(ar, block_steps(cfg, il, n, nx), m);
            let d = cfg.d_model as int;
            forall|i: int|
                0 <= i < n ==> #[trigger] line(e, Scratch::H, i, d) == ({
                    let down = tower_times(ar, TowerMatrix::FfnDown(il as usize), g[i], d);
                    let gain = TowerGain::FfnPostNorm(il as usize);
                    fitted(
                        (ar.two)(TowerPair::Sum, a[i], tower_rms(ar, Some(gain), down, d)),
                        d,
                    )
                })
        }),
{
    let (d, nh, hd) = (cfg.d_model as int, cfg.n_heads as int, cfg.head_dim as int);
    let (s1, s2, s3) = (
        qkv_steps(cfg, il, n, nx),
        attn_steps(cfg, il, n),
        ffn_steps(cfg, il, n),
    );
    lemma_tower_concat(ar, s1 + s2, s3, m);
    lemma_tower_concat(ar, s1, s2, m);
    let e1 = tower_run(ar, s1, m);
    let e2 = tower_run(ar, s2, e1);
    let e3 = tower_run(ar, s3, e2);
    lemma_qkv(ar, cfg, il, n, nx, m);
    lemma_attn(ar, cfg, il, n, e1);
    lemma_ffn(ar, cfg, il, n, e2);
    assert forall|i: int| 0 <= i < n implies #[trigger] q[i] == line(e1, Scratch::Q, i, d)
        && x[i] == x[i] by {}
    assert(lines(e1, Scratch::K, n, d) =~= k) by {
        assert forall|i: int| 0 <= i < n implies #[trigger] lines(e1, Scratch::K, n, d)[i]
            == k[i] by {
            assert(x[i] == x[i]);
        }
    }
    assert(lines(e1, Scratch::V, n, d) =~= v) by {
        assert forall|i: int| 0 <= i < n implies #[trigger] lines(e1, Scratch::V, n, d)[i]
            == v[i] by {
            assert(x[i] == x[i]);
        }
    }
    assert forall|i: int| 0 <= i < n implies #[trigger] a[i] == line(e2, Scratch::H, i, d) by {
        assert(q[i] == line(e1, Scratch::Q, i, d));
        let want = attention(ar, q[i], k, v, nh, hd);
        assert forall|j: int| 0 <= j < nh * hd implies #[trigger] o[i][j] == want[j] by {
            assert(every_head(k, j / hd, hd) =~= Seq::new(
                n as nat,
                |t: int| head(k[t], j / hd, hd),
            ));
            assert(every_head(v, j / hd, hd) =~= Seq::new(
                n as nat,
                |t: int| head(v[t], j / hd, hd),
            ));
        }
        assert(o[i] =~= want);
    }
    assert forall|i: int| 0 <= i < n implies #[trigger] line(e3, Scratch::H, i, d) == ({
        let down = tower_times(ar, TowerMatrix::FfnDown(il as usize), g[i], d);
        let gain = TowerGain::FfnPostNorm(il as usize);
        fitted((ar.two)(TowerPair::Sum, a[i], tower_rms(ar, Some(gain), down, d)), d)
    }) by {
        let f = cfg.ffn_dim as int;
        assert(a[i] == line(e2, Scratch::H, i, d));
        assert(y[i] == tower_rms(ar, Some(TowerGain::Ln2(il as usize)), a[i], d));
        let gate = tower_times(ar, TowerMatrix::FfnGate(il as usize), y[i], f);
        let up = tower_times(ar, TowerMatrix::FfnUp(il as usize), y[i], f);
        assert(g[i] == fitted((ar.two)(TowerPair::Geglu, gate, up), f));
        let down = tower_times(ar, TowerMatrix::FfnDown(il as usize), g[i], d);
        let gain = TowerGain::FfnPostNorm(il as usize);
        let end = tower_rms(ar, Some(gain), down, d);
        assert(fed(ar, cfg, il as usize, a[i]) == end);
        assert(line(e3, Scratch::H, i, d) == fitted(
            (ar.two)(TowerPair::Sum, line(e2, Scratch::H, i, d), end),
            d,
        ));
    }
}

/// A tower is its blocks, one behind the other, between the patches and the pool.
pub proof fn a_tower_is_its_blocks(
    ar: TowerArithmetic,
    cfg: Config,
    grid: PatchGrid,
    m: TowerMemory,
    states: Seq<TowerMemory>,
)
    requires
        states.len() == cfg.n_layers + 1,
        states[0] == tower_run(ar, patch_steps(cfg, grid.nx * grid.ny, grid.nx as int), m),
        forall|l: int|
            #![trigger block_steps(cfg, l, grid.nx * grid.ny, grid.nx as int)]
            0 <= l < cfg.n_layers ==> states[l + 1] == tower_run(
                ar,
                block_steps(cfg, l, grid.nx * grid.ny, grid.nx as int),
                states[l],
            ),
    ensures
        tower_run(ar, steps(cfg, grid), m) == tower_run(
            ar,
            pool_steps(cfg, grid.nx * grid.ny, grid.nx as int, grid.ox * grid.oy),
            states[cfg.n_layers as int],
        ),
{
    let (n, nx) = (grid.nx * grid.ny, grid.nx as int);
    let front = patch_steps(cfg, n, nx);
    let blocks = blocks_steps(cfg, cfg.n_layers as int, n, nx);
    lemma_tower_states(ar, cfg, n, nx, states, cfg.n_layers as int);
    lemma_tower_concat(ar, front, blocks, m);
    lemma_tower_concat(
        ar,
        front + blocks,
        pool_steps(cfg, n, nx, grid.ox * grid.oy),
        m,
    );
}

proof fn lemma_tower_states(
    ar: TowerArithmetic,
    cfg: Config,
    n: int,
    nx: int,
    states: Seq<TowerMemory>,
    k: int,
)
    requires
        0 <= k < states.len(),
        states.len() == cfg.n_layers + 1,
        forall|l: int|
            #![trigger block_steps(cfg, l, n, nx)]
            0 <= l < cfg.n_layers ==> states[l + 1] == tower_run(
                ar,
                block_steps(cfg, l, n, nx),
                states[l],
            ),
    ensures
        tower_run(ar, blocks_steps(cfg, k, n, nx), states[0]) == states[k],
    decreases k,
{
    if k > 0 {
        lemma_tower_states(ar, cfg, n, nx, states, k - 1);
        let l = k - 1;
        lemma_tower_concat(
            ar,
            blocks_steps(cfg, l, n, nx),
            block_steps(cfg, l, n, nx),
            states[0],
        );
        assert(states[l + 1] == states[k]);
    }
}

/// The stream starts with the convolution of every patch, to which the vectors of the
/// patch's own column and row are added.
pub proof fn patches_enter_with_their_place(
    ar: TowerArithmetic,
    cfg: Config,
    n: int,
    nx: int,
    m: TowerMemory,
    i: int,
)
    requires
        0 <= i < n <= usize::MAX,
        0 < nx <= usize::MAX,
    ensures
        ({
            let e = tower_run(ar, patch_steps(cfg, n, nx), m);
            let d = cfg.d_model as int;
            line(e, Scratch::H, i, d) == fitted(
                (ar.one)(
                    TowerOp::Place { column: i % nx, row: i / nx },
                    fitted((ar.patch)(i), d),
                ),
                d,
            )
        }),
{
    let d = cfg.d_model as int;
    let s = patch_steps(cfg, n, nx);
    let e1 = tower_effect(ar, s[0], m);
    let e2 = tower_effect(ar, s[1], e1);
    assert(tower_run(ar, s, m) == e2) by {
        reveal_with_fuel(tower_run_to, 3);
    }
    lemma_tower_step(ar, s[0], m, Scratch::H, n, d);
    lemma_tower_step(ar, s[1], e1, Scratch::H, n, d);
    lemma_line(e1, Scratch::H, n, d, i);
    assert(line(e1, Scratch::H, i, d) == fitted((ar.patch)(i), d));
}

/// A token for the text model is the average of the patches of its square of the grid,
/// scaled, normed and projected.
pub proof fn tokens_are_pooled_and_projected(
    ar: TowerArithmetic,
    cfg: Config,
    n: int,
    nx: int,
    n_out: int,
    m: TowerMemory,
    o: int,
    square: Seq<Seq<u32>>,
)
    requires
        0 <= n <= usize::MAX,
        0 < nx <= usize::MAX,
        0 <= o < n_out <= usize::MAX,
        square.len() == cfg.n_merge * cfg.n_merge,
        forall|j: int|
            0 <= j < square.len() ==> #[trigger] square[j] == ({
                let k = cfg.n_merge as int;
                let across = nx / k;
                let (row, column) = ((o / across) * k + j / k, (o % across) * k + j % k);
                line(m, Scratch::H, row * nx + column, cfg.d_model as int)
            }),
    ensures
        ({
            let e = tower_run(ar, pool_steps(cfg, n, nx, n_out), m);
            let (d, p) = (cfg.d_model as int, cfg.proj_dim as int);
            let wide = fitted((ar.one)(TowerOp::Widen, fitted((ar.mean)(square), d)), d);
            line(e, Scratch::Logits, o, p) == tower_times(
                ar,
                TowerMatrix::InputProjection,
                tower_rms(ar, None, wide, d),
                p,
            )
        }),
{
    let (d, p) = (cfg.d_model as int, cfg.proj_dim as int);
    let k = cfg.n_merge as int;
    let s = pool_steps(cfg, n, nx, n_out);
    let e1 = tower_effect(ar, s[0], m);
    let e2 = tower_effect(ar, s[1], e1);
    let e3 = tower_effect(ar, s[2], e2);
    let e4 = tower_effect(ar, s[3], e3);
    assert(tower_run(ar, s, m) == e4) by {
        reveal_with_fuel(tower_run_to, 5);
    }
    lemma_tower_step(ar, s[0], m, Scratch::X, n_out, d);
    lemma_tower_step(ar, s[1], e1, Scratch::X, n_out, d);
    lemma_rows_step(ar, s[2], e2, Scratch::X, d, Scratch::X, n_out, d);
    lemma_rows_step(ar, s[3], e3, Scratch::X, d, Scratch::Logits, n_out, p);
    let from = rows(Scratch::H, n, d);
    let taken = Seq::new(
        (cfg.n_merge * cfg.n_merge) as nat,
        |j: int| tower_row(m, from, pooled_patch(o, j, nx as usize as int, k)),
    );
    assert forall|j: int| 0 <= j < taken.len() implies #[trigger] taken[j] == square[j] by {
        lemma_line(m, Scratch::H, n, d, pooled_patch(o, j, nx, k));
        assert(square[j] == square[j]);
    }
    assert(taken =~= square);
    assert(line(e1, Scratch::X, o, d) == fitted((ar.mean)(square), d));
    lemma_line(e1, Scratch::X, n_out, d, o);
    assert(line(e2, Scratch::X, o, d) == fitted(
        (ar.one)(TowerOp::Widen, line(e1, Scratch::X, o, d)),
        d,
    ));
    assert(line(e3, Scratch::X, o, d) == tower_rms(ar, None, line(e2, Scratch::X, o, d), d));
}

} // verus!
