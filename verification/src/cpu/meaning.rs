//! What a pass computes, whatever its arithmetic.
//!
//! A step says which rows it reads and which it writes; how the numbers in them are
//! added and multiplied is the caller's. Here that arithmetic is a parameter: any
//! functions on rows will do, as long as each row of a step's result comes from its own
//! row alone. Steps then have a meaning, and of every such arithmetic it is proved that
//! splitting a batch changes nothing, neither the logits nor what the layers keep.

use crate::cpu::{rows, rows_of, Gain, Matrix, Rows, Scratch, Step};
use vstd::prelude::*;

verus! {

// ---------------------------------------------------------------------------
// Meaning
// ---------------------------------------------------------------------------
/// What is done to one row.
pub enum Op {
    Same,
    Scale,
    Norm(Option<Gain>),
    Project(Matrix),
    Turn { layer: usize, factors: bool, turning: usize, pos: int },
    Cap,
}

/// What is done to a row with the help of another.
pub enum Pair {
    Open,
    Sum,
    ScaledSum(usize),
    Geglu,
    Swiglu,
    GatedNorm(usize),
}

/// An arithmetic: what becomes of a token, of a row, and of `C`, which is what a layer
/// keeps from one pass to the next.
#[verifier::reject_recursive_types(C)]
pub struct Arithmetic<C> {
    pub embed: spec_fn(u32) -> Seq<u32>,
    pub one: spec_fn(Op, Seq<u32>) -> Seq<u32>,
    pub two: spec_fn(Pair, Seq<u32>, Seq<u32>) -> Seq<u32>,
    /// Keep a position's key and value.
    pub store: spec_fn(C, usize, Seq<u32>, Seq<u32>) -> C,
    /// A head of a layer against a head of the positions from one to another.
    pub attend: spec_fn(C, usize, int, usize, usize, Seq<u32>) -> Seq<u32>,
    /// Take a token's rows into the recurrence.
    pub absorb: spec_fn(C, usize, Seq<u32>, Seq<u32>, Seq<u32>) -> C,
    /// What the recurrence gives for the token that it took in last.
    pub emit: spec_fn(C, usize, Seq<u32>, Seq<u32>, Seq<u32>) -> Seq<u32>,
    /// The logit of a token that is never emitted.
    pub never: u32,
}

/// The numbers of every scratch buffer, and what every layer keeps.
#[verifier::reject_recursive_types(C)]
pub struct Memory<C> {
    pub cells: spec_fn(Scratch, int) -> u32,
    pub kept: spec_fn(usize) -> C,
}

/// Row `i` of some rows.
pub open spec fn row<C>(m: Memory<C>, r: Rows, i: int) -> Seq<u32> {
    Seq::new(r.width as nat, |c: int| (m.cells)(r.buf, r.first + i * r.stride + c))
}

/// A cell of a buffer lies in one of the rows.
pub open spec fn covers(r: Rows, b: Scratch, x: int) -> bool {
    &&& b == r.buf
    &&& r.first <= x < r.first + r.n * r.stride
    &&& (x - r.first) % (r.stride as int) < r.width
}

/// The rows that a step writes.
pub open spec fn written(s: Step) -> Option<Rows> {
    match s {
        Step::Embed(r) => Some(r),
        Step::ScaleEmbedding(r) => Some(r),
        Step::Copy { from: _, to } => Some(to),
        Step::Norm { rows, gain: _ } => Some(rows),
        Step::Project { matrix: _, x: _, y } => Some(y),
        Step::Rotate { rows, .. } => Some(rows),
        Step::Store { .. } => None,
        Step::Attend { out, .. } => Some(out),
        Step::Open { rows, by: _ } => Some(rows),
        Step::Add { to, from: _ } => Some(to),
        Step::AddScaled { to, .. } => Some(to),
        Step::Geglu { gate, up: _ } => Some(gate),
        Step::Swiglu { gate, up: _ } => Some(gate),
        Step::Recur { out, .. } => Some(out),
        Step::GatedNorm { heads, .. } => Some(heads),
        Step::SoftCap(r) => Some(r),
        Step::Suppress(id) => Some(
            Rows { buf: Scratch::Logits, first: id as usize, n: 1, width: 1, stride: 1 },
        ),
        Step::Mark { .. } => None,
    }
}

/// Where a step that takes row by row reads, and what it does to row `i`.
pub open spec fn taken(s: Step, i: int) -> Option<(Rows, Op)> {
    match s {
        Step::ScaleEmbedding(r) => Some((r, Op::Scale)),
        Step::Copy { from, to: _ } => Some((from, Op::Same)),
        Step::Norm { rows, gain } => Some((rows, Op::Norm(gain))),
        Step::Project { matrix, x, y: _ } => Some((x, Op::Project(matrix))),
        Step::Rotate { rows, turning, per_token, base_pos, layer, factors } => Some(
            (
                rows,
                Op::Turn { layer, factors, turning, pos: base_pos + i / (per_token as int) },
            ),
        ),
        Step::SoftCap(r) => Some((r, Op::Cap)),
        _ => None,
    }
}

/// The same, of a step that takes two rows at a time.
pub open spec fn paired(s: Step) -> Option<(Rows, Rows, Pair)> {
    match s {
        Step::Open { rows, by } => Some((rows, by, Pair::Open)),
        Step::Add { to, from } => Some((to, from, Pair::Sum)),
        Step::AddScaled { to, from, layer } => Some((to, from, Pair::ScaledSum(layer))),
        Step::Geglu { gate, up } => Some((gate, up, Pair::Geglu)),
        Step::Swiglu { gate, up } => Some((gate, up, Pair::Swiglu)),
        // The same numbers of `z` as the head has.
        Step::GatedNorm { layer, heads, z } => Some(
            (
                heads,
                Rows { n: heads.n, width: heads.width, stride: heads.stride, ..z },
                Pair::GatedNorm(layer),
            ),
        ),
        _ => None,
    }
}

pub open spec fn applied<C>(ar: Arithmetic<C>, op: Op, x: Seq<u32>) -> Seq<u32> {
    if op is Same {
        x
    } else {
        (ar.one)(op, x)
    }
}

/// What a recurrent layer keeps once it has taken in `n` rows.
pub open spec fn absorbed<C>(
    ar: Arithmetic<C>,
    m: Memory<C>,
    layer: usize,
    mixed: Rows,
    alpha: Rows,
    beta: Rows,
    n: int,
) -> C
    decreases n,
{
    if n <= 0 {
        (m.kept)(layer)
    } else {
        (ar.absorb)(
            absorbed(ar, m, layer, mixed, alpha, beta, n - 1),
            layer,
            row(m, mixed, n - 1),
            row(m, alpha, n - 1),
            row(m, beta, n - 1),
        )
    }
}

/// Row `i` of what a step over the tokens `ids` writes.
pub open spec fn result<C>(
    ar: Arithmetic<C>,
    ids: Seq<u32>,
    s: Step,
    m: Memory<C>,
    i: int,
) -> Seq<u32> {
    match s {
        Step::Embed(_) => (ar.embed)(ids[i]),
        Step::Attend { layer, q, out: _, group, from, pos } => (ar.attend)(
            (m.kept)(layer),
            layer,
            i / (group as int),
            from,
            pos,
            row(m, q, i),
        ),
        Step::Recur { layer, mixed, alpha, beta, out: _ } => (ar.emit)(
            absorbed(ar, m, layer, mixed, alpha, beta, i + 1),
            layer,
            row(m, mixed, i),
            row(m, alpha, i),
            row(m, beta, i),
        ),
        Step::Suppress(_) => seq![ar.never],
        _ => match (taken(s, i), paired(s)) {
            (Some((x, op)), _) => applied(ar, op, row(m, x, i)),
            (_, Some((x, y, p))) => (ar.two)(p, row(m, x, i), row(m, y, i)),
            _ => Seq::empty(),
        },
    }
}

/// What layer `l` keeps after a step.
pub open spec fn keeps<C>(ar: Arithmetic<C>, s: Step, m: Memory<C>, l: usize) -> C {
    match s {
        Step::Store { layer, pos, k, v } => if l == layer {
            (ar.store)((m.kept)(l), pos, row(m, k, 0), row(m, v, 0))
        } else {
            (m.kept)(l)
        },
        Step::Recur { layer, mixed, alpha, beta, out: _ } => if l == layer {
            absorbed(ar, m, layer, mixed, alpha, beta, mixed.n as int)
        } else {
            (m.kept)(l)
        },
        _ => (m.kept)(l),
    }
}

/// The number in a cell after a step.
pub open spec fn becomes<C>(
    ar: Arithmetic<C>,
    ids: Seq<u32>,
    s: Step,
    m: Memory<C>,
    b: Scratch,
    x: int,
) -> u32 {
    match written(s) {
        Some(y) => if covers(y, b, x) {
            result(ar, ids, s, m, (x - y.first) / (y.stride as int))[(x - y.first) % (
            y.stride as int)]
        } else {
            (m.cells)(b, x)
        },
        None => (m.cells)(b, x),
    }
}

/// What a step over the tokens `ids` makes of the memory.
pub open spec fn effect<C>(
    ar: Arithmetic<C>,
    ids: Seq<u32>,
    s: Step,
    m: Memory<C>,
) -> Memory<C> {
    Memory {
        cells: |b: Scratch, x: int| becomes(ar, ids, s, m, b, x),
        kept: |l: usize| keeps(ar, s, m, l),
    }
}

/// What the first `n` steps make of it.
pub open spec fn run_to<C>(
    ar: Arithmetic<C>,
    ids: Seq<u32>,
    v: Seq<Step>,
    n: int,
    m: Memory<C>,
) -> Memory<C>
    decreases n,
{
    if n <= 0 {
        m
    } else {
        effect(ar, ids, v[n - 1], run_to(ar, ids, v, n - 1, m))
    }
}

/// What all of them make of it.
pub open spec fn run<C>(
    ar: Arithmetic<C>,
    ids: Seq<u32>,
    v: Seq<Step>,
    m: Memory<C>,
) -> Memory<C> {
    run_to(ar, ids, v, v.len() as int, m)
}

/// The logits that a pass has left.
pub open spec fn logits<C>(m: Memory<C>, vocab: int) -> Seq<u32> {
    Seq::new(vocab as nat, |i: int| (m.cells)(Scratch::Logits, i))
}

pub(crate) proof fn lemma_run_front<C>(
    ar: Arithmetic<C>,
    ids: Seq<u32>,
    v: Seq<Step>,
    w: Seq<Step>,
    n: int,
    m: Memory<C>,
)
    requires
        n <= v.len(),
    ensures
        run_to(ar, ids, v + w, n, m) == run_to(ar, ids, v, n, m),
    decreases n,
{
    if n > 0 {
        lemma_run_front(ar, ids, v, w, n - 1, m);
        assert((v + w)[n - 1] == v[n - 1]);
    }
}

pub(crate) proof fn lemma_run_back<C>(
    ar: Arithmetic<C>,
    ids: Seq<u32>,
    v: Seq<Step>,
    w: Seq<Step>,
    n: int,
    m: Memory<C>,
)
    requires
        0 <= n <= w.len(),
    ensures
        run_to(ar, ids, v + w, v.len() + n, m) == run_to(ar, ids, w, n, run(ar, ids, v, m)),
    decreases n,
{
    if n == 0 {
        lemma_run_front(ar, ids, v, w, v.len() as int, m);
    } else {
        lemma_run_back(ar, ids, v, w, n - 1, m);
        assert((v + w)[v.len() + n - 1] == w[n - 1]);
    }
}

/// Steps run one list behind the other.
pub(crate) proof fn lemma_run_concat<C>(
    ar: Arithmetic<C>,
    ids: Seq<u32>,
    v: Seq<Step>,
    w: Seq<Step>,
    m: Memory<C>,
)
    ensures
        run(ar, ids, v + w, m) == run(ar, ids, w, run(ar, ids, v, m)),
{
    lemma_run_back(ar, ids, v, w, w.len() as int, m);
}

// ---------------------------------------------------------------------------
// Token by token
// ---------------------------------------------------------------------------
/// The numbers of token `i`, where each token has `w`.
pub open spec fn part<C>(m: Memory<C>, b: Scratch, i: int, w: int) -> Seq<u32> {
    Seq::new(w as nat, |c: int| (m.cells)(b, i * w + c))
}

/// Row `h` of a token's numbers.
pub open spec fn head(x: Seq<u32>, h: int, w: int) -> Seq<u32> {
    Seq::new(w as nat, |c: int| x[h * w + c])
}

/// The `w` numbers at `off` of a token's row `h`, where a row has `st`.
pub open spec fn lane(x: Seq<u32>, h: int, st: int, off: int, w: int) -> Seq<u32> {
    Seq::new(w as nat, |c: int| x[h * st + off + c])
}

/// An operation on each of the `n` rows of a token.
pub open spec fn each<C>(
    ar: Arithmetic<C>,
    op: Op,
    x: Seq<u32>,
    n: int,
    wx: int,
    w: int,
) -> Seq<u32> {
    Seq::new((n * w) as nat, |j: int| applied(ar, op, head(x, j / w, wx))[j % w])
}

/// An operation on the first `w` numbers of each row; the others stay.
pub open spec fn each_within<C>(
    ar: Arithmetic<C>,
    op: Op,
    x: Seq<u32>,
    n: int,
    st: int,
    w: int,
) -> Seq<u32> {
    Seq::new(
        (n * st) as nat,
        |j: int|
            if j % st < w {
                applied(ar, op, lane(x, j / st, st, 0, w))[j % st]
            } else {
                x[j]
            },
    )
}

/// An operation on each row with the help of a lane of another.
pub open spec fn each_pair<C>(
    ar: Arithmetic<C>,
    p: Pair,
    x: Seq<u32>,
    y: Seq<u32>,
    n: int,
    w: int,
    st: int,
    off: int,
) -> Seq<u32> {
    Seq::new(
        (n * w) as nat,
        |j: int| (ar.two)(p, head(x, j / w, w), lane(y, j / w, st, off, w))[j % w],
    )
}

/// An operation on two rows.
pub open spec fn both<C>(
    ar: Arithmetic<C>,
    p: Pair,
    x: Seq<u32>,
    y: Seq<u32>,
    w: int,
) -> Seq<u32> {
    Seq::new(w as nat, |j: int| (ar.two)(p, x, y)[j])
}

/// Attention of a token's `n` heads.
pub open spec fn attended<C>(
    ar: Arithmetic<C>,
    c: C,
    layer: usize,
    group: int,
    from: usize,
    pos: usize,
    q: Seq<u32>,
    n: int,
    w: int,
) -> Seq<u32> {
    Seq::new(
        (n * w) as nat,
        |j: int| (ar.attend)(c, layer, (j / w) / group, from, pos, head(q, j / w, w))[j % w],
    )
}

pub(crate) proof fn lemma_index(i: int, t: int, per: int, w: int, j: int)
    requires
        0 <= i < t,
        0 <= per,
        0 <= w,
        0 <= j < per * w,
    ensures
        0 < w,
        0 <= j / w < per,
        0 <= j % w < w,
        0 <= i * per + j / w < t * per,
        i * (per * w) + j == (i * per + j / w) * w + j % w,
        (i * (per * w) + j) / w == i * per + j / w,
        (i * (per * w) + j) % w == j % w,
        0 <= i * (per * w) + j < (t * per) * w,
{
    assert(0 < w) by (nonlinear_arith)
        requires
            0 <= w,
            0 <= j < per * w,
    ;
    let (q, r) = (j / w, j % w);
    vstd::arithmetic::div_mod::lemma_fundamental_div_mod(j, w);
    assert(0 <= q < per && 0 <= r < w) by (nonlinear_arith)
        requires
            0 < w,
            0 <= j < per * w,
            q == j / w,
            r == j % w,
    ;
    assert(i * (per * w) + j == (i * per + q) * w + r) by (nonlinear_arith)
        requires
            j == w * q + r,
    ;
    let k = i * per + q;
    assert(0 <= k < t * per) by (nonlinear_arith)
        requires
            0 <= i < t,
            0 <= q < per,
            k == i * per + q,
    ;
    vstd::arithmetic::div_mod::lemma_fundamental_div_mod_converse(k * w + r, w, k, r);
    assert(0 <= k * w + r < (t * per) * w) by (nonlinear_arith)
        requires
            0 <= k < t * per,
            0 <= r < w,
    ;
}

/// A row of the rows of all tokens is a row of its token.
pub(crate) proof fn lemma_row<C>(m: Memory<C>, r: Rows, i: int, per: int, h: int)
    requires
        r.first == 0,
        r.stride == r.width,
        0 <= i,
        0 <= h < per,
    ensures
        row(m, r, i * per + h) == head(part(m, r.buf, i, per * r.width), h, r.width as int),
{
    let w = r.width as int;
    let of_all = row(m, r, i * per + h);
    let of_token = head(part(m, r.buf, i, per * w), h, w);
    assert forall|c: int| 0 <= c < w implies #[trigger] of_all[c] == of_token[c] by {
        assert(0 <= h * w + c < per * w && (i * per + h) * w + c == i * (per * w) + (h * w + c))
            by (nonlinear_arith)
            requires
                0 <= h < per,
                0 <= c < w,
        ;
    }
    assert(of_all =~= of_token);
}

/// What a step that writes rows of every token does to them, and leaves of the rest.
pub(crate) proof fn lemma_step<C>(
    ar: Arithmetic<C>,
    ids: Seq<u32>,
    s: Step,
    m: Memory<C>,
    y: Rows,
    t: int,
    per: int,
)
    requires
        written(s) == Some(y),
        y.first == 0,
        y.stride == y.width,
        y.n == t * per,
        0 <= per,
    ensures
        forall|i: int, j: int|
            0 <= i < t && 0 <= j < per * y.width ==> #[trigger] part(
                effect(ar, ids, s, m),
                y.buf,
                i,
                per * y.width,
            )[j] == result(ar, ids, s, m, i * per + j / (y.width as int))[j % (y.width as int)],
        forall|b: Scratch, i: int, w: int|
            b != y.buf ==> #[trigger] part(effect(ar, ids, s, m), b, i, w) == part(m, b, i, w),
        !(s is Store) && !(s is Recur) ==> effect(ar, ids, s, m).kept == m.kept,
{
    let e = effect(ar, ids, s, m);
    let w = y.width as int;
    if !(s is Store) && !(s is Recur) {
        assert(e.kept =~= m.kept);
    }
    assert forall|b: Scratch, i: int, w: int| b != y.buf implies #[trigger] part(e, b, i, w)
        == part(m, b, i, w) by {
        assert(part(e, b, i, w) =~= part(m, b, i, w));
    }
    assert forall|i: int, j: int| 0 <= i < t && 0 <= j < per * w implies #[trigger] part(
        e,
        y.buf,
        i,
        per * w,
    )[j] == result(ar, ids, s, m, i * per + j / w)[j % w] by {
        lemma_index(i, t, per, w, j);
        let x = i * (per * w) + j;
        assert(y.n * y.stride == (t * per) * w);
        assert(covers(y, y.buf, x));
        assert((e.cells)(y.buf, x) == becomes(ar, ids, s, m, y.buf, x));
    }
}

/// A step that takes row by row takes token by token.
pub(crate) proof fn lemma_one<C>(
    ar: Arithmetic<C>,
    ids: Seq<u32>,
    s: Step,
    m: Memory<C>,
    x: Rows,
    y: Rows,
    op: Op,
    t: int,
    per: int,
)
    requires
        written(s) == Some(y),
        taken(s, 0) == Some((x, op)),
        s !is Rotate,
        x.first == 0 && y.first == 0,
        x.stride == x.width && y.stride == y.width,
        y.n == t * per,
        0 <= per,
    ensures
        forall|i: int|
            0 <= i < t ==> #[trigger] part(effect(ar, ids, s, m), y.buf, i, per * y.width) == each(
                ar,
                op,
                part(m, x.buf, i, per * x.width),
                per,
                x.width as int,
                y.width as int,
            ),
        forall|b: Scratch, i: int, w: int|
            b != y.buf ==> #[trigger] part(effect(ar, ids, s, m), b, i, w) == part(m, b, i, w),
        effect(ar, ids, s, m).kept == m.kept,
{
    lemma_step(ar, ids, s, m, y, t, per);
    let e = effect(ar, ids, s, m);
    let w = y.width as int;
    assert forall|i: int| 0 <= i < t implies #[trigger] part(e, y.buf, i, per * w) == each(
        ar,
        op,
        part(m, x.buf, i, per * x.width),
        per,
        x.width as int,
        w,
    ) by {
        let want = each(ar, op, part(m, x.buf, i, per * x.width), per, x.width as int, w);
        assert forall|j: int| 0 <= j < per * w implies #[trigger] part(
            e,
            y.buf,
            i,
            per * w,
        )[j] == want[j] by {
            lemma_index(i, t, per, w, j);
            lemma_row(m, x, i, per, j / w);
            assert(taken(s, i * per + j / w) == Some((x, op)));
        }
        assert(part(e, y.buf, i, per * w) =~= want);
    }
}

/// A rotation turns every row of a token by the token's position.
pub(crate) proof fn lemma_turn<C>(
    ar: Arithmetic<C>,
    ids: Seq<u32>,
    s: Step,
    m: Memory<C>,
    x: Rows,
    layer: usize,
    factors: bool,
    turning: usize,
    base: usize,
    t: int,
    per: usize,
)
    requires
        s == (Step::Rotate {
            rows: x,
            turning,
            per_token: per,
            base_pos: base,
            layer,
            factors,
        }),
        x.first == 0,
        x.stride == x.width,
        x.n == t * per,
    ensures
        forall|i: int|
            0 <= i < t ==> #[trigger] part(effect(ar, ids, s, m), x.buf, i, per * x.width) == each(
                ar,
                Op::Turn { layer, factors, turning, pos: base + i },
                part(m, x.buf, i, per * x.width),
                per as int,
                x.width as int,
                x.width as int,
            ),
        forall|b: Scratch, i: int, w: int|
            b != x.buf ==> #[trigger] part(effect(ar, ids, s, m), b, i, w) == part(m, b, i, w),
        effect(ar, ids, s, m).kept == m.kept,
{
    lemma_step(ar, ids, s, m, x, t, per as int);
    let e = effect(ar, ids, s, m);
    let w = x.width as int;
    let n = per as int;
    assert forall|i: int| 0 <= i < t implies #[trigger] part(e, x.buf, i, n * w) == each(
        ar,
        Op::Turn { layer, factors, turning, pos: base + i },
        part(m, x.buf, i, n * w),
        n,
        w,
        w,
    ) by {
        let op = Op::Turn { layer, factors, turning, pos: base + i };
        let want = each(ar, op, part(m, x.buf, i, n * w), n, w, w);
        assert forall|j: int| 0 <= j < n * w implies #[trigger] part(e, x.buf, i, n * w)[j]
            == want[j] by {
            lemma_index(i, t, n, w, j);
            lemma_row(m, x, i, n, j / w);
            vstd::arithmetic::div_mod::lemma_fundamental_div_mod_converse(
                i * n + j / w,
                n,
                i,
                j / w,
            );
            assert(taken(s, i * n + j / w) == Some((x, op)));
        }
        assert(part(e, x.buf, i, n * w) =~= want);
    }
}

/// A step that takes two rows at a time takes token by token.
pub(crate) proof fn lemma_two<C>(
    ar: Arithmetic<C>,
    ids: Seq<u32>,
    s: Step,
    m: Memory<C>,
    x: Rows,
    y: Rows,
    p: Pair,
    t: int,
)
    requires
        paired(s) == Some((x, y, p)),
        x.first == 0 && y.first == 0,
        x.stride == x.width && y.stride == y.width && x.width == y.width,
        x.n == t,
    ensures
        forall|i: int|
            0 <= i < t ==> #[trigger] part(effect(ar, ids, s, m), x.buf, i, x.width as int) == both(
                ar,
                p,
                part(m, x.buf, i, x.width as int),
                part(m, y.buf, i, x.width as int),
                x.width as int,
            ),
        forall|b: Scratch, i: int, w: int|
            b != x.buf ==> #[trigger] part(effect(ar, ids, s, m), b, i, w) == part(m, b, i, w),
        effect(ar, ids, s, m).kept == m.kept,
{
    lemma_step(ar, ids, s, m, x, t, 1);
    let e = effect(ar, ids, s, m);
    let w = x.width as int;
    assert(1 * w == w);
    assert forall|i: int| 0 <= i < t implies #[trigger] part(e, x.buf, i, w) == both(
        ar,
        p,
        part(m, x.buf, i, w),
        part(m, y.buf, i, w),
        w,
    ) by {
        assert(row(m, x, i) =~= part(m, x.buf, i, w));
        assert(row(m, y, i) =~= part(m, y.buf, i, w));
        let want = both(ar, p, part(m, x.buf, i, w), part(m, y.buf, i, w), w);
        assert forall|j: int| 0 <= j < w implies #[trigger] part(e, x.buf, i, w)[j]
            == want[j] by {
            lemma_index(i, t, 1, w, j);
            assert(j / w == 0 && j % w == j) by {
                vstd::arithmetic::div_mod::lemma_basic_div(j, w);
                vstd::arithmetic::div_mod::lemma_small_mod(j as nat, w as nat);
            }
            assert(part(e, x.buf, i, 1 * w)[j] == result(ar, ids, s, m, i * 1 + j / w)[j % w]);
        }
        assert(part(e, x.buf, i, w) =~= want);
    }
}

/// A lane of the rows of all tokens is a lane of its token.
pub(crate) proof fn lemma_lane<C>(m: Memory<C>, r: Rows, i: int, per: int, h: int)
    requires
        r.first + r.width <= r.stride,
        0 <= i,
        0 <= h < per,
    ensures
        row(m, r, i * per + h) == lane(
            part(m, r.buf, i, per * r.stride),
            h,
            r.stride as int,
            r.first as int,
            r.width as int,
        ),
{
    let (st, off, w) = (r.stride as int, r.first as int, r.width as int);
    let of_all = row(m, r, i * per + h);
    let of_token = lane(part(m, r.buf, i, per * st), h, st, off, w);
    assert forall|c: int| 0 <= c < w implies #[trigger] of_all[c] == of_token[c] by {
        assert(0 <= h * st + off + c < per * st && off + (i * per + h) * st + c == i * (per * st)
            + (h * st + off + c)) by (nonlinear_arith)
            requires
                0 <= h < per,
                0 <= c < w,
                0 <= off,
                off + w <= st,
        ;
    }
    assert(of_all =~= of_token);
}

/// A step that takes the first numbers of every row takes token by token, and leaves
/// the others.
pub(crate) proof fn lemma_within<C>(
    ar: Arithmetic<C>,
    ids: Seq<u32>,
    s: Step,
    m: Memory<C>,
    x: Rows,
    op: spec_fn(int) -> Op,
    t: int,
    per: int,
)
    requires
        written(s) == Some(x),
        s is Norm || s is Rotate,
        forall|r: int| 0 <= r < t * per ==> #[trigger] taken(s, r) == Some((x, op(r / per))),
        x.first == 0,
        x.width <= x.stride,
        x.n == t * per,
        0 <= per,
    ensures
        forall|i: int|
            0 <= i < t ==> #[trigger] part(effect(ar, ids, s, m), x.buf, i, per * x.stride)
                == each_within(
                ar,
                op(i),
                part(m, x.buf, i, per * x.stride),
                per,
                x.stride as int,
                x.width as int,
            ),
        forall|b: Scratch, i: int, w: int|
            b != x.buf ==> #[trigger] part(effect(ar, ids, s, m), b, i, w) == part(m, b, i, w),
        effect(ar, ids, s, m).kept == m.kept,
{
    let e = effect(ar, ids, s, m);
    let (st, w) = (x.stride as int, x.width as int);
    assert(e.kept =~= m.kept);
    assert forall|b: Scratch, i: int, w: int| b != x.buf implies #[trigger] part(e, b, i, w)
        == part(m, b, i, w) by {
        assert(part(e, b, i, w) =~= part(m, b, i, w));
    }
    assert forall|i: int| 0 <= i < t implies #[trigger] part(e, x.buf, i, per * st) == each_within(
        ar,
        op(i),
        part(m, x.buf, i, per * st),
        per,
        st,
        w,
    ) by {
        let got = part(e, x.buf, i, per * st);
        let want = each_within(ar, op(i), part(m, x.buf, i, per * st), per, st, w);
        assert forall|j: int| 0 <= j < per * st implies #[trigger] got[j] == want[j] by {
            lemma_index(i, t, per, st, j);
            let r = i * per + j / st;
            let at = i * (per * st) + j;
            assert(x.n * x.stride == (t * per) * st);
            assert((e.cells)(x.buf, at) == becomes(ar, ids, s, m, x.buf, at));
            if j % st < w {
                assert(covers(x, x.buf, at));
                lemma_lane(m, x, i, per, j / st);
                vstd::arithmetic::div_mod::lemma_fundamental_div_mod_converse(r, per, i, j / st);
                assert(taken(s, r) == Some((x, op(r / per))));
            } else {
                assert(!covers(x, x.buf, at));
            }
        }
        assert(got =~= want);
    }
}

/// A step that takes rows with lanes of others takes token by token.
pub(crate) proof fn lemma_pairs<C>(
    ar: Arithmetic<C>,
    ids: Seq<u32>,
    s: Step,
    m: Memory<C>,
    x: Rows,
    y: Rows,
    p: Pair,
    t: int,
    per: int,
)
    requires
        paired(s) == Some((x, y, p)),
        x.first == 0,
        x.stride == x.width && x.width == y.width,
        y.first + y.width <= y.stride,
        x.n == t * per,
        0 <= per,
    ensures
        forall|i: int|
            0 <= i < t ==> #[trigger] part(effect(ar, ids, s, m), x.buf, i, per * x.width)
                == each_pair(
                ar,
                p,
                part(m, x.buf, i, per * x.width),
                part(m, y.buf, i, per * y.stride),
                per,
                x.width as int,
                y.stride as int,
                y.first as int,
            ),
        forall|b: Scratch, i: int, w: int|
            b != x.buf ==> #[trigger] part(effect(ar, ids, s, m), b, i, w) == part(m, b, i, w),
        effect(ar, ids, s, m).kept == m.kept,
{
    lemma_step(ar, ids, s, m, x, t, per);
    let e = effect(ar, ids, s, m);
    let (w, st, off) = (x.width as int, y.stride as int, y.first as int);
    assert forall|i: int| 0 <= i < t implies #[trigger] part(e, x.buf, i, per * w) == each_pair(
        ar,
        p,
        part(m, x.buf, i, per * w),
        part(m, y.buf, i, per * st),
        per,
        w,
        st,
        off,
    ) by {
        let (px, py) = (part(m, x.buf, i, per * w), part(m, y.buf, i, per * st));
        let want = each_pair(ar, p, px, py, per, w, st, off);
        assert forall|j: int| 0 <= j < per * w implies #[trigger] part(
            e,
            x.buf,
            i,
            per * w,
        )[j] == want[j] by {
            lemma_index(i, t, per, w, j);
            lemma_row(m, x, i, per, j / w);
            lemma_lane(m, y, i, per, j / w);
        }
        assert(part(e, x.buf, i, per * w) =~= want);
    }
}

/// A mark changes nothing.
pub(crate) proof fn lemma_mark<C>(ar: Arithmetic<C>, ids: Seq<u32>, s: Step, m: Memory<C>)
    requires
        s is Mark,
    ensures
        effect(ar, ids, s, m) == m,
{
    let e = effect(ar, ids, s, m);
    assert(e.cells =~= m.cells);
    assert(e.kept =~= m.kept);
}

/// A step that takes whole tokens takes token by token.
pub(crate) proof fn lemma_flat<C>(
    ar: Arithmetic<C>,
    ids: Seq<u32>,
    s: Step,
    m: Memory<C>,
    x: Rows,
    y: Rows,
    op: Op,
    t: int,
)
    requires
        written(s) == Some(y),
        taken(s, 0) == Some((x, op)),
        s !is Rotate,
        x.first == 0 && y.first == 0,
        x.stride == x.width && y.stride == y.width,
        y.n == t,
    ensures
        forall|i: int|
            0 <= i < t ==> #[trigger] part(effect(ar, ids, s, m), y.buf, i, y.width as int) == each(
                ar,
                op,
                part(m, x.buf, i, x.width as int),
                1,
                x.width as int,
                y.width as int,
            ),
        forall|b: Scratch, i: int, w: int|
            b != y.buf ==> #[trigger] part(effect(ar, ids, s, m), b, i, w) == part(m, b, i, w),
        effect(ar, ids, s, m).kept == m.kept,
{
    lemma_one(ar, ids, s, m, x, y, op, t, 1);
    assert(1 * y.width == y.width as int && 1 * x.width == x.width as int);
    assert forall|i: int| 0 <= i < t implies #[trigger] part(
        effect(ar, ids, s, m),
        y.buf,
        i,
        y.width as int,
    ) == each(ar, op, part(m, x.buf, i, x.width as int), 1, x.width as int, y.width as int) by {
        assert(part(effect(ar, ids, s, m), y.buf, i, 1 * y.width) == each(
            ar,
            op,
            part(m, x.buf, i, 1 * x.width),
            1,
            x.width as int,
            y.width as int,
        ));
    }
}

/// The embedding of a token.
pub open spec fn embedded<C>(ar: Arithmetic<C>, d: int, id: u32) -> Seq<u32> {
    Seq::new(d as nat, |j: int| (ar.embed)(id)[j])
}

/// The embedding gather takes token by token.
pub(crate) proof fn lemma_embed<C>(
    ar: Arithmetic<C>,
    ids: Seq<u32>,
    h: Rows,
    m: Memory<C>,
)
    requires
        h.first == 0,
        h.stride == h.width,
        h.n == ids.len(),
    ensures
        forall|i: int|
            0 <= i < ids.len() ==> #[trigger] part(
                effect(ar, ids, Step::Embed(h), m),
                h.buf,
                i,
                h.width as int,
            ) == embedded(ar, h.width as int, ids[i]),
        effect(ar, ids, Step::Embed(h), m).kept == m.kept,
{
    let (t, d) = (ids.len() as int, h.width as int);
    let s = Step::Embed(h);
    let e = effect(ar, ids, s, m);
    lemma_step(ar, ids, s, m, h, t, 1);
    assert(1 * d == d);
    assert forall|i: int| 0 <= i < t implies #[trigger] part(e, h.buf, i, d) == embedded(
        ar,
        d,
        ids[i],
    ) by {
        let got = part(e, h.buf, i, d);
        let want = embedded(ar, d, ids[i]);
        assert forall|j: int| 0 <= j < d implies #[trigger] got[j] == want[j] by {
            lemma_index(i, t, 1, d, j);
            vstd::arithmetic::div_mod::lemma_basic_div(j, d);
            vstd::arithmetic::div_mod::lemma_small_mod(j as nat, d as nat);
            assert(part(e, h.buf, i, 1 * d)[j] == result(ar, ids, s, m, i * 1 + j / d)[j % d]);
        }
        assert(got =~= want);
    }
}

/// A projection of one token's row becomes the logits.
pub(crate) proof fn lemma_last<C>(
    ar: Arithmetic<C>,
    ids: Seq<u32>,
    matrix: Matrix,
    i: int,
    d: int,
    v: int,
    m: Memory<C>,
)
    requires
        0 <= i * d <= usize::MAX,
        0 <= d <= usize::MAX,
        0 <= v <= usize::MAX,
    ensures
        ({
            let x = rows_of(Scratch::H, i, 1, d);
            let y = rows(Scratch::Logits, 1, v);
            let e = effect(ar, ids, Step::Project { matrix, x, y }, m);
            &&& part(e, Scratch::Logits, 0, v) == each(
                ar,
                Op::Project(matrix),
                part(m, Scratch::H, i, d),
                1,
                d,
                v,
            )
            &&& e.kept == m.kept
        }),
{
    let last = rows_of(Scratch::H, i, 1, d);
    let y = rows(Scratch::Logits, 1, v);
    let s = Step::Project { matrix, x: last, y };
    let e = effect(ar, ids, s, m);
    lemma_step(ar, ids, s, m, y, 1, 1);
    assert(1 * d == d && 1 * v == v);
    let x = part(m, Scratch::H, i, d);
    assert(row(m, last, 0) =~= x);
    assert(head(x, 0, d) =~= x);
    let raw = each(ar, Op::Project(matrix), x, 1, d, v);
    let got = part(e, Scratch::Logits, 0, v);
    assert forall|j: int| 0 <= j < v implies #[trigger] got[j] == raw[j] by {
        lemma_index(0, 1, 1, v, j);
        vstd::arithmetic::div_mod::lemma_basic_div(j, v);
        assert(part(e, Scratch::Logits, 0, 1 * v)[j] == result(ar, ids, s, m, 0 * 1 + j / v)[j
            % v]);
    }
    assert(got =~= raw);
}

/// The rows of the tokens at some point of a pass.
pub open spec fn stream<C>(m: Memory<C>, d: int, t: int) -> Seq<Seq<u32>> {
    Seq::new(t as nat, |i: int| part(m, Scratch::H, i, d))
}

/// A copy of a token's row, normed.
pub open spec fn normed<C>(ar: Arithmetic<C>, d: int, gain: Gain, h: Seq<u32>) -> Seq<u32> {
    each(ar, Op::Norm(Some(gain)), each(ar, Op::Same, h, 1, d, d), 1, d, d)
}

/// Where the numbers of a token start.
pub(crate) proof fn lemma_start(i: int, t: int, max: int, w: int, room: int)
    requires
        0 <= i < t <= max,
        0 <= w,
        max * w <= room,
    ensures
        0 <= i * w <= room,
        i * w + w <= room,
{
    assert(0 <= i * w && i * w + w <= max * w) by (nonlinear_arith)
        requires
            0 <= i,
            i + 1 <= max,
            0 <= w,
    ;
}

// ---------------------------------------------------------------------------
// Layer by layer
// ---------------------------------------------------------------------------
/// A model as what its layers do to one token: what layer `il` keeps once the token at
/// a position has come, and what it makes of the token when it keeps that.
#[verifier::reject_recursive_types(C)]
pub struct Net<C> {
    pub next: spec_fn(int, int, Seq<u32>, C) -> C,
    pub out: spec_fn(int, int, Seq<u32>, C) -> Seq<u32>,
}

/// What a layer keeps once the first `n` of some tokens have come, the first of them at
/// position `base`.
pub open spec fn cached<C>(
    net: Net<C>,
    il: int,
    base: int,
    hs: Seq<Seq<u32>>,
    n: int,
    c: C,
) -> C
    decreases n,
{
    if n <= 0 {
        c
    } else {
        (net.next)(il, base + (n - 1), hs[n - 1], cached(net, il, base, hs, n - 1, c))
    }
}

/// What a layer makes of some tokens.
pub open spec fn layered<C>(
    net: Net<C>,
    il: int,
    base: int,
    hs: Seq<Seq<u32>>,
    c: C,
) -> Seq<Seq<u32>> {
    Seq::new(
        hs.len(),
        |i: int| (net.out)(il, base + i, hs[i], cached(net, il, base, hs, i + 1, c)),
    )
}

/// What the first `n` layers make of them.
pub open spec fn through<C>(
    net: Net<C>,
    n: int,
    base: int,
    hs: Seq<Seq<u32>>,
    kept: spec_fn(usize) -> C,
) -> Seq<Seq<u32>>
    decreases n,
{
    if n <= 0 {
        hs
    } else {
        layered(net, n - 1, base, through(net, n - 1, base, hs, kept), kept((n - 1) as usize))
    }
}

/// What layer `l` keeps when they have come.
pub open spec fn left<C>(
    net: Net<C>,
    l: int,
    base: int,
    hs: Seq<Seq<u32>>,
    kept: spec_fn(usize) -> C,
) -> C {
    cached(net, l, base, through(net, l, base, hs, kept), hs.len() as int, kept(l as usize))
}

/// The first `n` layers keep what the tokens leave, the others what they kept.
pub open spec fn leaves<C>(
    net: Net<C>,
    n: int,
    base: int,
    hs: Seq<Seq<u32>>,
    kept: spec_fn(usize) -> C,
    after: spec_fn(usize) -> C,
) -> bool {
    forall|l: usize|
        #[trigger] after(l) == if l < n {
            left(net, l as int, base, hs, kept)
        } else {
            kept(l)
        }
}

proof fn lemma_cached_front<C>(
    net: Net<C>,
    il: int,
    base: int,
    a: Seq<Seq<u32>>,
    b: Seq<Seq<u32>>,
    n: int,
    c: C,
)
    requires
        n <= a.len(),
    ensures
        cached(net, il, base, a + b, n, c) == cached(net, il, base, a, n, c),
    decreases n,
{
    if n > 0 {
        lemma_cached_front(net, il, base, a, b, n - 1, c);
        assert((a + b)[n - 1] == a[n - 1]);
    }
}

proof fn lemma_cached_back<C>(
    net: Net<C>,
    il: int,
    base: int,
    a: Seq<Seq<u32>>,
    b: Seq<Seq<u32>>,
    n: int,
    c: C,
)
    requires
        0 <= n <= b.len(),
    ensures
        cached(net, il, base, a + b, a.len() + n, c) == cached(
            net,
            il,
            base + a.len(),
            b,
            n,
            cached(net, il, base, a, a.len() as int, c),
        ),
    decreases n,
{
    if n == 0 {
        lemma_cached_front(net, il, base, a, b, a.len() as int, c);
    } else {
        lemma_cached_back(net, il, base, a, b, n - 1, c);
        assert((a + b)[a.len() + n - 1] == b[n - 1]);
        assert(base + (a.len() + n - 1) == base + a.len() + (n - 1));
    }
}

proof fn lemma_layered<C>(
    net: Net<C>,
    il: int,
    base: int,
    a: Seq<Seq<u32>>,
    b: Seq<Seq<u32>>,
    c: C,
)
    ensures
        layered(net, il, base, a + b, c) == layered(net, il, base, a, c) + layered(
            net,
            il,
            base + a.len(),
            b,
            cached(net, il, base, a, a.len() as int, c),
        ),
{
    let mid = cached(net, il, base, a, a.len() as int, c);
    let whole = layered(net, il, base, a + b, c);
    let parts = layered(net, il, base, a, c) + layered(net, il, base + a.len(), b, mid);
    assert forall|i: int| 0 <= i < a.len() + b.len() implies #[trigger] whole[i] == parts[i] by {
        if i < a.len() {
            lemma_cached_front(net, il, base, a, b, i + 1, c);
            assert((a + b)[i] == a[i]);
        } else {
            let k = i - a.len();
            lemma_cached_back(net, il, base, a, b, k + 1, c);
            assert(a.len() + (k + 1) == i + 1);
            assert((a + b)[i] == b[k]);
            assert(base + i == base + a.len() + k);
        }
    }
    assert(whole =~= parts);
}

pub(crate) proof fn lemma_through_len<C>(
    net: Net<C>,
    n: int,
    base: int,
    hs: Seq<Seq<u32>>,
    kept: spec_fn(usize) -> C,
)
    ensures
        through(net, n, base, hs, kept).len() == hs.len(),
    decreases n,
{
    if n > 0 {
        lemma_through_len(net, n - 1, base, hs, kept);
    }
}

proof fn lemma_through<C>(
    net: Net<C>,
    n: int,
    base: int,
    a: Seq<Seq<u32>>,
    b: Seq<Seq<u32>>,
    kept: spec_fn(usize) -> C,
    between: spec_fn(usize) -> C,
)
    requires
        n <= usize::MAX,
        forall|l: usize| l < n ==> #[trigger] between(l) == left(net, l as int, base, a, kept),
    ensures
        through(net, n, base, a + b, kept) == through(net, n, base, a, kept) + through(
            net,
            n,
            base + a.len(),
            b,
            between,
        ),
    decreases n,
{
    if n > 0 {
        lemma_through(net, n - 1, base, a, b, kept, between);
        lemma_through_len(net, n - 1, base, a, kept);
        let ha = through(net, n - 1, base, a, kept);
        let hb = through(net, n - 1, base + a.len(), b, between);
        lemma_layered(net, n - 1, base, ha, hb, kept((n - 1) as usize));
        assert(between((n - 1) as usize) == left(net, n - 1, base, a, kept));
    }
}

/// Tokens that come in two batches leave a model as they leave it in one, and the last
/// of them comes out the same.
pub(crate) proof fn lemma_batches<C>(
    net: Net<C>,
    n: int,
    base: int,
    a: Seq<Seq<u32>>,
    b: Seq<Seq<u32>>,
    kept: spec_fn(usize) -> C,
    first: spec_fn(usize) -> C,
    then: spec_fn(usize) -> C,
    whole: spec_fn(usize) -> C,
)
    requires
        0 <= n <= usize::MAX,
        0 < b.len(),
        leaves(net, n, base, a, kept, first),
        leaves(net, n, base + a.len(), b, first, then),
        leaves(net, n, base, a + b, kept, whole),
    ensures
        whole == then,
        through(net, n, base, a + b, kept)[a.len() + b.len() - 1] == through(
            net,
            n,
            base + a.len(),
            b,
            first,
        )[b.len() - 1],
{
    lemma_through(net, n, base, a, b, kept, first);
    lemma_through_len(net, n, base, a, kept);
    lemma_through_len(net, n, base + a.len(), b, first);
    assert forall|l: usize| #[trigger] whole(l) == then(l) by {
        if l < n {
            let il = l as int;
            lemma_through(net, il, base, a, b, kept, first);
            lemma_through_len(net, il, base, a, kept);
            lemma_through_len(net, il, base + a.len(), b, first);
            lemma_cached_back(
                net,
                il,
                base,
                through(net, il, base, a, kept),
                through(net, il, base + a.len(), b, first),
                b.len() as int,
                kept(l),
            );
        }
    }
    assert(whole =~= then);
}

} // verus!
