//! The vision tower on the CPU, as a program.
//!
//! As with the text stack, what is written down is which rows of which buffer a step
//! reads and writes and which tensor it applies; the arithmetic is the caller's. The
//! block is the text stack's with the sequence axis swapped for patches:
//!
//! ```text
//! x  = conv16x16(image) + pos_x[col] + pos_y[row]
//! h  = rms(x) * ln1
//! q  = rope2d(rms_head(Wq h) * q_norm)     // low half by column, high by row
//! k  = rope2d(rms_head(Wk h) * k_norm)
//! v  =        rms_head(Wv h)               // no weight, no rotation
//! x  = x + rms(Wo attn(q,k,v)) * attn_post_norm
//! y  = rms(x) * ln2
//! x  = x + rms(Wd (gelu(Wg y) * Wu y)) * ffn_post_norm
//! ```
//!
//! Attention is bidirectional: patches are not a causal sequence.

use crate::cpu::{all_rows, fits, rows, within, Rows, Scratch};
use crate::gpu::vision::vblk;
use crate::text;
use crate::vision::Config;
use vstd::arithmetic::div_mod::{lemma_fundamental_div_mod, lemma_fundamental_div_mod_converse};
use vstd::prelude::*;

verus! {

// ---------------------------------------------------------------------------
// Steps
// ---------------------------------------------------------------------------
/// A gain of the tower.
#[derive(Debug, Clone, Copy, PartialEq, Eq, Structural)]
pub enum TowerGain {
    Ln1(usize),
    QueryNorm(usize),
    KeyNorm(usize),
    AttnPostNorm(usize),
    Ln2(usize),
    FfnPostNorm(usize),
}

/// A matrix of the tower.
#[derive(Debug, Clone, Copy, PartialEq, Eq, Structural)]
pub enum TowerMatrix {
    Query(usize),
    Key(usize),
    Value(usize),
    AttnOut(usize),
    FfnGate(usize),
    FfnUp(usize),
    FfnDown(usize),
    InputProjection,
}

impl TowerGain {
    /// The tensor that holds it.
    pub open spec fn tensor(self) -> Seq<char> {
        match self {
            TowerGain::Ln1(i) => vblk(i as int, ".ln1.weight"@),
            TowerGain::QueryNorm(i) => vblk(i as int, ".attn_q_norm.weight"@),
            TowerGain::KeyNorm(i) => vblk(i as int, ".attn_k_norm.weight"@),
            TowerGain::AttnPostNorm(i) => vblk(i as int, ".attn_post_norm.weight"@),
            TowerGain::Ln2(i) => vblk(i as int, ".ln2.weight"@),
            TowerGain::FfnPostNorm(i) => vblk(i as int, ".ffn_post_norm.weight"@),
        }
    }

    pub fn name(self) -> (r: String)
        ensures
            r@ == self.tensor(),
    {
        match self {
            TowerGain::Ln1(i) => text::numbered_string("v.blk.", i, ".ln1.weight"),
            TowerGain::QueryNorm(i) => text::numbered_string("v.blk.", i, ".attn_q_norm.weight"),
            TowerGain::KeyNorm(i) => text::numbered_string("v.blk.", i, ".attn_k_norm.weight"),
            TowerGain::AttnPostNorm(i) => text::numbered_string(
                "v.blk.",
                i,
                ".attn_post_norm.weight",
            ),
            TowerGain::Ln2(i) => text::numbered_string("v.blk.", i, ".ln2.weight"),
            TowerGain::FfnPostNorm(i) => text::numbered_string(
                "v.blk.",
                i,
                ".ffn_post_norm.weight",
            ),
        }
    }
}

impl TowerMatrix {
    /// The tensor that holds it.
    pub open spec fn tensor(self) -> Seq<char> {
        match self {
            TowerMatrix::Query(i) => vblk(i as int, ".attn_q.weight"@),
            TowerMatrix::Key(i) => vblk(i as int, ".attn_k.weight"@),
            TowerMatrix::Value(i) => vblk(i as int, ".attn_v.weight"@),
            TowerMatrix::AttnOut(i) => vblk(i as int, ".attn_out.weight"@),
            TowerMatrix::FfnGate(i) => vblk(i as int, ".ffn_gate.weight"@),
            TowerMatrix::FfnUp(i) => vblk(i as int, ".ffn_up.weight"@),
            TowerMatrix::FfnDown(i) => vblk(i as int, ".ffn_down.weight"@),
            TowerMatrix::InputProjection => "mm.input_projection.weight"@,
        }
    }

    pub fn name(self) -> (r: String)
        ensures
            r@ == self.tensor(),
    {
        match self {
            TowerMatrix::Query(i) => text::numbered_string("v.blk.", i, ".attn_q.weight"),
            TowerMatrix::Key(i) => text::numbered_string("v.blk.", i, ".attn_k.weight"),
            TowerMatrix::Value(i) => text::numbered_string("v.blk.", i, ".attn_v.weight"),
            TowerMatrix::AttnOut(i) => text::numbered_string("v.blk.", i, ".attn_out.weight"),
            TowerMatrix::FfnGate(i) => text::numbered_string("v.blk.", i, ".ffn_gate.weight"),
            TowerMatrix::FfnUp(i) => text::numbered_string("v.blk.", i, ".ffn_up.weight"),
            TowerMatrix::FfnDown(i) => text::numbered_string("v.blk.", i, ".ffn_down.weight"),
            TowerMatrix::InputProjection => "mm.input_projection.weight".to_string(),
        }
    }
}

/// One step of the tower.
#[derive(Debug, Clone, Copy, PartialEq, Eq, Structural)]
pub enum TowerStep {
    /// Convolve the image: one row per patch, in reading order.
    PatchEmbed(Rows),
    /// Add the learned vectors of each patch's column and row.
    AddPosition { rows: Rows, nx: usize },
    Copy { from: Rows, to: Rows },
    /// Normalize each row, and scale it by the gain where there is one.
    Norm { rows: Rows, gain: Option<TowerGain> },
    /// `y = W x`, the input and the result held to the matrix's calibration ranges.
    Linear { matrix: TowerMatrix, x: Rows, y: Rows },
    /// Rotate the low half of each row by its patch's column and the high half by its
    /// row; `per_patch` rows belong to a patch.
    Rotate { rows: Rows, per_patch: usize, nx: usize },
    /// Softmax attention of every head over all the rows of `k` and `v`, unscaled.
    Attend { q: Rows, k: Rows, v: Rows, out: Rows, heads: usize },
    Add { to: Rows, from: Rows },
    /// `gate = gelu(gate) * up`.
    Geglu { gate: Rows, up: Rows },
    /// Average the patches of each block of `merge` by `merge`.
    Pool { from: Rows, to: Rows, nx: usize, merge: usize },
    /// Scale by the root of the width.
    ScaleByWidth(Rows),
}

/// A step stays within buffers of these sizes.
pub open spec fn in_range(s: TowerStep, size: spec_fn(Scratch) -> int) -> bool {
    match s {
        TowerStep::PatchEmbed(r) => fits(r, size),
        TowerStep::AddPosition { rows, nx: _ } => fits(rows, size),
        TowerStep::Copy { from, to } => fits(from, size) && fits(to, size),
        TowerStep::Norm { rows, gain: _ } => fits(rows, size),
        TowerStep::Linear { matrix: _, x, y } => fits(x, size) && fits(y, size),
        TowerStep::Rotate { rows, .. } => fits(rows, size),
        TowerStep::Attend { q, k, v, out, heads: _ } => fits(q, size) && fits(k, size) && fits(
            v,
            size,
        ) && fits(out, size),
        TowerStep::Add { to, from } => fits(to, size) && fits(from, size),
        TowerStep::Geglu { gate, up } => fits(gate, size) && fits(up, size),
        TowerStep::Pool { from, to, .. } => fits(from, size) && fits(to, size),
        TowerStep::ScaleByWidth(r) => fits(r, size),
    }
}

// ---------------------------------------------------------------------------
// The program
// ---------------------------------------------------------------------------
/// What follows from an image's size: the patch grid and the grid of pooled tokens.
#[derive(Debug, Clone, Copy, PartialEq, Eq, Structural)]
pub struct PatchGrid {
    pub nx: usize,
    pub ny: usize,
    /// Pooled tokens on each side.
    pub ox: usize,
    pub oy: usize,
}

/// Why an image cannot be encoded.
#[derive(Debug, Clone, Copy, PartialEq, Eq, Structural)]
pub enum EncodeError {
    /// The image is smaller than one patch.
    TooSmall,
    /// A side of the patch grid is no multiple of the pooling kernel.
    NotPoolable { nx: usize, ny: usize },
    /// The patch grid exceeds the position table.
    PastPositions { nx: usize, ny: usize },
}

/// The grid of an image of `w` by `h` pixels, or why there is none.
pub open spec fn grid_of(cfg: Config, w: int, h: int) -> Result<PatchGrid, EncodeError> {
    let nx = w / cfg.patch_size as int;
    let ny = h / cfg.patch_size as int;
    let m = cfg.n_merge as int;
    if nx == 0 || ny == 0 {
        Err(EncodeError::TooSmall)
    } else if nx % m != 0 || ny % m != 0 {
        Err(EncodeError::NotPoolable { nx: nx as usize, ny: ny as usize })
    } else if nx > cfg.pos_table_len || ny > cfg.pos_table_len {
        Err(EncodeError::PastPositions { nx: nx as usize, ny: ny as usize })
    } else {
        Ok(
            PatchGrid {
                nx: nx as usize,
                ny: ny as usize,
                ox: (nx / m) as usize,
                oy: (ny / m) as usize,
            },
        )
    }
}

/// Pre-attention norm, projections, and norm and rotation per head.
pub open spec fn qkv_steps(cfg: Config, il: int, n: int, nx: int) -> Seq<TowerStep> {
    let i = il as usize;
    let d = cfg.d_model as int;
    let h = rows(Scratch::H, n, d);
    let x = rows(Scratch::X, n, d);
    let qh = rows(Scratch::Q, n * cfg.n_heads, cfg.head_dim as int);
    let kh = rows(Scratch::K, n * cfg.n_heads, cfg.head_dim as int);
    let vh = rows(Scratch::V, n * cfg.n_heads, cfg.head_dim as int);
    seq![
        TowerStep::Copy { from: h, to: x },
        TowerStep::Norm { rows: x, gain: Some(TowerGain::Ln1(i)) },
        TowerStep::Linear { matrix: TowerMatrix::Query(i), x, y: rows(Scratch::Q, n, d) },
        TowerStep::Linear { matrix: TowerMatrix::Key(i), x, y: rows(Scratch::K, n, d) },
        TowerStep::Linear { matrix: TowerMatrix::Value(i), x, y: rows(Scratch::V, n, d) },
        TowerStep::Norm { rows: qh, gain: Some(TowerGain::QueryNorm(i)) },
        TowerStep::Rotate { rows: qh, per_patch: cfg.n_heads, nx: nx as usize },
        TowerStep::Norm { rows: kh, gain: Some(TowerGain::KeyNorm(i)) },
        TowerStep::Rotate { rows: kh, per_patch: cfg.n_heads, nx: nx as usize },
        TowerStep::Norm { rows: vh, gain: None },
    ]
}

/// Attention, output projection, post-norm and residual.
pub open spec fn attn_steps(cfg: Config, il: int, n: int) -> Seq<TowerStep> {
    let i = il as usize;
    let d = cfg.d_model as int;
    let attn = rows(Scratch::Attn, n, d);
    let proj = rows(Scratch::Proj, n, d);
    seq![
        TowerStep::Attend {
            q: rows(Scratch::Q, n, d),
            k: rows(Scratch::K, n, d),
            v: rows(Scratch::V, n, d),
            out: attn,
            heads: cfg.n_heads,
        },
        TowerStep::Linear { matrix: TowerMatrix::AttnOut(i), x: attn, y: proj },
        TowerStep::Norm { rows: proj, gain: Some(TowerGain::AttnPostNorm(i)) },
        TowerStep::Add { to: rows(Scratch::H, n, d), from: proj },
    ]
}

/// Feed-forward and residual.
pub open spec fn ffn_steps(cfg: Config, il: int, n: int) -> Seq<TowerStep> {
    let i = il as usize;
    let d = cfg.d_model as int;
    let h = rows(Scratch::H, n, d);
    let x = rows(Scratch::X, n, d);
    let proj = rows(Scratch::Proj, n, d);
    let gate = rows(Scratch::Gate, n, cfg.ffn_dim as int);
    let up = rows(Scratch::Up, n, cfg.ffn_dim as int);
    seq![
        TowerStep::Copy { from: h, to: x },
        TowerStep::Norm { rows: x, gain: Some(TowerGain::Ln2(i)) },
        TowerStep::Linear { matrix: TowerMatrix::FfnGate(i), x, y: gate },
        TowerStep::Linear { matrix: TowerMatrix::FfnUp(i), x, y: up },
        TowerStep::Geglu { gate, up },
        TowerStep::Linear { matrix: TowerMatrix::FfnDown(i), x: gate, y: proj },
        TowerStep::Norm { rows: proj, gain: Some(TowerGain::FfnPostNorm(i)) },
        TowerStep::Add { to: h, from: proj },
    ]
}

pub open spec fn block_steps(cfg: Config, il: int, n: int, nx: int) -> Seq<TowerStep> {
    qkv_steps(cfg, il, n, nx) + attn_steps(cfg, il, n) + ffn_steps(cfg, il, n)
}

/// The first `k` blocks.
pub open spec fn blocks_steps(cfg: Config, k: int, n: int, nx: int) -> Seq<TowerStep>
    decreases k,
{
    if k <= 0 {
        Seq::empty()
    } else {
        blocks_steps(cfg, k - 1, n, nx) + block_steps(cfg, k - 1, n, nx)
    }
}

/// The patches, each with its position.
pub open spec fn patch_steps(cfg: Config, n: int, nx: int) -> Seq<TowerStep> {
    let h = rows(Scratch::H, n, cfg.d_model as int);
    seq![TowerStep::PatchEmbed(h), TowerStep::AddPosition { rows: h, nx: nx as usize }]
}

/// Pool the patches, normalize and project into the text model's width.
pub open spec fn pool_steps(cfg: Config, n: int, nx: int, n_out: int) -> Seq<TowerStep> {
    let d = cfg.d_model as int;
    let pooled = rows(Scratch::X, n_out, d);
    seq![
        TowerStep::Pool {
            from: rows(Scratch::H, n, d),
            to: pooled,
            nx: nx as usize,
            merge: cfg.n_merge,
        },
        TowerStep::ScaleByWidth(pooled),
        TowerStep::Norm { rows: pooled, gain: None },
        TowerStep::Linear {
            matrix: TowerMatrix::InputProjection,
            x: pooled,
            y: rows(Scratch::Logits, n_out, cfg.proj_dim as int),
        },
    ]
}

/// The whole tower over a grid.
pub open spec fn steps(cfg: Config, g: PatchGrid) -> Seq<TowerStep> {
    let n = g.nx * g.ny;
    let nx = g.nx as int;
    patch_steps(cfg, n, nx) + blocks_steps(cfg, cfg.n_layers as int, n, nx) + pool_steps(
        cfg,
        n,
        nx,
        g.ox * g.oy,
    )
}

/// How large each buffer is for `n` patches and `n_out` pooled tokens. The projected
/// tokens are the output.
pub open spec fn size_of(cfg: Config, n: int, n_out: int, b: Scratch) -> int {
    match b {
        Scratch::H => n * cfg.d_model,
        Scratch::X => n * cfg.d_model,
        Scratch::Q => n * cfg.d_model,
        Scratch::K => n * cfg.d_model,
        Scratch::V => n * cfg.d_model,
        Scratch::Attn => n * cfg.d_model,
        Scratch::Proj => n * cfg.d_model,
        Scratch::Gate => n * cfg.ffn_dim,
        Scratch::Up => n * cfg.ffn_dim,
        Scratch::Logits => n_out * cfg.proj_dim,
        _ => 0,
    }
}

/// The buffers for the patches of an image of `w` by `h` pixels can be counted.
pub open spec fn sizable(cfg: Config, w: int, h: int) -> bool {
    let n = (w / cfg.patch_size as int) * (h / cfg.patch_size as int);
    &&& n <= usize::MAX
    &&& n * cfg.d_model <= usize::MAX
    &&& n * cfg.ffn_dim <= usize::MAX
    &&& n * cfg.proj_dim <= usize::MAX
    &&& n * cfg.n_heads <= usize::MAX
}

fn push(v: &mut Vec<TowerStep>, s: TowerStep)
    ensures
        final(v)@ == old(v)@.push(s),
{
    v.push(s);
}

fn push_block(cfg: &Config, il: usize, n: usize, nx: usize, v: &mut Vec<TowerStep>)
    requires
        n * cfg.n_heads <= usize::MAX,
    ensures
        final(v)@ == old(v)@ + block_steps(*cfg, il as int, n as int, nx as int),
{
    let ghost before = v@;
    let d: usize = cfg.d_model;
    let h = all_rows(Scratch::H, n, d);
    let x = all_rows(Scratch::X, n, d);
    let q = all_rows(Scratch::Q, n, d);
    let k = all_rows(Scratch::K, n, d);
    let val = all_rows(Scratch::V, n, d);
    let qh = all_rows(Scratch::Q, n * cfg.n_heads, cfg.head_dim);
    let kh = all_rows(Scratch::K, n * cfg.n_heads, cfg.head_dim);
    let vh = all_rows(Scratch::V, n * cfg.n_heads, cfg.head_dim);
    push(v, TowerStep::Copy { from: h, to: x });
    push(v, TowerStep::Norm { rows: x, gain: Some(TowerGain::Ln1(il)) });
    push(v, TowerStep::Linear { matrix: TowerMatrix::Query(il), x, y: q });
    push(v, TowerStep::Linear { matrix: TowerMatrix::Key(il), x, y: k });
    push(v, TowerStep::Linear { matrix: TowerMatrix::Value(il), x, y: val });
    push(v, TowerStep::Norm { rows: qh, gain: Some(TowerGain::QueryNorm(il)) });
    push(v, TowerStep::Rotate { rows: qh, per_patch: cfg.n_heads, nx });
    push(v, TowerStep::Norm { rows: kh, gain: Some(TowerGain::KeyNorm(il)) });
    push(v, TowerStep::Rotate { rows: kh, per_patch: cfg.n_heads, nx });
    push(v, TowerStep::Norm { rows: vh, gain: None });
    assert(v@ =~= before + qkv_steps(*cfg, il as int, n as int, nx as int));
    let ghost before_attn = v@;
    let attn = all_rows(Scratch::Attn, n, d);
    let proj = all_rows(Scratch::Proj, n, d);
    push(v, TowerStep::Attend { q, k, v: val, out: attn, heads: cfg.n_heads });
    push(v, TowerStep::Linear { matrix: TowerMatrix::AttnOut(il), x: attn, y: proj });
    push(v, TowerStep::Norm { rows: proj, gain: Some(TowerGain::AttnPostNorm(il)) });
    push(v, TowerStep::Add { to: h, from: proj });
    assert(v@ =~= before_attn + attn_steps(*cfg, il as int, n as int));
    let ghost before_ffn = v@;
    let gate = all_rows(Scratch::Gate, n, cfg.ffn_dim);
    let up = all_rows(Scratch::Up, n, cfg.ffn_dim);
    push(v, TowerStep::Copy { from: h, to: x });
    push(v, TowerStep::Norm { rows: x, gain: Some(TowerGain::Ln2(il)) });
    push(v, TowerStep::Linear { matrix: TowerMatrix::FfnGate(il), x, y: gate });
    push(v, TowerStep::Linear { matrix: TowerMatrix::FfnUp(il), x, y: up });
    push(v, TowerStep::Geglu { gate, up });
    push(v, TowerStep::Linear { matrix: TowerMatrix::FfnDown(il), x: gate, y: proj });
    push(v, TowerStep::Norm { rows: proj, gain: Some(TowerGain::FfnPostNorm(il)) });
    push(v, TowerStep::Add { to: h, from: proj });
    assert(v@ =~= before_ffn + ffn_steps(*cfg, il as int, n as int));
    assert(v@ =~= before + block_steps(*cfg, il as int, n as int, nx as int));
}

/// The tower.
pub struct Vision<'a> {
    pub cfg: &'a Config,
}

/// Whether an image of `w` by `h` pixels can be encoded as far as sizes go.
pub fn can_encode(cfg: &Config, w: usize, h: usize) -> (r: bool)
    requires
        cfg.patch_size > 0,
    ensures
        r == sizable(*cfg, w as int, h as int),
{
    let nx: usize = w / cfg.patch_size;
    let ny: usize = h / cfg.patch_size;
    match nx.checked_mul(ny) {
        Some(n) => within(n, cfg.d_model) && within(n, cfg.ffn_dim) && within(n, cfg.proj_dim)
            && within(n, cfg.n_heads),
        None => false,
    }
}

/// The patch grid of an image of `w` by `h` pixels.
pub fn patch_grid(cfg: &Config, w: usize, h: usize) -> (r: Result<PatchGrid, EncodeError>)
    requires
        cfg.patch_size > 0,
        cfg.n_merge > 0,
    ensures
        r == grid_of(*cfg, w as int, h as int),
{
    let nx: usize = w / cfg.patch_size;
    let ny: usize = h / cfg.patch_size;
    let m: usize = cfg.n_merge;
    if nx == 0 || ny == 0 {
        Err(EncodeError::TooSmall)
    } else if nx % m != 0 || ny % m != 0 {
        Err(EncodeError::NotPoolable { nx, ny })
    } else if nx > cfg.pos_table_len || ny > cfg.pos_table_len {
        Err(EncodeError::PastPositions { nx, ny })
    } else {
        Ok(PatchGrid { nx, ny, ox: nx / m, oy: ny / m })
    }
}

/// Whether a patch filter of `len` numbers has one for every pixel of a patch and
/// every channel of the stream.
pub fn filter_fits(cfg: &Config, len: usize) -> (r: bool)
    ensures
        r == (len == cfg.patch_size * cfg.patch_size * 3 * cfg.d_model),
{
    let p: usize = cfg.patch_size;
    let d: usize = cfg.d_model;
    proof {
        let area = p * p;
        assert(0 <= area * 3 * d) by (nonlinear_arith)
            requires
                0 <= area,
                0 <= d,
        ;
        assert(area > usize::MAX || area * 3 > usize::MAX ==> d == 0 || area * 3 * d
            > usize::MAX) by (nonlinear_arith)
            requires
                0 <= area,
                0 <= d,
        ;
        assert(d == 0 ==> area * 3 * d == 0) by (nonlinear_arith);
    }
    if d == 0 {
        return len == 0;
    }
    match p.checked_mul(p) {
        Some(area) => match area.checked_mul(3) {
            Some(taps) => match taps.checked_mul(d) {
                Some(all) => len == all,
                None => false,
            },
            None => false,
        },
        None => false,
    }
}

/// There are no more pooled tokens than patches.
proof fn lemma_pooled_count(cfg: Config, w: int, h: int, g: PatchGrid)
    requires
        cfg.wf(),
        cfg.patch_size > 0,
        0 <= w <= usize::MAX,
        0 <= h <= usize::MAX,
        grid_of(cfg, w, h) == Ok::<PatchGrid, EncodeError>(g),
    ensures
        g.nx == w / cfg.patch_size as int,
        g.ny == h / cfg.patch_size as int,
        g.nx == g.ox * cfg.n_merge,
        g.ny == g.oy * cfg.n_merge,
        0 < g.ox <= g.nx,
        0 < g.oy <= g.ny,
        0 < g.ox * g.oy <= g.nx * g.ny,
{
    let p = cfg.patch_size as int;
    let m = cfg.n_merge as int;
    let (nx, ny) = (w / p, h / p);
    assert(0 <= nx <= w && 0 <= ny <= h) by (nonlinear_arith)
        requires
            nx == w / p,
            ny == h / p,
            p > 0,
            w >= 0,
            h >= 0,
    ;
    lemma_fundamental_div_mod(nx, m);
    lemma_fundamental_div_mod(ny, m);
    let (ox, oy) = (nx / m, ny / m);
    assert(0 < ox <= nx && 0 < oy <= ny && 0 < ox * oy <= nx * ny && ox * m == nx && oy * m
        == ny) by (nonlinear_arith)
        requires
            nx == m * ox,
            ny == m * oy,
            m > 0,
            nx > 0,
            ny > 0,
    ;
}

impl<'a> Vision<'a> {
    pub fn new(cfg: &'a Config) -> (r: Vision<'a>)
        ensures
            r.cfg == cfg,
    {
        Vision { cfg }
    }

    /// The program that encodes an image of `w` by `h` pixels.
    pub fn encode(&self, w: usize, h: usize) -> (r: Result<
        (PatchGrid, Vec<TowerStep>),
        EncodeError,
    >)
        requires
            self.cfg.wf(),
            self.cfg.patch_size > 0,
            sizable(*self.cfg, w as int, h as int),
        ensures
            match (r, grid_of(*self.cfg, w as int, h as int)) {
                (Ok(out), Ok(g)) => out.0 == g && out.1@ == steps(*self.cfg, g),
                (Err(e), Err(f)) => e == f,
                _ => false,
            },
    {
        let cfg = self.cfg;
        let g = patch_grid(cfg, w, h)?;
        proof {
            lemma_pooled_count(*cfg, w as int, h as int, g);
        }
        let n: usize = g.nx * g.ny;
        let n_out: usize = g.ox * g.oy;
        let mut v: Vec<TowerStep> = Vec::new();
        let x = all_rows(Scratch::H, n, cfg.d_model);
        push(&mut v, TowerStep::PatchEmbed(x));
        push(&mut v, TowerStep::AddPosition { rows: x, nx: g.nx });
        let ghost front = patch_steps(*cfg, n as int, g.nx as int);
        assert(v@ =~= front + blocks_steps(*cfg, 0, n as int, g.nx as int));
        let mut il: usize = 0;
        while il < cfg.n_layers
            invariant
                il <= cfg.n_layers,
                n * cfg.n_heads <= usize::MAX,
                v@ == front + blocks_steps(*cfg, il as int, n as int, g.nx as int),
            decreases cfg.n_layers - il,
        {
            let ghost before = v@;
            push_block(cfg, il, n, g.nx, &mut v);
            assert(v@ =~= front + (blocks_steps(*cfg, il as int, n as int, g.nx as int)
                + block_steps(*cfg, il as int, n as int, g.nx as int)));
            il = il + 1;
        }
        let ghost before = v@;
        let pooled = all_rows(Scratch::X, n_out, cfg.d_model);
        push(&mut v, TowerStep::Pool { from: x, to: pooled, nx: g.nx, merge: cfg.n_merge });
        push(&mut v, TowerStep::ScaleByWidth(pooled));
        push(&mut v, TowerStep::Norm { rows: pooled, gain: None });
        push(
            &mut v,
            TowerStep::Linear {
                matrix: TowerMatrix::InputProjection,
                x: pooled,
                y: all_rows(Scratch::Logits, n_out, cfg.proj_dim),
            },
        );
        assert(v@ =~= before + pool_steps(*cfg, n as int, g.nx as int, n_out as int));
        assert(v@ =~= steps(*cfg, g));
        Ok((g, v))
    }
}

/// How large a buffer is for a grid.
pub fn buffer_size(cfg: &Config, g: PatchGrid, b: Scratch) -> (r: usize)
    requires
        g.nx * g.ny <= usize::MAX,
        g.ox * g.oy <= usize::MAX,
        (g.nx * g.ny) * cfg.d_model <= usize::MAX,
        (g.nx * g.ny) * cfg.ffn_dim <= usize::MAX,
        (g.ox * g.oy) * cfg.proj_dim <= usize::MAX,
    ensures
        r == size_of(*cfg, g.nx * g.ny, g.ox * g.oy, b),
{
    let n: usize = g.nx * g.ny;
    match b {
        Scratch::H | Scratch::X | Scratch::Q | Scratch::K | Scratch::V | Scratch::Attn
        | Scratch::Proj => n * cfg.d_model,
        Scratch::Gate | Scratch::Up => n * cfg.ffn_dim,
        Scratch::Logits => (g.ox * g.oy) * cfg.proj_dim,
        Scratch::Z | Scratch::Alpha | Scratch::Beta => 0,
    }
}

// ---------------------------------------------------------------------------
// Where patches stand
// ---------------------------------------------------------------------------
/// The column and the row by which the `i`-th row of a rotation turns.
pub open spec fn place(i: int, per_patch: int, nx: int) -> (int, int) {
    ((i / per_patch) % nx, (i / per_patch) / nx)
}

pub fn place_of(i: usize, per_patch: usize, nx: usize) -> (r: (usize, usize))
    requires
        per_patch > 0,
        nx > 0,
    ensures
        r.0 == place(i as int, per_patch as int, nx as int).0,
        r.1 == place(i as int, per_patch as int, nx as int).1,
{
    let patch: usize = i / per_patch;
    (patch % nx, patch / nx)
}

/// The `j`-th patch of the block that pooled token `o` averages.
pub open spec fn pooled_patch(o: int, j: int, nx: int, m: int) -> int {
    let ox = nx / m;
    ((o / ox) * m + j / m) * nx + (o % ox) * m + j % m
}

/// The patches that pooled token `o` averages, in reading order.
pub fn pooled_patches(o: usize, nx: usize, ny: usize, m: usize) -> (r: Vec<usize>)
    requires
        m > 0,
        nx as int % m as int == 0,
        ny as int % m as int == 0,
        nx * ny <= usize::MAX,
        o < (nx as int / m as int) * (ny as int / m as int),
    ensures
        r@.len() == m * m,
        forall|j: int|
            0 <= j < m * m ==> (#[trigger] r@[j]) == pooled_patch(
                o as int,
                j,
                nx as int,
                m as int,
            ) && r@[j] < nx * ny,
{
    let ox: usize = nx / m;
    proof {
        assert(0 < m * m) by (nonlinear_arith)
            requires
                m > 0,
        ;
        lemma_block(o as int, 0, nx as int, ny as int, m as int);
        let (x, y, k) = (nx as int, ny as int, m as int);
        lemma_fundamental_div_mod(x, k);
        lemma_fundamental_div_mod(y, k);
        assert(k <= x && k <= y && k * k <= x * y) by (nonlinear_arith)
            requires
                k > 0,
                x == k * (x / k),
                y == k * (y / k),
                0 < (x / k) * (y / k),
                0 <= x / k,
                0 <= y / k,
        ;
    }
    let mut out: Vec<usize> = Vec::new();
    let total: usize = m * m;
    let mut j: usize = 0;
    while j < total
        invariant
            j <= total,
            total == m * m,
            m > 0,
            nx as int % m as int == 0,
            ny as int % m as int == 0,
            nx * ny <= usize::MAX,
            o < (nx as int / m as int) * (ny as int / m as int),
            0 < ox,
            ox == nx as int / m as int,
            out@.len() == j,
            forall|i: int|
                0 <= i < j ==> (#[trigger] out@[i]) == pooled_patch(
                    o as int,
                    i,
                    nx as int,
                    m as int,
                ) && out@[i] < nx * ny,
        decreases total - j,
    {
        proof {
            lemma_block(o as int, j as int, nx as int, ny as int, m as int);
        }
        let by: usize = (o / ox) * m + j / m;
        let bx: usize = (o % ox) * m + j % m;
        out.push(by * nx + bx);
        j = j + 1;
    }
    out
}

/// A patch of a block lies in the grid, and what is added up to find it stays below
/// its index or the grid's size.
proof fn lemma_block(o: int, j: int, nx: int, ny: int, m: int)
    requires
        m > 0,
        nx % m == 0,
        ny % m == 0,
        0 <= nx,
        0 <= ny,
        0 <= o < (nx / m) * (ny / m),
        0 <= j < m * m,
    ensures
        0 < nx / m,
        0 <= (o / (nx / m)) * m <= (o / (nx / m)) * m + j / m < ny,
        0 <= (o % (nx / m)) * m <= (o % (nx / m)) * m + j % m < nx,
        0 <= ((o / (nx / m)) * m + j / m) * nx <= pooled_patch(o, j, nx, m) < nx * ny,
        pooled_patch(o, j, nx, m) == ((o / (nx / m)) * m + j / m) * nx + ((o % (nx / m)) * m + j
            % m),
{
    let (ox, oy) = (nx / m, ny / m);
    lemma_fundamental_div_mod(nx, m);
    lemma_fundamental_div_mod(ny, m);
    assert(0 <= ox && 0 <= oy) by (nonlinear_arith)
        requires
            ox == nx / m,
            oy == ny / m,
            m > 0,
            nx >= 0,
            ny >= 0,
    ;
    assert(0 < ox) by (nonlinear_arith)
        requires
            0 <= o < ox * oy,
            0 <= ox,
    ;
    let (b, c) = (o / ox, o % ox);
    lemma_fundamental_div_mod(o, ox);
    assert(0 <= b < oy && 0 <= c < ox) by (nonlinear_arith)
        requires
            o == ox * b + c,
            b == o / ox,
            c == o % ox,
            0 < ox,
            0 <= o < ox * oy,
    ;
    let (jy, jx) = (j / m, j % m);
    lemma_fundamental_div_mod(j, m);
    assert(0 <= jy < m && 0 <= jx < m) by (nonlinear_arith)
        requires
            j == m * jy + jx,
            jy == j / m,
            jx == j % m,
            0 < m,
            0 <= j < m * m,
    ;
    assert(0 <= b * m && b * m + jy < ny && 0 <= c * m && c * m + jx < nx) by (nonlinear_arith)
        requires
            0 <= b < oy,
            0 <= c < ox,
            0 <= jy < m,
            0 <= jx < m,
            ny == m * oy,
            nx == m * ox,
            m > 0,
    ;
    let (r, k) = (b * m + jy, c * m + jx);
    assert(0 <= r * nx && r * nx + k < nx * ny) by (nonlinear_arith)
        requires
            0 <= r < ny,
            0 <= k < nx,
    ;
}

// ---------------------------------------------------------------------------
// Laws
// ---------------------------------------------------------------------------
/// Two patches of blocks are the same only in the same block and at the same place
/// of it.
proof fn lemma_distinct(o: int, j: int, o2: int, j2: int, nx: int, ny: int, m: int)
    requires
        m > 0,
        nx % m == 0,
        ny % m == 0,
        0 <= nx,
        0 <= ny,
        0 <= o < (nx / m) * (ny / m),
        0 <= j < m * m,
        0 <= o2 < (nx / m) * (ny / m),
        0 <= j2 < m * m,
        pooled_patch(o, j, nx, m) == pooled_patch(o2, j2, nx, m),
    ensures
        o == o2,
        j == j2,
{
    lemma_block(o, j, nx, ny, m);
    lemma_block(o2, j2, nx, ny, m);
    let ox = nx / m;
    let p = pooled_patch(o, j, nx, m);
    let (r, c) = ((o / ox) * m + j / m, (o % ox) * m + j % m);
    let (r2, c2) = ((o2 / ox) * m + j2 / m, (o2 % ox) * m + j2 % m);
    lemma_fundamental_div_mod_converse(p, nx, r, c);
    lemma_fundamental_div_mod_converse(p, nx, r2, c2);
    lemma_fundamental_div_mod(j, m);
    lemma_fundamental_div_mod(j2, m);
    lemma_small(j, m);
    lemma_small(j2, m);
    lemma_fundamental_div_mod_converse(r, m, o / ox, j / m);
    lemma_fundamental_div_mod_converse(r2, m, o2 / ox, j2 / m);
    lemma_fundamental_div_mod_converse(c, m, o % ox, j % m);
    lemma_fundamental_div_mod_converse(c2, m, o2 % ox, j2 % m);
    lemma_fundamental_div_mod(o, ox);
    lemma_fundamental_div_mod(o2, ox);
}

/// The place of a patch in its block has two digits.
proof fn lemma_small(j: int, m: int)
    requires
        0 < m,
        0 <= j < m * m,
    ensures
        0 <= j / m < m,
        0 <= j % m < m,
{
    lemma_fundamental_div_mod(j, m);
    let (a, b) = (j / m, j % m);
    assert(0 <= a < m && 0 <= b < m) by (nonlinear_arith)
        requires
            j == m * a + b,
            a == j / m,
            b == j % m,
            0 < m,
            0 <= j < m * m,
    ;
}

/// The block that a patch is in, and its place there.
pub open spec fn block_of(p: int, nx: int, m: int) -> (int, int) {
    let (r, c) = (p / nx, p % nx);
    ((r / m) * (nx / m) + c / m, (r % m) * m + c % m)
}

/// Pooling takes every patch once: each patch of the grid is at one place of one
/// block, and no other place of any block holds it.
pub proof fn pooling_takes_every_patch_once(nx: int, ny: int, m: int)
    requires
        m > 0,
        nx % m == 0,
        ny % m == 0,
        0 <= nx,
        0 <= ny,
    ensures
        forall|p: int|
            0 <= p < nx * ny ==> {
                let (o, j) = #[trigger] block_of(p, nx, m);
                &&& 0 <= o < (nx / m) * (ny / m)
                &&& 0 <= j < m * m
                &&& pooled_patch(o, j, nx, m) == p
            },
        forall|o: int, j: int, o2: int, j2: int|
            0 <= o < (nx / m) * (ny / m) && 0 <= j < m * m && 0 <= o2 < (nx / m) * (ny / m) && 0
                <= j2 < m * m && #[trigger] pooled_patch(o, j, nx, m)
                == #[trigger] pooled_patch(o2, j2, nx, m) ==> o == o2 && j == j2,
{
    assert forall|p: int| 0 <= p < nx * ny implies ({
        let (o, j) = #[trigger] block_of(p, nx, m);
        &&& 0 <= o < (nx / m) * (ny / m)
        &&& 0 <= j < m * m
        &&& pooled_patch(o, j, nx, m) == p
    }) by {
        lemma_block_of(p, nx, ny, m);
    }
    assert forall|o: int, j: int, o2: int, j2: int|
        0 <= o < (nx / m) * (ny / m) && 0 <= j < m * m && 0 <= o2 < (nx / m) * (ny / m) && 0 <= j2
            < m * m && #[trigger] pooled_patch(o, j, nx, m) == #[trigger] pooled_patch(
            o2,
            j2,
            nx,
            m,
        ) implies o == o2 && j == j2 by {
        lemma_distinct(o, j, o2, j2, nx, ny, m);
    }
}

proof fn lemma_block_of(p: int, nx: int, ny: int, m: int)
    requires
        m > 0,
        nx % m == 0,
        ny % m == 0,
        0 <= nx,
        0 <= ny,
        0 <= p < nx * ny,
    ensures
        ({
            let (o, j) = block_of(p, nx, m);
            &&& 0 <= o < (nx / m) * (ny / m)
            &&& 0 <= j < m * m
            &&& pooled_patch(o, j, nx, m) == p
        }),
{
    let (ox, oy) = (nx / m, ny / m);
    lemma_fundamental_div_mod(nx, m);
    lemma_fundamental_div_mod(ny, m);
    assert(0 < nx) by (nonlinear_arith)
        requires
            0 <= p < nx * ny,
            0 <= nx,
    ;
    let (r, c) = (p / nx, p % nx);
    lemma_fundamental_div_mod(p, nx);
    assert(0 <= r < ny && 0 <= c < nx) by (nonlinear_arith)
        requires
            p == nx * r + c,
            r == p / nx,
            c == p % nx,
            0 < nx,
            0 <= p < nx * ny,
    ;
    let (b, jy) = (r / m, r % m);
    let (a, jx) = (c / m, c % m);
    lemma_fundamental_div_mod(r, m);
    lemma_fundamental_div_mod(c, m);
    assert(0 <= b < oy && 0 <= jy < m && 0 <= a < ox && 0 <= jx < m) by (nonlinear_arith)
        requires
            r == m * b + jy,
            b == r / m,
            jy == r % m,
            c == m * a + jx,
            a == c / m,
            jx == c % m,
            m > 0,
            0 <= r < ny,
            0 <= c < nx,
            ny == m * oy,
            nx == m * ox,
    ;
    let (o, j) = (b * ox + a, jy * m + jx);
    assert(0 <= o < ox * oy && 0 <= j < m * m) by (nonlinear_arith)
        requires
            o == b * ox + a,
            j == jy * m + jx,
            0 <= b < oy,
            0 <= a < ox,
            0 <= jy < m,
            0 <= jx < m,
    ;
    lemma_fundamental_div_mod_converse(o, ox, b, a);
    lemma_fundamental_div_mod_converse(j, m, jy, jx);
    assert(pooled_patch(o, j, nx, m) == (b * m + jy) * nx + a * m + jx);
    assert((b * m + jy) * nx + (a * m + jx) == p) by (nonlinear_arith)
        requires
            p == nx * r + c,
            r == m * b + jy,
            c == m * a + jx,
    ;
}

/// The buffers that a grid's program may use.
pub open spec fn room(cfg: Config, g: PatchGrid) -> spec_fn(Scratch) -> int {
    |b: Scratch| size_of(cfg, g.nx * g.ny, g.ox * g.oy, b)
}

/// What is true of every step: it stays in its buffers, and attention is between all
/// the patches of the image.
pub open spec fn proper(s: TowerStep, cfg: Config, g: PatchGrid) -> bool {
    &&& in_range(s, room(cfg, g))
    &&& s matches TowerStep::Attend { q, k, v, out, .. } ==> {
        &&& q.n == g.nx * g.ny
        &&& k.n == g.nx * g.ny
        &&& v.n == g.nx * g.ny
        &&& out.n == g.nx * g.ny
    }
}

proof fn lemma_rows(b: Scratch, n: int, width: int, size: int)
    requires
        0 <= n <= usize::MAX,
        0 <= width <= usize::MAX,
        n * width <= size,
        0 <= size,
    ensures
        rows(b, n, width).end() <= size,
        rows(b, n, width).n == n,
{
    if n > 0 {
        assert((n - 1) * width + width == n * width) by (nonlinear_arith);
    }
}

proof fn lemma_blocks(cfg: Config, g: PatchGrid, k: int)
    requires
        cfg.wf(),
        0 <= k <= cfg.n_layers,
        g.nx * g.ny <= usize::MAX,
        (g.nx * g.ny) * cfg.n_heads <= usize::MAX,
    ensures
        forall|i: int|
            0 <= i < blocks_steps(cfg, k, g.nx * g.ny, g.nx as int).len() ==> proper(
                #[trigger] blocks_steps(cfg, k, g.nx * g.ny, g.nx as int)[i],
                cfg,
                g,
            ),
    decreases k,
{
    let n = g.nx * g.ny;
    let nx = g.nx as int;
    if k > 0 {
        lemma_blocks(cfg, g, k - 1);
        let d = cfg.d_model as int;
        let (heads, hd) = (cfg.n_heads as int, cfg.head_dim as int);
        assert(0 <= n && 0 <= n * d && 0 <= n * cfg.ffn_dim && 0 <= n * heads && (n * heads) * hd
            == n * d) by (nonlinear_arith)
            requires
                n == g.nx * g.ny,
                d == heads * hd,
                0 <= g.nx,
                0 <= g.ny,
                0 <= heads,
                0 <= d,
                0 <= cfg.ffn_dim,
        ;
        lemma_rows(Scratch::H, n, d, n * d);
        lemma_rows(Scratch::X, n, d, n * d);
        lemma_rows(Scratch::Q, n, d, n * d);
        lemma_rows(Scratch::K, n, d, n * d);
        lemma_rows(Scratch::V, n, d, n * d);
        lemma_rows(Scratch::Attn, n, d, n * d);
        lemma_rows(Scratch::Proj, n, d, n * d);
        lemma_rows(Scratch::Q, n * heads, hd, n * d);
        lemma_rows(Scratch::K, n * heads, hd, n * d);
        lemma_rows(Scratch::V, n * heads, hd, n * d);
        lemma_rows(Scratch::Gate, n, cfg.ffn_dim as int, n * cfg.ffn_dim);
        lemma_rows(Scratch::Up, n, cfg.ffn_dim as int, n * cfg.ffn_dim);
        let one = block_steps(cfg, k - 1, n, nx);
        assert forall|i: int| 0 <= i < one.len() implies proper(#[trigger] one[i], cfg, g) by {
            let (a, b, c) = (
                qkv_steps(cfg, k - 1, n, nx),
                attn_steps(cfg, k - 1, n),
                ffn_steps(cfg, k - 1, n),
            );
            if i < a.len() {
                assert(one[i] == a[i]);
                assert(proper(a[i], cfg, g));
            } else if i < a.len() + b.len() {
                assert(one[i] == b[i - a.len()]);
                assert(proper(b[i - a.len()], cfg, g));
            } else {
                assert(one[i] == c[i - a.len() - b.len()]);
                assert(proper(c[i - a.len() - b.len()], cfg, g));
            }
        }
        let all = blocks_steps(cfg, k, n, nx);
        let before = blocks_steps(cfg, k - 1, n, nx);
        assert(all == before + one);
        assert forall|i: int| 0 <= i < all.len() implies proper(#[trigger] all[i], cfg, g) by {
            if i < before.len() {
                assert(all[i] == before[i]);
            } else {
                assert(all[i] == one[i - before.len()]);
            }
        }
    }
}

/// Every step of a tower's program stays in the buffers that the grid asks for, and
/// every patch attends to every patch.
pub proof fn towers_are_proper(cfg: Config, w: int, h: int, g: PatchGrid)
    requires
        cfg.wf(),
        cfg.patch_size > 0,
        0 <= w <= usize::MAX,
        0 <= h <= usize::MAX,
        sizable(cfg, w, h),
        grid_of(cfg, w, h) == Ok::<PatchGrid, EncodeError>(g),
    ensures
        forall|i: int|
            0 <= i < steps(cfg, g).len() ==> proper(#[trigger] steps(cfg, g)[i], cfg, g),
{
    lemma_pooled_count(cfg, w, h, g);
    let n = g.nx * g.ny;
    let n_out = g.ox * g.oy;
    let d = cfg.d_model as int;
    lemma_blocks(cfg, g, cfg.n_layers as int);
    assert(0 <= n_out * d <= n * d && 0 <= n_out * cfg.proj_dim <= n * cfg.proj_dim)
        by (nonlinear_arith)
        requires
            0 <= n_out <= n,
            0 <= d,
            0 <= cfg.proj_dim,
    ;
    lemma_rows(Scratch::H, n, d, n * d);
    lemma_rows(Scratch::X, n_out, d, n * d);
    lemma_rows(Scratch::Logits, n_out, cfg.proj_dim as int, n_out * cfg.proj_dim);
    let all = steps(cfg, g);
    let (a, b, c) = (
        patch_steps(cfg, n, g.nx as int),
        blocks_steps(cfg, cfg.n_layers as int, n, g.nx as int),
        pool_steps(cfg, n, g.nx as int, n_out),
    );
    assert forall|i: int| 0 <= i < all.len() implies proper(#[trigger] all[i], cfg, g) by {
        if i < a.len() {
            assert(all[i] == a[i]);
            assert(proper(a[i], cfg, g));
        } else if i < a.len() + b.len() {
            assert(all[i] == b[i - a.len()]);
        } else {
            assert(all[i] == c[i - a.len() - b.len()]);
            assert(proper(c[i - a.len() - b.len()], cfg, g));
        }
    }
}

/// Every matrix and every gain of a block is the tensor of that name of that block.
pub proof fn tensors_have_their_names(i: usize)
    ensures
        TowerMatrix::Query(i).tensor() == text::numbered("v.blk."@, i as nat, ".attn_q.weight"@),
        TowerMatrix::Key(i).tensor() == text::numbered("v.blk."@, i as nat, ".attn_k.weight"@),
        TowerMatrix::Value(i).tensor() == text::numbered("v.blk."@, i as nat, ".attn_v.weight"@),
        TowerMatrix::AttnOut(i).tensor() == text::numbered(
            "v.blk."@,
            i as nat,
            ".attn_out.weight"@,
        ),
        TowerMatrix::FfnGate(i).tensor() == text::numbered(
            "v.blk."@,
            i as nat,
            ".ffn_gate.weight"@,
        ),
        TowerMatrix::FfnUp(i).tensor() == text::numbered("v.blk."@, i as nat, ".ffn_up.weight"@),
        TowerMatrix::FfnDown(i).tensor() == text::numbered(
            "v.blk."@,
            i as nat,
            ".ffn_down.weight"@,
        ),
        TowerMatrix::InputProjection.tensor() == "mm.input_projection.weight"@,
        TowerGain::Ln1(i).tensor() == text::numbered("v.blk."@, i as nat, ".ln1.weight"@),
        TowerGain::QueryNorm(i).tensor() == text::numbered(
            "v.blk."@,
            i as nat,
            ".attn_q_norm.weight"@,
        ),
        TowerGain::KeyNorm(i).tensor() == text::numbered(
            "v.blk."@,
            i as nat,
            ".attn_k_norm.weight"@,
        ),
        TowerGain::AttnPostNorm(i).tensor() == text::numbered(
            "v.blk."@,
            i as nat,
            ".attn_post_norm.weight"@,
        ),
        TowerGain::Ln2(i).tensor() == text::numbered("v.blk."@, i as nat, ".ln2.weight"@),
        TowerGain::FfnPostNorm(i).tensor() == text::numbered(
            "v.blk."@,
            i as nat,
            ".ffn_post_norm.weight"@,
        ),
{
}

/// An image is taken exactly when it has a patch, its patches make whole squares to pool,
/// and both sides of their grid have positions; the grid then counts the whole patches of
/// each side, and every square of them is one token.
pub proof fn a_grid_is_the_whole_patches(cfg: Config, w: int, h: int)
    requires
        cfg.patch_size > 0,
        cfg.n_merge > 0,
        0 <= w <= usize::MAX,
        0 <= h <= usize::MAX,
    ensures
        grid_of(cfg, w, h) matches Ok(g) ==> {
            let (p, m) = (cfg.patch_size as int, cfg.n_merge as int);
            &&& g.nx * p <= w < (g.nx + 1) * p
            &&& g.ny * p <= h < (g.ny + 1) * p
            &&& g.ox * m == g.nx && g.oy * m == g.ny
            &&& 0 < g.nx <= cfg.pos_table_len && 0 < g.ny <= cfg.pos_table_len
        },
        grid_of(cfg, w, h) is Err ==> {
            let (p, m) = (cfg.patch_size as int, cfg.n_merge as int);
            ||| w < p
            ||| h < p
            ||| (w / p) % m != 0
            ||| (h / p) % m != 0
            ||| w / p > cfg.pos_table_len
            ||| h / p > cfg.pos_table_len
        },
{
    let (p, m) = (cfg.patch_size as int, cfg.n_merge as int);
    let (nx, ny) = (w / p, h / p);
    lemma_fundamental_div_mod(w, p);
    lemma_fundamental_div_mod(h, p);
    lemma_fundamental_div_mod(nx, m);
    lemma_fundamental_div_mod(ny, m);
    assert(0 <= nx <= w && 0 <= ny <= h && nx * p <= w < (nx + 1) * p && ny * p <= h < (ny + 1)
        * p) by (nonlinear_arith)
        requires
            w == p * nx + w % p,
            h == p * ny + h % p,
            0 <= w % p < p,
            0 <= h % p < p,
            0 < p,
            0 <= w,
            0 <= h,
    ;
    let (ox, oy) = (nx / m, ny / m);
    assert(0 <= ox && 0 <= oy && (nx % m == 0 ==> ox * m == nx && ox <= nx) && (ny % m == 0 ==> oy
        * m == ny && oy <= ny)) by (nonlinear_arith)
        requires
            nx == m * ox + nx % m,
            ny == m * oy + ny % m,
            ox == nx / m,
            oy == ny / m,
            0 < m,
            0 <= nx,
            0 <= ny,
    ;
    assert(nx == 0 ==> w < p) by (nonlinear_arith)
        requires
            w < (nx + 1) * p,
    ;
    assert(ny == 0 ==> h < p) by (nonlinear_arith)
        requires
            h < (ny + 1) * p,
    ;
}

} // verus!
