//! The gemma4v vision tower as a dispatch plan.
//!
//! Most of it is the text stack's kernels pointed at patches instead of tokens.
//! Attention runs over flat key and value buffers with both directions open; the
//! patch convolution is a matrix product over rows of pixels.

use crate::checks::{
    err_of, first_error, lemma_first_error, lemma_first_error_concat, lemma_no_error,
};
use crate::cpu::within;
use crate::cursor::{le32, Cursor};
use crate::gguf::GgmlType;
use crate::gpu::arena::{lemma_named, tensor_named, Handle};
use crate::gpu::forward::{bytes_fit, norm_of, plain_of, scaled_of, size_views, sizes_fit};
use crate::gpu::grid::{self, ceil_div, matvec_kernel, Kernel, WG_OPS};
use crate::gpu::plan::{
    attend, bare_norm_op, float_rows, lower, norm_op, one, param_at, plain, project,
    projection_error, scaled_op, weight_at, Attn, Bind, Buf, Builder, Dispatch, Grid, Node, Op,
    ParamArena, PlanError, PlanErrorView, Slot, Weights, MAX_SLOTS, ONE,
};
use crate::header::Gguf;
use crate::text;
use crate::vision::Config;
use vstd::hash_map::StringHashMap;
use vstd::prelude::*;

verus! {

/// The largest and the smallest finite single, as bits.
pub const FLOAT_MAX: u32 = 0x7F7F_FFFF;

pub const FLOAT_MIN: u32 = 0xFF7F_FFFF;

/// Uniform slots that a tower's plan may use.
pub const TOWER_SLOTS: usize = 4096;

/// Neither an infinity nor a NaN.
pub open spec fn finite(bits: u32) -> bool {
    bits / 0x80_0000 % 0x100 != 0xFF
}

fn is_finite(bits: u32) -> (r: bool)
    ensures
        r == finite(bits),
{
    bits / 0x80_0000 % 0x100 != 0xFF
}

/// Calibration range carried beside a weight, as single-precision bits.
#[derive(Debug, Clone, Copy, PartialEq, Eq, Structural)]
pub struct Clamp {
    pub in_lo: u32,
    pub in_hi: u32,
    pub out_lo: u32,
    pub out_hi: u32,
}

impl Clamp {
    pub open spec fn bounds(self) -> bool {
        finite(self.in_lo) || finite(self.in_hi) || finite(self.out_lo) || finite(self.out_hi)
    }

    /// Whether the range bounds anything.
    pub fn any(&self) -> (r: bool)
        ensures
            r == self.bounds(),
    {
        is_finite(self.in_lo) || is_finite(self.in_hi) || is_finite(self.out_lo) || is_finite(
            self.out_hi,
        )
    }

    /// Infinities are replaced by the finite extremes, which clamp identically.
    pub open spec fn range(lo: u32, hi: u32) -> (u32, u32) {
        (
            if finite(lo) {
                lo
            } else {
                FLOAT_MIN
            },
            if finite(hi) {
                hi
            } else {
                FLOAT_MAX
            },
        )
    }

    pub fn finite(lo: u32, hi: u32) -> (r: (u32, u32))
        ensures
            r == Self::range(lo, hi),
    {
        (
            if is_finite(lo) { lo } else { FLOAT_MIN },
            if is_finite(hi) { hi } else { FLOAT_MAX },
        )
    }
}

/// A resident tower: what a plan is made from.
pub struct VisionGpu {
    pub cfg: Config,
    pub weights: Weights,
    pub param_off: ParamArena,
    pub clamp: StringHashMap<Clamp>,
    pub grid: Grid,
    /// Epsilon of the norms, as bits.
    pub eps: u32,
    /// Base of the two-dimensional rotation, as bits.
    pub rope_theta: u32,
    /// Square root of the model width, as bits.
    pub sqrt_d: u32,
}

/// The name of a tensor of layer `il`; `suffix` starts with a dot.
pub open spec fn vblk(il: int, suffix: Seq<char>) -> Seq<char> {
    text::numbered("v.blk."@, il as nat, suffix)
}

fn vblk_name(il: usize, suffix: &str) -> (s: String)
    ensures
        s@ == vblk(il as int, suffix@),
{
    text::numbered_string("v.blk.", il, suffix)
}

/// What one layer looks up.
#[derive(Clone, Copy)]
pub struct LayerRefs {
    pub ln1: u32,
    pub q: Handle,
    pub k: Handle,
    pub v: Handle,
    pub q_norm: u32,
    pub k_norm: u32,
    pub out: Handle,
    pub attn_post_norm: u32,
    pub ln2: u32,
    pub gate: Handle,
    pub up: Handle,
    pub down: Handle,
    pub ffn_post_norm: u32,
}

/// The patch grid of an image, and what it pools to.
#[derive(Debug, Clone, Copy, PartialEq, Eq, Structural)]
pub struct Patches {
    pub nx: usize,
    pub ny: usize,
    pub n: usize,
    pub n_out: usize,
}

/// Workgroups for an elementwise pass.
pub open spec fn cell_count(n: int, wg: int) -> int {
    if ceil_div(n, wg) < 1 {
        1
    } else {
        ceil_div(n, wg)
    }
}

/// Workgroups for an elementwise pass.
pub fn cells(n: u32, wg: u32) -> (r: u32)
    requires
        wg > 0,
    ensures
        r == cell_count(n as int, wg as int),
{
    let q: u32 = grid::div_up(n, wg);
    if q < 1 {
        1
    } else {
        q
    }
}

/// One workgroup per row, up to the device's limit.
pub open spec fn row_cells(n: u32, limit: u32) -> u32 {
    let m = if n < limit {
        n
    } else {
        limit
    };
    if m < 1 {
        1
    } else {
        m
    }
}

fn row_count(n: u32, limit: u32) -> (r: u32)
    ensures
        r == row_cells(n, limit),
{
    let m: u32 = if n < limit { n } else { limit };
    if m < 1 {
        1
    } else {
        m
    }
}

/// An elementwise step over `n` cells.
pub open spec fn cell_step(op: Op, kernel: Kernel, a: Buf, b: Buf, out: Buf, n: u32) -> Node {
    one(
        Slot::Fixed(op),
        kernel,
        Bind::Ops { a, b, out },
        (cell_count(n as int, WG_OPS as int) as u32, 1, 1),
    )
}

/// A step with a given number of workgroups.
pub open spec fn row_step(op: Op, kernel: Kernel, out: Buf, groups: u32) -> Node {
    one(
        Slot::Fixed(op),
        kernel,
        Bind::Ops { a: Buf::Zero, b: Buf::Zero, out },
        (groups, 1, 1),
    )
}

impl Builder {
    fn cell_step(&mut self, op: Op, kernel: Kernel, a: Buf, b: Buf, out: Buf, n: u32)
        requires
            old(self).wf(),
            old(self).slots@.len() < MAX_SLOTS,
        ensures
            final(self).wf(),
            final(self).nodes@ == old(self).nodes@.push(cell_step(op, kernel, a, b, out, n)),
            final(self).slots@.len() == old(self).slots@.len() + 1,
    {
        self.step(Slot::Fixed(op), kernel, Bind::Ops { a, b, out }, (cells(n, WG_OPS), 1, 1));
    }

    fn row_step(&mut self, op: Op, kernel: Kernel, out: Buf, groups: u32)
        requires
            old(self).wf(),
            old(self).slots@.len() < MAX_SLOTS,
        ensures
            final(self).wf(),
            final(self).nodes@ == old(self).nodes@.push(row_step(op, kernel, out, groups)),
            final(self).slots@.len() == old(self).slots@.len() + 1,
    {
        self.step(
            Slot::Fixed(op),
            kernel,
            Bind::Ops { a: Buf::Zero, b: Buf::Zero, out },
            (groups, 1, 1),
        );
    }
}

/// Parameters of a clamp.
pub open spec fn clamp_op(n_rows: u32, dim: u32, r: (u32, u32)) -> Op {
    Op { n_rows, dim, off0: 0, off1: 0, f0: r.0, f1: r.1, u0: 0, u1: 0 }
}

proof fn lemma_five(
    s: Seq<Node>,
    a: Seq<Node>,
    b: Seq<Node>,
    c: Seq<Node>,
    d: Seq<Node>,
    e: Seq<Node>,
)
    ensures
        s + a + b + c + d + e == s + (a + b + c + d + e),
{
    assert(s + a + b + c + d + e =~= s + (a + b + c + d + e));
}

impl VisionGpu {
    // -- dimensions ---------------------------------------------------------
    pub open spec fn patch_width(&self) -> int {
        self.cfg.patch_size * self.cfg.patch_size * 3
    }

    /// The numbers that `n` patches multiply out fit.
    pub open spec fn fits(&self, n: int) -> bool {
        &&& self.cfg.patch_size * self.cfg.patch_size <= usize::MAX
        &&& self.patch_width() <= usize::MAX
        &&& n * self.patch_width() <= usize::MAX
        &&& n * self.cfg.d_model <= usize::MAX
        &&& n * self.cfg.ffn_dim <= usize::MAX
        &&& n * self.cfg.n_heads <= usize::MAX
    }

    pub open spec fn wf(&self) -> bool {
        &&& self.grid.tile > 0
        &&& 64 * self.cfg.n_layers + 64 <= MAX_SLOTS
        &&& self.cfg.patch_size > 0
        &&& self.cfg.n_merge > 0
    }

    // -- the patch grid -----------------------------------------------------
    /// The patches of an image of `w` by `h` pixels, or why there are none.
    pub open spec fn grid_of(&self, w: int, h: int) -> Result<Patches, PlanErrorView> {
        let nx = w / self.cfg.patch_size as int;
        let ny = h / self.cfg.patch_size as int;
        let m = self.cfg.n_merge as int;
        if nx * ny <= 0 {
            Err(PlanErrorView::TooSmall)
        } else if nx % m != 0 || ny % m != 0 {
            Err(PlanErrorView::NotPoolable { nx: nx as usize, ny: ny as usize })
        } else if nx > self.cfg.pos_table_len || ny > self.cfg.pos_table_len {
            Err(PlanErrorView::PastPositions { nx: nx as usize, ny: ny as usize })
        } else {
            Ok(
                Patches {
                    nx: nx as usize,
                    ny: ny as usize,
                    n: (nx * ny) as usize,
                    n_out: ((nx / m) * (ny / m)) as usize,
                },
            )
        }
    }

    /// The patches of an image of `w` by `h` pixels.
    pub fn patch_grid(&self, w: usize, h: usize) -> (r: Result<Patches, PlanError>)
        requires
            self.wf(),
            w * h <= usize::MAX,
        ensures
            match (r, self.grid_of(w as int, h as int)) {
                (Ok(p), Ok(q)) => p == q && 0 < p.n && p.n == p.nx * p.ny && 0 < p.n_out
                    <= p.n,
                (Err(e), Err(f)) => e@ == f,
                _ => false,
            },
    {
        let nx: usize = w / self.cfg.patch_size;
        let ny: usize = h / self.cfg.patch_size;
        assert(0 <= nx <= w && 0 <= ny <= h && 0 <= nx * ny <= w * h) by (nonlinear_arith)
            requires
                nx == w / self.cfg.patch_size,
                ny == h / self.cfg.patch_size,
                self.cfg.patch_size > 0,
        ;
        let n: usize = nx * ny;
        if n == 0 {
            return Err(PlanError::TooSmall);
        }
        if nx % self.cfg.n_merge != 0 || ny % self.cfg.n_merge != 0 {
            return Err(PlanError::NotPoolable { nx, ny });
        }
        if nx > self.cfg.pos_table_len || ny > self.cfg.pos_table_len {
            return Err(PlanError::PastPositions { nx, ny });
        }
        let ox: usize = nx / self.cfg.n_merge;
        let oy: usize = ny / self.cfg.n_merge;
        assert(nx > 0 && ny > 0) by (nonlinear_arith)
            requires
                nx * ny > 0,
                nx >= 0,
                ny >= 0,
        ;
        assert(1 <= ox <= nx && 1 <= oy <= ny && 1 <= ox * oy <= nx * ny) by (nonlinear_arith)
            requires
                nx > 0,
                ny > 0,
                self.cfg.n_merge > 0,
                ox == nx / self.cfg.n_merge,
                oy == ny / self.cfg.n_merge,
                nx % self.cfg.n_merge == 0,
                ny % self.cfg.n_merge == 0,
        ;
        Ok(Patches { nx, ny, n, n_out: ox * oy })
    }

    // -- lookups ------------------------------------------------------------
    pub open spec fn gain_error(&self, name: Seq<char>) -> Option<PlanErrorView> {
        err_of(param_at(self.param_off.offsets@, name))
    }

    pub open spec fn weight_error(&self, name: Seq<char>, n: int) -> Option<PlanErrorView> {
        projection_error(self.weights.handles@, name, n as u32)
    }

    pub open spec fn gain(&self, name: Seq<char>) -> u32 {
        param_at(self.param_off.offsets@, name)->Ok_0
    }

    pub open spec fn weight(&self, name: Seq<char>) -> Handle {
        weight_at(self.weights.handles@, name)->Ok_0
    }

    /// The range of a weight, where it bounds anything.
    pub open spec fn clamp_of(&self, name: Seq<char>) -> Option<Clamp> {
        if self.clamp@.contains_key(name) && self.clamp@[name].bounds() {
            Some(self.clamp@[name])
        } else {
            None
        }
    }

    fn clamp_at(&self, name: &str) -> (r: Option<Clamp>)
        ensures
            r == self.clamp_of(name@),
    {
        match self.clamp.get(name) {
            Some(c) => if c.any() {
                Some(*c)
            } else {
                None
            },
            None => None,
        }
    }

    /// What can be missing from layer `il`, in the order in which it is noticed.
    pub open spec fn layer_errors(&self, il: int, n: int) -> Seq<Option<PlanErrorView>> {
        seq![
            self.gain_error(vblk(il, ".ln1.weight"@)),
            self.weight_error(vblk(il, ".attn_q.weight"@), n),
            self.weight_error(vblk(il, ".attn_k.weight"@), n),
            self.weight_error(vblk(il, ".attn_v.weight"@), n),
            self.gain_error(vblk(il, ".attn_q_norm.weight"@)),
            self.gain_error(vblk(il, ".attn_k_norm.weight"@)),
            self.weight_error(vblk(il, ".attn_out.weight"@), n),
            self.gain_error(vblk(il, ".attn_post_norm.weight"@)),
            self.gain_error(vblk(il, ".ln2.weight"@)),
            self.weight_error(vblk(il, ".ffn_gate.weight"@), n),
            self.weight_error(vblk(il, ".ffn_up.weight"@), n),
            self.weight_error(vblk(il, ".ffn_down.weight"@), n),
            self.gain_error(vblk(il, ".ffn_post_norm.weight"@)),
        ]
    }

    pub open spec fn refs_of(&self, il: int) -> LayerRefs {
        LayerRefs {
            ln1: self.gain(vblk(il, ".ln1.weight"@)),
            q: self.weight(vblk(il, ".attn_q.weight"@)),
            k: self.weight(vblk(il, ".attn_k.weight"@)),
            v: self.weight(vblk(il, ".attn_v.weight"@)),
            q_norm: self.gain(vblk(il, ".attn_q_norm.weight"@)),
            k_norm: self.gain(vblk(il, ".attn_k_norm.weight"@)),
            out: self.weight(vblk(il, ".attn_out.weight"@)),
            attn_post_norm: self.gain(vblk(il, ".attn_post_norm.weight"@)),
            ln2: self.gain(vblk(il, ".ln2.weight"@)),
            gate: self.weight(vblk(il, ".ffn_gate.weight"@)),
            up: self.weight(vblk(il, ".ffn_up.weight"@)),
            down: self.weight(vblk(il, ".ffn_down.weight"@)),
            ffn_post_norm: self.gain(vblk(il, ".ffn_post_norm.weight"@)),
        }
    }

    /// Every weight that was found has a kernel.
    pub open spec fn runnable(r: LayerRefs, n: int) -> bool {
        &&& matvec_kernel(r.q.ty, n as u32) is Some
        &&& matvec_kernel(r.k.ty, n as u32) is Some
        &&& matvec_kernel(r.v.ty, n as u32) is Some
        &&& matvec_kernel(r.out.ty, n as u32) is Some
        &&& matvec_kernel(r.gate.ty, n as u32) is Some
        &&& matvec_kernel(r.up.ty, n as u32) is Some
        &&& matvec_kernel(r.down.ty, n as u32) is Some
    }

    /// What can be missing from layer `il` on, then from the projector.
    pub open spec fn errors_from(&self, il: int, p: Patches) -> Seq<Option<PlanErrorView>>
        decreases self.cfg.n_layers - il,
    {
        if il >= self.cfg.n_layers {
            seq![self.weight_error("mm.input_projection.weight"@, p.n_out as int)]
        } else {
            self.layer_errors(il, p.n as int) + self.errors_from(il + 1, p)
        }
    }

    /// What can be missing, in the order in which it is noticed.
    pub open spec fn errors(&self, p: Patches) -> Seq<Option<PlanErrorView>> {
        seq![self.weight_error("v.patch_embd.weight"@, p.n as int)] + self.errors_from(0, p)
    }

    // -- steps --------------------------------------------------------------
    /// `y = W x` over all patches, clamped around where the weight has a range.
    pub open spec fn linear(
        &self,
        name: Seq<char>,
        h: Handle,
        n: int,
        src: Buf,
        dst: Buf,
        out_dim: int,
        in_dim: int,
    ) -> Seq<Node> {
        let nn = n as u32;
        let mid = seq![project(self.grid, h, in_dim as u32, out_dim as u32, nn, src, dst)];
        match self.clamp_of(name) {
            None => mid,
            Some(c) => seq![
                cell_step(
                    clamp_op(nn, in_dim as u32, Clamp::range(c.in_lo, c.in_hi)),
                    Kernel::ClampRange,
                    Buf::Zero,
                    Buf::Zero,
                    src,
                    (n * in_dim) as u32,
                ),
            ] + mid + seq![
                cell_step(
                    clamp_op(nn, out_dim as u32, Clamp::range(c.out_lo, c.out_hi)),
                    Kernel::ClampRange,
                    Buf::Zero,
                    Buf::Zero,
                    dst,
                    (n * out_dim) as u32,
                ),
            ],
        }
    }

    /// The residual add of `from`.
    pub open spec fn add_node(&self, n: int, from: Buf) -> Node {
        cell_step(
            scaled_op(n as u32, self.cfg.d_model as u32, ONE),
            Kernel::AddScale,
            Buf::Zero,
            from,
            Buf::H,
            (n * self.cfg.d_model) as u32,
        )
    }

    /// A norm over whole rows.
    pub open spec fn norm_node(&self, n: int, off0: u32, buf: Buf) -> Node {
        row_step(
            norm_op(n as u32, self.cfg.d_model as u32, off0, self.eps),
            Kernel::RmsNorm,
            buf,
            row_cells(n as u32, self.grid.max_groups),
        )
    }

    /// A copy of the residual stream, normed.
    pub open spec fn normed(&self, n: int, off0: u32) -> Seq<Node> {
        seq![
            cell_step(
                plain(n as u32, self.cfg.d_model as u32),
                Kernel::Copy,
                Buf::H,
                Buf::Zero,
                Buf::X,
                (n * self.cfg.d_model) as u32,
            ),
            self.norm_node(n, off0, Buf::X),
        ]
    }

    /// Patch embedding and positions.
    pub open spec fn embed_nodes(&self, n: int) -> Seq<Node> {
        let name = "v.patch_embd.weight"@;
        self.linear(
            name,
            self.weight(name),
            n,
            Buf::X,
            Buf::H,
            self.cfg.d_model as int,
            self.patch_width(),
        ).push(self.add_node(n, Buf::Pos))
    }

    /// Pre-attention norm and the three projections.
    pub open spec fn qkv_nodes(&self, r: LayerRefs, il: int, n: int) -> Seq<Node> {
        let d = self.cfg.d_model as int;
        self.normed(n, r.ln1) + self.linear(
            vblk(il, ".attn_q.weight"@),
            r.q,
            n,
            Buf::X,
            Buf::Q,
            d,
            d,
        ) + self.linear(vblk(il, ".attn_k.weight"@), r.k, n, Buf::X, Buf::K, d, d) + self.linear(
            vblk(il, ".attn_v.weight"@),
            r.v,
            n,
            Buf::X,
            Buf::V,
            d,
            d,
        )
    }

    /// Parameters of the two-dimensional rotation.
    pub open spec fn rope_op(&self, p: Patches) -> Op {
        Op {
            n_rows: (p.n * self.cfg.n_heads) as u32,
            dim: self.cfg.head_dim as u32,
            off0: 0,
            off1: 0,
            f0: self.rope_theta,
            f1: 0,
            u0: self.cfg.n_heads as u32,
            u1: p.nx as u32,
        }
    }

    /// Per-head norms, the two-dimensional rotation, and attention in both
    /// directions. V is normed without gains and never rotated.
    pub open spec fn attn_nodes(&self, r: LayerRefs, p: Patches) -> Seq<Node> {
        let rows = (p.n * self.cfg.n_heads) as u32;
        let hd = self.cfg.head_dim as u32;
        let nh = self.cfg.n_heads as u32;
        let g = row_cells(rows, self.grid.max_groups);
        seq![
            row_step(norm_op(rows, hd, r.q_norm, self.eps), Kernel::RmsNorm, Buf::Q, g),
            row_step(self.rope_op(p), Kernel::Rope2d, Buf::Q, g),
            row_step(norm_op(rows, hd, r.k_norm, self.eps), Kernel::RmsNorm, Buf::K, g),
            row_step(self.rope_op(p), Kernel::Rope2d, Buf::K, g),
            row_step(bare_norm_op(rows, hd, self.eps), Kernel::RmsNorm, Buf::V, g),
            attend(
                Slot::FixedAttention(
                    Attn {
                        n_tokens: p.n as u32,
                        n_heads: nh,
                        n_kv_heads: nh,
                        head_dim: hd,
                        kv_dim: self.cfg.d_model as u32,
                        base_pos: 0,
                        window: 0,
                        max_vis: p.n as u32,
                        scale: ONE,
                        bidi: 1,
                    },
                ),
                Bind::Attn { q: Buf::Q, k: Buf::K, v: Buf::V, scores: Buf::Scores, out: Buf::Attn },
                nh,
                p.n as u32,
            ),
        ]
    }

    /// Output projection, post-norm, residual.
    pub open spec fn out_nodes(&self, r: LayerRefs, il: int, n: int) -> Seq<Node> {
        let d = self.cfg.d_model as int;
        self.linear(vblk(il, ".attn_out.weight"@), r.out, n, Buf::Attn, Buf::Proj, d, d) + seq![
            self.norm_node(n, r.attn_post_norm, Buf::Proj),
            self.add_node(n, Buf::Proj),
        ]
    }

    /// The feed-forward block, up to the gated activation.
    pub open spec fn gated_nodes(&self, r: LayerRefs, il: int, n: int) -> Seq<Node> {
        let d = self.cfg.d_model as int;
        let f = self.cfg.ffn_dim as int;
        self.normed(n, r.ln2) + self.linear(
            vblk(il, ".ffn_gate.weight"@),
            r.gate,
            n,
            Buf::X,
            Buf::Gate,
            f,
            d,
        ) + self.linear(vblk(il, ".ffn_up.weight"@), r.up, n, Buf::X, Buf::Up, f, d) + seq![
            cell_step(
                plain(n as u32, f as u32),
                Kernel::Geglu,
                Buf::Zero,
                Buf::Up,
                Buf::Gate,
                (n * f) as u32,
            ),
        ]
    }

    /// The rest of the feed-forward block.
    pub open spec fn down_nodes(&self, r: LayerRefs, il: int, n: int) -> Seq<Node> {
        let d = self.cfg.d_model as int;
        let f = self.cfg.ffn_dim as int;
        self.linear(vblk(il, ".ffn_down.weight"@), r.down, n, Buf::Gate, Buf::Proj, d, f) + seq![
            self.norm_node(n, r.ffn_post_norm, Buf::Proj),
            self.add_node(n, Buf::Proj),
        ]
    }

    /// One layer.
    pub open spec fn layer_nodes(&self, il: int, p: Patches) -> Seq<Node> {
        let r = self.refs_of(il);
        self.qkv_nodes(r, il, p.n as int) + self.attn_nodes(r, p) + self.out_nodes(
            r,
            il,
            p.n as int,
        ) + self.gated_nodes(r, il, p.n as int) + self.down_nodes(r, il, p.n as int)
    }

    /// The embedding and the first `k` layers.
    pub open spec fn nodes_to(&self, k: int, p: Patches) -> Seq<Node>
        decreases k,
    {
        if k <= 0 {
            self.embed_nodes(p.n as int)
        } else {
            self.nodes_to(k - 1, p) + self.layer_nodes(k - 1, p)
        }
    }

    /// Pooling, the embedder's norm, and the projection over pooled tokens.
    pub open spec fn pool_nodes(&self, p: Patches) -> Seq<Node> {
        let m = p.n_out as u32;
        let d = self.cfg.d_model as u32;
        seq![
            cell_step(
                Op {
                    n_rows: m,
                    dim: d,
                    off0: 0,
                    off1: 0,
                    f0: self.sqrt_d,
                    f1: 0,
                    u0: self.cfg.n_merge as u32,
                    u1: p.nx as u32,
                },
                Kernel::PoolAvg,
                Buf::H,
                Buf::Zero,
                Buf::Pooled,
                (p.n_out * self.cfg.d_model) as u32,
            ),
            row_step(
                bare_norm_op(m, d, self.eps),
                Kernel::RmsNorm,
                Buf::Pooled,
                row_cells(m, self.grid.max_groups),
            ),
            project(
                self.grid,
                self.weight("mm.input_projection.weight"@),
                d,
                self.cfg.proj_dim as u32,
                m,
                Buf::Pooled,
                Buf::Out,
            ),
        ]
    }

    /// The whole plan of an image.
    pub open spec fn nodes(&self, p: Patches) -> Seq<Node> {
        self.nodes_to(self.cfg.n_layers as int, p) + self.pool_nodes(p)
    }

    // -- building -----------------------------------------------------------
    fn layer_refs(&self, il: usize, n: usize) -> (r: Result<LayerRefs, PlanError>)
        ensures
            match r {
                Ok(x) => first_error(self.layer_errors(il as int, n as int)) is None && x
                    == self.refs_of(il as int) && Self::runnable(x, n as int),
                Err(e) => first_error(self.layer_errors(il as int, n as int)) == Some(e@),
            },
    {
        let ghost errs = self.layer_errors(il as int, n as int);
        let ln1: u32 = match self.param_off.at(vblk_name(il, ".ln1.weight").as_str()) {
            Ok(x) => x,
            Err(e) => {
                proof {
                    lemma_first_error(errs, 0);
                }
                return Err(e);
            },
        };
        let q = match self.weights.projection(vblk_name(il, ".attn_q.weight").as_str(), n as u32) {
            Ok(x) => x,
            Err(e) => {
                proof {
                    lemma_first_error(errs, 1);
                }
                return Err(e);
            },
        };
        let k = match self.weights.projection(vblk_name(il, ".attn_k.weight").as_str(), n as u32) {
            Ok(x) => x,
            Err(e) => {
                proof {
                    lemma_first_error(errs, 2);
                }
                return Err(e);
            },
        };
        let v = match self.weights.projection(vblk_name(il, ".attn_v.weight").as_str(), n as u32) {
            Ok(x) => x,
            Err(e) => {
                proof {
                    lemma_first_error(errs, 3);
                }
                return Err(e);
            },
        };
        let q_norm: u32 = match self.param_off.at(vblk_name(il, ".attn_q_norm.weight").as_str()) {
            Ok(x) => x,
            Err(e) => {
                proof {
                    lemma_first_error(errs, 4);
                }
                return Err(e);
            },
        };
        let k_norm: u32 = match self.param_off.at(vblk_name(il, ".attn_k_norm.weight").as_str()) {
            Ok(x) => x,
            Err(e) => {
                proof {
                    lemma_first_error(errs, 5);
                }
                return Err(e);
            },
        };
        let out = match self.weights.projection(vblk_name(il, ".attn_out.weight").as_str(), n as u32) {
            Ok(x) => x,
            Err(e) => {
                proof {
                    lemma_first_error(errs, 6);
                }
                return Err(e);
            },
        };
        let attn_post_norm: u32 = match self.param_off.at(vblk_name(il, ".attn_post_norm.weight").as_str()) {
            Ok(x) => x,
            Err(e) => {
                proof {
                    lemma_first_error(errs, 7);
                }
                return Err(e);
            },
        };
        let ln2: u32 = match self.param_off.at(vblk_name(il, ".ln2.weight").as_str()) {
            Ok(x) => x,
            Err(e) => {
                proof {
                    lemma_first_error(errs, 8);
                }
                return Err(e);
            },
        };
        let gate = match self.weights.projection(vblk_name(il, ".ffn_gate.weight").as_str(), n as u32) {
            Ok(x) => x,
            Err(e) => {
                proof {
                    lemma_first_error(errs, 9);
                }
                return Err(e);
            },
        };
        let up = match self.weights.projection(vblk_name(il, ".ffn_up.weight").as_str(), n as u32) {
            Ok(x) => x,
            Err(e) => {
                proof {
                    lemma_first_error(errs, 10);
                }
                return Err(e);
            },
        };
        let down = match self.weights.projection(vblk_name(il, ".ffn_down.weight").as_str(), n as u32) {
            Ok(x) => x,
            Err(e) => {
                proof {
                    lemma_first_error(errs, 11);
                }
                return Err(e);
            },
        };
        let ffn_post_norm: u32 = match self.param_off.at(vblk_name(il, ".ffn_post_norm.weight").as_str()) {
            Ok(x) => x,
            Err(e) => {
                proof {
                    lemma_first_error(errs, 12);
                }
                return Err(e);
            },
        };
        proof {
            lemma_no_error(errs);
        }
        Ok(
            LayerRefs {
                ln1,
                q,
                k,
                v,
                q_norm,
                k_norm,
                out,
                attn_post_norm,
                ln2,
                gate,
                up,
                down,
                ffn_post_norm,
            },
        )
    }

    fn put_linear(
        &self,
        b: &mut Builder,
        name: &str,
        h: Handle,
        n: usize,
        src: Buf,
        dst: Buf,
        out_dim: usize,
        in_dim: usize,
    )
        requires
            self.wf(),
            old(b).wf(),
            old(b).slots@.len() + 3 <= MAX_SLOTS,
            matvec_kernel(h.ty, n as u32) is Some,
            n * out_dim <= usize::MAX,
            n * in_dim <= usize::MAX,
        ensures
            final(b).wf(),
            final(b).slots@.len() <= old(b).slots@.len() + 3,
            final(b).nodes@ == old(b).nodes@ + self.linear(
                name@,
                h,
                n as int,
                src,
                dst,
                out_dim as int,
                in_dim as int,
            ),
    {
        let nn: u32 = n as u32;
        let cl = self.clamp_at(name);
        match cl {
            Some(c) => {
                let (lo, hi) = Clamp::finite(c.in_lo, c.in_hi);
                let op = Op {
                    n_rows: nn,
                    dim: in_dim as u32,
                    off0: 0,
                    off1: 0,
                    f0: lo,
                    f1: hi,
                    u0: 0,
                    u1: 0,
                };
                let m: u32 = (n * in_dim) as u32;
                b.cell_step(op, Kernel::ClampRange, Buf::Zero, Buf::Zero, src, m);
            },
            None => {},
        }
        b.project(self.grid, h, in_dim as u32, out_dim as u32, nn, src, dst);
        match cl {
            Some(c) => {
                let (lo, hi) = Clamp::finite(c.out_lo, c.out_hi);
                let op = Op {
                    n_rows: nn,
                    dim: out_dim as u32,
                    off0: 0,
                    off1: 0,
                    f0: lo,
                    f1: hi,
                    u0: 0,
                    u1: 0,
                };
                let m: u32 = (n * out_dim) as u32;
                b.cell_step(op, Kernel::ClampRange, Buf::Zero, Buf::Zero, dst, m);
            },
            None => {},
        }
        assert(b.nodes@ =~= old(b).nodes@ + self.linear(
            name@,
            h,
            n as int,
            src,
            dst,
            out_dim as int,
            in_dim as int,
        ));
    }

    fn put_add(&self, b: &mut Builder, n: usize, from: Buf)
        requires
            self.fits(n as int),
            old(b).wf(),
            old(b).slots@.len() < MAX_SLOTS,
        ensures
            final(b).wf(),
            final(b).slots@.len() == old(b).slots@.len() + 1,
            final(b).nodes@ == old(b).nodes@.push(self.add_node(n as int, from)),
    {
        let m: u32 = (n * self.cfg.d_model) as u32;
        let op = scaled_of(n as u32, self.cfg.d_model as u32, ONE);
        b.cell_step(op, Kernel::AddScale, Buf::Zero, from, Buf::H, m);
    }

    fn put_norm(&self, b: &mut Builder, n: usize, off0: u32, buf: Buf)
        requires
            old(b).wf(),
            old(b).slots@.len() < MAX_SLOTS,
        ensures
            final(b).wf(),
            final(b).slots@.len() == old(b).slots@.len() + 1,
            final(b).nodes@ == old(b).nodes@.push(self.norm_node(n as int, off0, buf)),
    {
        let op = norm_of(n as u32, self.cfg.d_model as u32, off0, self.eps);
        b.row_step(op, Kernel::RmsNorm, buf, row_count(n as u32, self.grid.max_groups));
    }

    fn put_normed(&self, b: &mut Builder, n: usize, off0: u32)
        requires
            self.fits(n as int),
            old(b).wf(),
            old(b).slots@.len() + 2 <= MAX_SLOTS,
        ensures
            final(b).wf(),
            final(b).slots@.len() == old(b).slots@.len() + 2,
            final(b).nodes@ == old(b).nodes@ + self.normed(n as int, off0),
    {
        let m: u32 = (n * self.cfg.d_model) as u32;
        let op = plain_of(n as u32, self.cfg.d_model as u32);
        b.cell_step(op, Kernel::Copy, Buf::H, Buf::Zero, Buf::X, m);
        self.put_norm(b, n, off0, Buf::X);
        assert(b.nodes@ =~= old(b).nodes@ + self.normed(n as int, off0));
    }

    fn put_qkv(&self, b: &mut Builder, r: &LayerRefs, il: usize, n: usize)
        requires
            self.wf(),
            self.fits(n as int),
            old(b).wf(),
            old(b).slots@.len() + 11 <= MAX_SLOTS,
            Self::runnable(*r, n as int),
        ensures
            final(b).wf(),
            final(b).slots@.len() <= old(b).slots@.len() + 11,
            final(b).nodes@ == old(b).nodes@ + self.qkv_nodes(*r, il as int, n as int),
    {
        let ghost before = b.nodes@;
        let d: usize = self.cfg.d_model;
        self.put_normed(b, n, r.ln1);
        let q = vblk_name(il, ".attn_q.weight");
        self.put_linear(b, q.as_str(), r.q, n, Buf::X, Buf::Q, d, d);
        let k = vblk_name(il, ".attn_k.weight");
        self.put_linear(b, k.as_str(), r.k, n, Buf::X, Buf::K, d, d);
        let v = vblk_name(il, ".attn_v.weight");
        self.put_linear(b, v.as_str(), r.v, n, Buf::X, Buf::V, d, d);
        assert(b.nodes@ =~= before + self.qkv_nodes(*r, il as int, n as int));
    }

    fn put_attn(&self, b: &mut Builder, r: &LayerRefs, p: &Patches, n: usize)
        requires
            self.wf(),
            self.fits(n as int),
            old(b).wf(),
            old(b).slots@.len() + 6 <= MAX_SLOTS,
            Self::runnable(*r, n as int),
            p.n == n,
        ensures
            final(b).wf(),
            final(b).slots@.len() <= old(b).slots@.len() + 6,
            final(b).nodes@ == old(b).nodes@ + self.attn_nodes(*r, *p),
    {
        let ghost before = b.nodes@;
        let rows: u32 = (n * self.cfg.n_heads) as u32;
        let hd: u32 = self.cfg.head_dim as u32;
        let nh: u32 = self.cfg.n_heads as u32;
        let g: u32 = row_count(rows, self.grid.max_groups);
        let rope = Op {
            n_rows: rows,
            dim: hd,
            off0: 0,
            off1: 0,
            f0: self.rope_theta,
            f1: 0,
            u0: nh,
            u1: p.nx as u32,
        };
        b.row_step(norm_of(rows, hd, r.q_norm, self.eps), Kernel::RmsNorm, Buf::Q, g);
        b.row_step(rope, Kernel::Rope2d, Buf::Q, g);
        b.row_step(norm_of(rows, hd, r.k_norm, self.eps), Kernel::RmsNorm, Buf::K, g);
        b.row_step(rope, Kernel::Rope2d, Buf::K, g);
        b.row_step(scaled_of(rows, hd, self.eps), Kernel::RmsNorm, Buf::V, g);
        let a = Attn {
            n_tokens: n as u32,
            n_heads: nh,
            n_kv_heads: nh,
            head_dim: hd,
            kv_dim: self.cfg.d_model as u32,
            base_pos: 0,
            window: 0,
            max_vis: n as u32,
            scale: ONE,
            bidi: 1,
        };
        b.attend(
            Slot::FixedAttention(a),
            Bind::Attn { q: Buf::Q, k: Buf::K, v: Buf::V, scores: Buf::Scores, out: Buf::Attn },
            nh,
            n as u32,
        );
        assert(b.nodes@ =~= before + self.attn_nodes(*r, *p));
    }

    fn put_out(&self, b: &mut Builder, r: &LayerRefs, il: usize, n: usize)
        requires
            self.wf(),
            self.fits(n as int),
            old(b).wf(),
            old(b).slots@.len() + 5 <= MAX_SLOTS,
            Self::runnable(*r, n as int),
        ensures
            final(b).wf(),
            final(b).slots@.len() <= old(b).slots@.len() + 5,
            final(b).nodes@ == old(b).nodes@ + self.out_nodes(*r, il as int, n as int),
    {
        let ghost before = b.nodes@;
        let d: usize = self.cfg.d_model;
        let name = vblk_name(il, ".attn_out.weight");
        self.put_linear(b, name.as_str(), r.out, n, Buf::Attn, Buf::Proj, d, d);
        self.put_norm(b, n, r.attn_post_norm, Buf::Proj);
        self.put_add(b, n, Buf::Proj);
        assert(b.nodes@ =~= before + self.out_nodes(*r, il as int, n as int));
    }

    fn put_gated(&self, b: &mut Builder, r: &LayerRefs, il: usize, n: usize)
        requires
            self.wf(),
            self.fits(n as int),
            old(b).wf(),
            old(b).slots@.len() + 9 <= MAX_SLOTS,
            Self::runnable(*r, n as int),
        ensures
            final(b).wf(),
            final(b).slots@.len() <= old(b).slots@.len() + 9,
            final(b).nodes@ == old(b).nodes@ + self.gated_nodes(*r, il as int, n as int),
    {
        let ghost before = b.nodes@;
        let d: usize = self.cfg.d_model;
        let f: usize = self.cfg.ffn_dim;
        self.put_normed(b, n, r.ln2);
        let gate = vblk_name(il, ".ffn_gate.weight");
        self.put_linear(b, gate.as_str(), r.gate, n, Buf::X, Buf::Gate, f, d);
        let up = vblk_name(il, ".ffn_up.weight");
        self.put_linear(b, up.as_str(), r.up, n, Buf::X, Buf::Up, f, d);
        let m: u32 = (n * f) as u32;
        b.cell_step(plain_of(n as u32, f as u32), Kernel::Geglu, Buf::Zero, Buf::Up, Buf::Gate, m);
        assert(b.nodes@ =~= before + self.gated_nodes(*r, il as int, n as int));
    }

    fn put_down(&self, b: &mut Builder, r: &LayerRefs, il: usize, n: usize)
        requires
            self.wf(),
            self.fits(n as int),
            old(b).wf(),
            old(b).slots@.len() + 5 <= MAX_SLOTS,
            Self::runnable(*r, n as int),
        ensures
            final(b).wf(),
            final(b).slots@.len() <= old(b).slots@.len() + 5,
            final(b).nodes@ == old(b).nodes@ + self.down_nodes(*r, il as int, n as int),
    {
        let ghost before = b.nodes@;
        let d: usize = self.cfg.d_model;
        let f: usize = self.cfg.ffn_dim;
        let down = vblk_name(il, ".ffn_down.weight");
        self.put_linear(b, down.as_str(), r.down, n, Buf::Gate, Buf::Proj, d, f);
        self.put_norm(b, n, r.ffn_post_norm, Buf::Proj);
        self.put_add(b, n, Buf::Proj);
        assert(b.nodes@ =~= before + self.down_nodes(*r, il as int, n as int));
    }

    #[verifier::spinoff_prover]
    #[verifier::rlimit(40)]
    fn put_layer(&self, b: &mut Builder, il: usize, p: &Patches) -> (r: Result<(), PlanError>)
        requires
            self.wf(),
            self.fits(p.n as int),
            old(b).wf(),
            old(b).slots@.len() + 36 <= MAX_SLOTS,
        ensures
            match r {
                Ok(_) => final(b).wf() && final(b).slots@.len() <= old(b).slots@.len() + 36
                    && first_error(self.layer_errors(il as int, p.n as int)) is None
                    && final(b).nodes@ == old(b).nodes@ + self.layer_nodes(il as int, *p),
                Err(e) => first_error(self.layer_errors(il as int, p.n as int)) == Some(e@),
            },
    {
        let refs = self.layer_refs(il, p.n)?;
        let ghost start = b.nodes@;
        self.put_qkv(b, &refs, il, p.n);
        self.put_attn(b, &refs, p, p.n);
        self.put_out(b, &refs, il, p.n);
        self.put_gated(b, &refs, il, p.n);
        self.put_down(b, &refs, il, p.n);
        proof {
            lemma_five(
                start,
                self.qkv_nodes(refs, il as int, p.n as int),
                self.attn_nodes(refs, *p),
                self.out_nodes(refs, il as int, p.n as int),
                self.gated_nodes(refs, il as int, p.n as int),
                self.down_nodes(refs, il as int, p.n as int),
            );
        }
        Ok(())
    }

    fn put_pool(&self, b: &mut Builder, h: Handle, p: &Patches)
        requires
            self.wf(),
            old(b).wf(),
            old(b).slots@.len() + 3 <= MAX_SLOTS,
            p.n_out * self.cfg.d_model <= usize::MAX,
            h == self.weight("mm.input_projection.weight"@),
            matvec_kernel(h.ty, p.n_out as u32) is Some,
        ensures
            final(b).wf(),
            final(b).slots@.len() == old(b).slots@.len() + 3,
            final(b).nodes@ == old(b).nodes@ + self.pool_nodes(*p),
    {
        let m: u32 = p.n_out as u32;
        let d: u32 = self.cfg.d_model as u32;
        let op = Op {
            n_rows: m,
            dim: d,
            off0: 0,
            off1: 0,
            f0: self.sqrt_d,
            f1: 0,
            u0: self.cfg.n_merge as u32,
            u1: p.nx as u32,
        };
        let c: u32 = (p.n_out * self.cfg.d_model) as u32;
        b.cell_step(op, Kernel::PoolAvg, Buf::H, Buf::Zero, Buf::Pooled, c);
        b.row_step(
            scaled_of(m, d, self.eps),
            Kernel::RmsNorm,
            Buf::Pooled,
            row_count(m, self.grid.max_groups),
        );
        b.project(self.grid, h, d, self.cfg.proj_dim as u32, m, Buf::Pooled, Buf::Out);
        assert(b.nodes@ =~= old(b).nodes@ + self.pool_nodes(*p));
    }

    /// An image of `w` by `h` pixels can be counted.
    pub open spec fn takes(&self, w: int, h: int) -> bool {
        &&& self.wf()
        &&& w * h <= usize::MAX
        &&& self.grid_of(w, h) matches Ok(p) ==> self.fits(p.n as int)
    }

    /// Whether an image of `w` by `h` pixels can be counted.
    pub fn can_encode(&self, w: usize, h: usize) -> (r: bool)
        ensures
            r == self.takes(w as int, h as int),
    {
        let c = &self.cfg;
        if self.grid.tile == 0 || c.n_layers > (MAX_SLOTS - 64) / 64 || c.patch_size == 0 || c.n_merge
            == 0 || !within(w, h) {
            return false;
        }
        match self.patch_grid(w, h) {
            Err(_) => true,
            Ok(p) => match c.patch_size.checked_mul(c.patch_size) {
                None => false,
                Some(area) => within(area, 3) && within(p.n, area * 3) && within(p.n, c.d_model)
                    && within(p.n, c.ffn_dim) && within(p.n, c.n_heads),
            },
        }
    }

    /// Plan the encoding of one prepared image of `w` by `h` pixels into
    /// residual-stream rows. A tower whose plan needs more uniform slots than
    /// there are is refused.
    #[verifier::rlimit(60)]
    pub fn encode(&self, w: usize, h: usize) -> (r: Result<
        (Patches, Vec<Dispatch>, Vec<Slot>),
        PlanError,
    >)
        requires
            self.takes(w as int, h as int),
        ensures
            match self.grid_of(w as int, h as int) {
                Err(f) => r matches Err(e) && e@ == f,
                Ok(p) => match first_error(self.errors(p)) {
                    Some(f) => r matches Err(e) && e@ == f,
                    None => {
                        let l = lower(self.nodes(p));
                        if l.slots.len() > TOWER_SLOTS {
                            r matches Err(e) && e@ == PlanErrorView::TooManySlots(
                                l.slots.len() as int,
                            )
                        } else {
                            r matches Ok((q, plan, slots)) && q == p && plan@ == l.plan && slots@
                                == l.slots
                        }
                    },
                },
            },
    {
        let p = self.patch_grid(w, h)?;
        proof {
            assert(self.fits(p.n as int));
            assert(p.n_out * self.cfg.d_model <= p.n * self.cfg.d_model) by (nonlinear_arith)
                requires
                    p.n_out <= p.n,
            ;
        }
        let ghost head = seq![self.weight_error("v.patch_embd.weight"@, p.n as int)];
        proof {
            lemma_first_error_concat(head, self.errors_from(0, p));
        }
        let patch = match self.weights.projection("v.patch_embd.weight", p.n as u32) {
            Ok(x) => x,
            Err(e) => {
                proof {
                    lemma_first_error(head, 0);
                }
                return Err(e);
            },
        };
        proof {
            lemma_no_error(head);
        }
        let mut b = Builder::new();
        let width: usize = self.cfg.patch_size * self.cfg.patch_size * 3;
        let d: usize = self.cfg.d_model;
        self.put_linear(&mut b, "v.patch_embd.weight", patch, p.n, Buf::X, Buf::H, d, width);
        self.put_add(&mut b, p.n, Buf::Pos);
        assert(b.nodes@ =~= self.nodes_to(0, p));
        let mut il: usize = 0;
        while il < self.cfg.n_layers
            invariant
                il <= self.cfg.n_layers,
                self.wf(),
                self.fits(p.n as int),
                b.wf(),
                b.slots@.len() <= 4 + 36 * il,
                b.nodes@ == self.nodes_to(il as int, p),
                first_error(self.errors(p)) == first_error(self.errors_from(il as int, p)),
                self.grid_of(w as int, h as int) == Ok::<Patches, PlanErrorView>(p),
            decreases self.cfg.n_layers - il,
        {
            proof {
                lemma_first_error_concat(
                    self.layer_errors(il as int, p.n as int),
                    self.errors_from(il + 1, p),
                );
            }
            self.put_layer(&mut b, il, &p)?;
            il = il + 1;
        }
        let ghost last = self.errors_from(il as int, p);
        let hw = match self.weights.projection("mm.input_projection.weight", p.n_out as u32) {
            Ok(x) => x,
            Err(e) => {
                proof {
                    lemma_first_error(last, 0);
                }
                return Err(e);
            },
        };
        proof {
            lemma_no_error(last);
        }
        self.put_pool(&mut b, hw, &p);
        assert(b.nodes@ =~= self.nodes(p));
        if b.slots.len() > TOWER_SLOTS {
            return Err(PlanError::TooManySlots(b.slots.len()));
        }
        Ok((p, b.plan, b.slots))
    }
}

// ---------------------------------------------------------------------------
// What is resident
// ---------------------------------------------------------------------------
/// The projections of one layer.
pub open spec fn layer_weights(il: int) -> Seq<Seq<char>> {
    seq![
        vblk(il, ".attn_q.weight"@),
        vblk(il, ".attn_k.weight"@),
        vblk(il, ".attn_v.weight"@),
        vblk(il, ".attn_out.weight"@),
        vblk(il, ".ffn_gate.weight"@),
        vblk(il, ".ffn_up.weight"@),
        vblk(il, ".ffn_down.weight"@),
    ]
}

/// The patch filter and the projector, then the projections of `n` layers.
pub open spec fn weights_to(n: int) -> Seq<Seq<char>>
    decreases n,
{
    if n <= 0 {
        seq!["v.patch_embd.weight"@, "mm.input_projection.weight"@]
    } else {
        weights_to(n - 1) + layer_weights(n - 1)
    }
}

/// The tensors that go to the weight buffers.
pub fn arena_tensors(n_layers: usize) -> (names: Vec<String>)
    ensures
        text::views(names@) == weights_to(n_layers as int),
{
    let mut names: Vec<String> = Vec::new();
    names.push("v.patch_embd.weight".to_owned());
    names.push("mm.input_projection.weight".to_owned());
    assert(text::views(names@) =~= weights_to(0));
    let mut il: usize = 0;
    while il < n_layers
        invariant
            il <= n_layers,
            text::views(names@) == weights_to(il as int),
        decreases n_layers - il,
    {
        let ghost before = text::views(names@);
        names.push(vblk_name(il, ".attn_q.weight"));
        names.push(vblk_name(il, ".attn_k.weight"));
        names.push(vblk_name(il, ".attn_v.weight"));
        names.push(vblk_name(il, ".attn_out.weight"));
        names.push(vblk_name(il, ".ffn_gate.weight"));
        names.push(vblk_name(il, ".ffn_up.weight"));
        names.push(vblk_name(il, ".ffn_down.weight"));
        assert(text::views(names@) =~= before + layer_weights(il as int));
        il = il + 1;
    }
    names
}

/// The gains of one layer, in the order in which they are laid out.
pub open spec fn layer_gains(il: int) -> Seq<Seq<char>> {
    seq![
        vblk(il, ".ln1.weight"@),
        vblk(il, ".ln2.weight"@),
        vblk(il, ".attn_post_norm.weight"@),
        vblk(il, ".ffn_post_norm.weight"@),
        vblk(il, ".attn_q_norm.weight"@),
        vblk(il, ".attn_k_norm.weight"@),
    ]
}

/// The gains of `n` layers.
pub open spec fn gains_to(n: int) -> Seq<Seq<char>>
    decreases n,
{
    if n <= 0 {
        Seq::empty()
    } else {
        gains_to(n - 1) + layer_gains(n - 1)
    }
}

/// The gain tensors, in the order in which they are laid out.
pub fn param_names(n_layers: usize) -> (names: Vec<String>)
    ensures
        text::views(names@) == gains_to(n_layers as int),
{
    let mut names: Vec<String> = Vec::new();
    assert(text::views(names@) =~= gains_to(0));
    let mut il: usize = 0;
    while il < n_layers
        invariant
            il <= n_layers,
            text::views(names@) == gains_to(il as int),
        decreases n_layers - il,
    {
        let ghost before = text::views(names@);
        names.push(vblk_name(il, ".ln1.weight"));
        names.push(vblk_name(il, ".ln2.weight"));
        names.push(vblk_name(il, ".attn_post_norm.weight"));
        names.push(vblk_name(il, ".ffn_post_norm.weight"));
        names.push(vblk_name(il, ".attn_q_norm.weight"));
        names.push(vblk_name(il, ".attn_k_norm.weight"));
        assert(text::views(names@) =~= before + layer_gains(il as int));
        il = il + 1;
    }
    names
}

/// Scratch for one image of `n` patches that pool to `n_out`, in bytes.
pub open spec fn scratch_sizes(c: Config, n: int, n_out: int) -> Seq<(Buf, int)> {
    let d = c.d_model as int;
    seq![
        (Buf::X, at_least_4(n * d * 4)),
        (Buf::H, at_least_4(n * d * 4)),
        (Buf::Pos, at_least_4(n * d * 4)),
        (Buf::Q, at_least_4(n * d * 4)),
        (Buf::K, at_least_4(n * d * 4)),
        (Buf::V, at_least_4(n * d * 4)),
        (Buf::Attn, at_least_4(n * d * 4)),
        (Buf::Proj, at_least_4(n * d * 4)),
        (Buf::Gate, at_least_4(n * c.ffn_dim * 4)),
        (Buf::Up, at_least_4(n * c.ffn_dim * 4)),
        (Buf::Scores, at_least_4(n * c.n_heads * n * 4)),
        (Buf::Pooled, at_least_4(n_out * d * 4)),
        (Buf::Out, at_least_4(n_out * c.proj_dim * 4)),
    ]
}

/// No buffer is empty.
pub open spec fn at_least_4(n: int) -> int {
    if n < 4 {
        4
    } else {
        n
    }
}

fn scratch(a: usize, b: usize) -> (r: u64)
    requires
        at_least_4(a * b * 4) <= usize::MAX,
    ensures
        r == at_least_4(a * b * 4),
{
    let n: u64 = float_rows(a, b);
    if n < 4 {
        4
    } else {
        n
    }
}

/// The products that sizing multiplies out fit.
pub open spec fn sizable(c: Config, n: int, n_out: int) -> bool {
    &&& n * c.n_heads <= usize::MAX
    &&& sizes_fit(scratch_sizes(c, n, n_out))
}

/// Whether the scratch for an image can be sized.
pub fn can_size(c: &Config, n: usize, n_out: usize) -> (r: bool)
    ensures
        r == sizable(*c, n as int, n_out as int),
{
    let ghost all = scratch_sizes(*c, n as int, n_out as int);
    let r: bool = within(n, c.n_heads) && bytes_fit(n, c.d_model) && bytes_fit(n, c.ffn_dim)
        && bytes_fit(n * c.n_heads, n) && bytes_fit(n_out, c.d_model) && bytes_fit(
        n_out,
        c.proj_dim,
    );
    proof {
        if r {
            assert(sizes_fit(all));
        } else if sizable(*c, n as int, n_out as int) {
            assert(all[0].1 <= usize::MAX && all[8].1 <= usize::MAX && all[10].1 <= usize::MAX);
            assert(all[11].1 <= usize::MAX && all[12].1 <= usize::MAX);
        }
    }
    r
}

/// Scratch for one image of `n` patches that pool to `n_out`, in bytes.
pub fn scratch_buffers(c: &Config, n: usize, n_out: usize) -> (v: Vec<(Buf, u64)>)
    requires
        sizable(*c, n as int, n_out as int),
    ensures
        size_views(v@) == scratch_sizes(*c, n as int, n_out as int),
{
    let ghost all = scratch_sizes(*c, n as int, n_out as int);
    proof {
        assert(all[0].1 <= usize::MAX && all[8].1 <= usize::MAX && all[10].1 <= usize::MAX);
        assert(all[11].1 <= usize::MAX && all[12].1 <= usize::MAX);
        assert(0 <= n * c.n_heads) by (nonlinear_arith);
    }
    let wide: u64 = scratch(n, c.d_model);
    let ffn: u64 = scratch(n, c.ffn_dim);
    let mut v: Vec<(Buf, u64)> = Vec::new();
    v.push((Buf::X, wide));
    v.push((Buf::H, wide));
    v.push((Buf::Pos, wide));
    v.push((Buf::Q, wide));
    v.push((Buf::K, wide));
    v.push((Buf::V, wide));
    v.push((Buf::Attn, wide));
    v.push((Buf::Proj, wide));
    v.push((Buf::Gate, ffn));
    v.push((Buf::Up, ffn));
    v.push((Buf::Scores, scratch(n * c.n_heads, n)));
    v.push((Buf::Pooled, scratch(n_out, c.d_model)));
    v.push((Buf::Out, scratch(n_out, c.proj_dim)));
    assert(size_views(v@) =~= all);
    v
}

// ---------------------------------------------------------------------------
// What is uploaded per image
// ---------------------------------------------------------------------------
/// Where sample `i` of the patch rows stands in the planes. A row is one patch,
/// `[c][ky][kx]` within it, which is the filter's own layout.
pub open spec fn patch_source(p: int, w: int, h: int, nx: int, i: int) -> int {
    let row = p * p * 3;
    let (pi, at) = (i / row, i % row);
    let (c, ky, kx) = (at / (p * p), at % (p * p) / p, at % p);
    c * (w * h) + ((pi / nx) * p + ky) * w + (pi % nx) * p + kx
}

/// The image lowered to one row per patch.
pub open spec fn patch_rows(img: Seq<u32>, p: int, w: int, h: int) -> Seq<u32> {
    let nx = w / p;
    let ny = h / p;
    Seq::new((nx * ny * (p * p * 3)) as nat, |i: int| img[patch_source(p, w, h, nx, i)])
}

/// The source of every sample is a sample of the image.
proof fn lemma_patch_source(p: int, w: int, h: int, i: int)
    requires
        p > 0,
        w >= 0,
        h >= 0,
        0 <= i < (w / p) * (h / p) * (p * p * 3),
    ensures
        0 <= i / (p * p * 3) < (w / p) * (h / p),
        w / p > 0,
        0 <= patch_source(p, w, h, w / p, i) < w * h * 3,
        0 <= i % (p * p * 3) / (p * p) < 3,
        0 <= i % (p * p * 3) % (p * p) / p < p,
        0 <= (i / (p * p * 3)) / (w / p) < h / p,
{
    let nx = w / p;
    let ny = h / p;
    let sq = p * p;
    let row = sq * 3;
    let pi = i / row;
    let at = i % row;
    assert(sq > 0) by (nonlinear_arith)
        requires
            p > 0,
            sq == p * p,
    ;
    assert(0 <= pi < nx * ny && 0 <= at < row) by (nonlinear_arith)
        requires
            row > 0,
            0 <= i < nx * ny * row,
            pi == i / row,
            at == i % row,
    ;
    assert(nx >= 0 && ny >= 0) by (nonlinear_arith)
        requires
            nx == w / p,
            ny == h / p,
            p > 0,
            w >= 0,
            h >= 0,
    ;
    assert(nx > 0) by (nonlinear_arith)
        requires
            0 < nx * ny,
            nx >= 0,
            ny >= 0,
    ;
    let (px, py) = (pi % nx, pi / nx);
    assert(0 <= px < nx && 0 <= py < ny) by (nonlinear_arith)
        requires
            nx > 0,
            0 <= pi < nx * ny,
            px == pi % nx,
            py == pi / nx,
    ;
    let c = at / sq;
    let rest = at % sq;
    assert(0 <= c < 3 && 0 <= rest < sq) by (nonlinear_arith)
        requires
            sq > 0,
            0 <= at < sq * 3,
            c == at / sq,
            rest == at % sq,
    ;
    let (ky, kx) = (rest / p, at % p);
    assert(0 <= ky < p && 0 <= kx < p) by (nonlinear_arith)
        requires
            p > 0,
            0 <= rest < p * p,
            ky == rest / p,
            kx == at % p,
    ;
    let x = px * p + kx;
    let y = py * p + ky;
    assert(0 <= x < w) by (nonlinear_arith)
        requires
            0 <= px < nx,
            0 <= kx < p,
            x == px * p + kx,
            nx == w / p,
            p > 0,
    ;
    assert(0 <= y < h) by (nonlinear_arith)
        requires
            0 <= py < ny,
            0 <= ky < p,
            y == py * p + ky,
            ny == h / p,
            p > 0,
    ;
    assert(0 <= c * (w * h) + y * w + x < w * h * 3) by (nonlinear_arith)
        requires
            0 <= c < 3,
            0 <= x < w,
            0 <= y < h,
    ;
}

/// Lower the image to one row per patch, so that the convolution becomes a
/// matrix product.
pub fn im2col(img: &[u32], p: usize, w: usize, h: usize) -> (out: Vec<u32>)
    requires
        p > 0,
        img@.len() == w * h * 3,
        (w as int / p as int) * (h as int / p as int) * (p * p * 3) <= usize::MAX,
        p * p * 3 <= usize::MAX,
    ensures
        out@ == patch_rows(img@, p as int, w as int, h as int),
{
    let total: usize = img.len();
    let nx: usize = w / p;
    let ny: usize = h / p;
    let ghost all = patch_rows(img@, p as int, w as int, h as int);
    proof {
        assert(0 <= p * p && p <= p * p) by (nonlinear_arith)
            requires
                p > 0,
        ;
        let r = p * p * 3;
        assert(0 <= nx * ny <= nx * ny * r) by (nonlinear_arith)
            requires
                nx >= 0,
                ny >= 0,
                r >= 1,
        ;
        assert(0 <= w * h) by (nonlinear_arith);
        assert(nx * ny * r >= 0);
    }
    let sq: usize = p * p;
    let row: usize = sq * 3;
    let n: usize = nx * ny * row;
    let mut out: Vec<u32> = Vec::new();
    let mut i: usize = 0;
    while i < n
        invariant
            i <= n,
            p > 0,
            sq == p * p,
            row == p * p * 3,
            nx == w as int / p as int,
            ny == h as int / p as int,
            n == nx * ny * (p * p * 3),
            img@.len() == w * h * 3,
            total == img@.len(),
            all == patch_rows(img@, p as int, w as int, h as int),
            out@ == all.take(i as int),
        decreases n - i,
    {
        proof {
            lemma_patch_source(p as int, w as int, h as int, i as int);
            lemma_patch_index(p as int, w as int, h as int, i as int);
        }
        let pi: usize = i / row;
        let at: usize = i % row;
        let y: usize = pi / nx * p + at % sq / p;
        let x: usize = pi % nx * p + at % p;
        let src: usize = at / sq * (w * h) + y * w + x;
        assert(src == patch_source(p as int, w as int, h as int, nx as int, i as int));
        out.push(img[src]);
        i = i + 1;
        assert(out@ =~= all.take(i as int));
    }
    assert(out@ =~= all);
    out
}

/// The parts of a source position are no larger than the image.
proof fn lemma_patch_index(p: int, w: int, h: int, i: int)
    requires
        p > 0,
        w >= 0,
        h >= 0,
        0 <= i < (w / p) * (h / p) * (p * p * 3),
    ensures
        ({
            let (pi, at, nx) = (i / (p * p * 3), i % (p * p * 3), w / p);
            let y = pi / nx * p + at % (p * p) / p;
            let x = pi % nx * p + at % p;
            &&& 0 <= pi / nx * p <= y <= h <= w * h * 3
            &&& 0 <= pi % nx * p <= x <= w <= w * h * 3
            &&& 0 <= w * h <= w * h * 3
            &&& 0 <= at / (p * p) * (w * h) <= w * h * 3
            &&& 0 <= y * w <= w * h
            &&& 0 <= at / (p * p) * (w * h) + y * w <= w * h * 3
            &&& patch_source(p, w, h, nx, i) == at / (p * p) * (w * h) + y * w + x
        }),
{
    lemma_patch_source(p, w, h, i);
    let (pi, at, nx, ny) = (i / (p * p * 3), i % (p * p * 3), w / p, h / p);
    let (px, py) = (pi % nx, pi / nx);
    let (ky, kx) = (at % (p * p) / p, at % p);
    let c = at / (p * p);
    let (y, x) = (py * p + ky, px * p + kx);
    assert(0 <= px < nx && 0 <= kx < p) by (nonlinear_arith)
        requires
            nx > 0,
            p > 0,
            px == pi % nx,
            kx == at % p,
    ;
    assert(0 <= py * p <= y < h) by (nonlinear_arith)
        requires
            0 <= py < ny,
            0 <= ky < p,
            y == py * p + ky,
            ny == h / p,
            p > 0,
    ;
    assert(0 <= px * p <= x < w) by (nonlinear_arith)
        requires
            0 <= px < nx,
            0 <= kx < p,
            x == px * p + kx,
            nx == w / p,
            p > 0,
    ;
    assert(h <= w * h && w <= w * h && 0 <= y * w <= w * h && 0 <= c * (w * h) <= 2 * (w * h)
        && y * w + w <= w * h) by (nonlinear_arith)
        requires
            0 < w,
            0 < h,
            0 <= y < h,
            0 <= c < 3,
    ;
}

/// The two rows of the position table that patch `i` sums: the one of its column
/// in the x table, the one of its row in the y table behind it.
pub open spec fn position_row(nx: int, len: int, i: int) -> (int, int) {
    (i % nx, len + i / nx)
}

/// The two table rows of each patch, in order.
pub fn position_rows(nx: usize, ny: usize, len: usize) -> (v: Vec<(usize, usize)>)
    requires
        nx * ny <= usize::MAX,
        len + ny <= usize::MAX,
    ensures
        v@.len() == nx * ny,
        forall|i: int|
            0 <= i < nx * ny ==> {
                let want = position_row(nx as int, len as int, i);
                &&& (#[trigger] v@[i]).0 == want.0
                &&& v@[i].1 == want.1
                &&& v@[i].0 < nx
                &&& len <= v@[i].1 < len + ny
            },
{
    let n: usize = nx * ny;
    let mut v: Vec<(usize, usize)> = Vec::new();
    let mut i: usize = 0;
    while i < n
        invariant
            i <= n,
            n == nx * ny,
            len + ny <= usize::MAX,
            v@.len() == i,
            forall|k: int|
                0 <= k < i ==> {
                    let want = position_row(nx as int, len as int, k);
                    &&& (#[trigger] v@[k]).0 == want.0
                    &&& v@[k].1 == want.1
                    &&& v@[k].0 < nx
                    &&& len <= v@[k].1 < len + ny
                },
        decreases n - i,
    {
        assert(nx > 0 && 0 <= i as int % nx as int && (i as int % nx as int) < nx && 0 <= i as int
            / nx as int && (i as int / nx as int) < ny) by (nonlinear_arith)
            requires
                0 <= i < nx * ny,
                nx >= 0,
                ny >= 0,
        ;
        v.push((i % nx, len + i / nx));
        i = i + 1;
    }
    v
}

// ---------------------------------------------------------------------------
// Calibration ranges
// ---------------------------------------------------------------------------
/// The first element of the named single-precision tensor, as bits.
pub open spec fn scalar(g: Gguf, name: Seq<char>) -> Option<u32> {
    match tensor_named(g.header@, name) {
        Some(t) => if t.ty == GgmlType::F32 && g.data_of(t).len() >= 4 {
            Some(le32(g.data_of(t).take(4)))
        } else {
            None
        },
        None => None,
    }
}

pub open spec fn scalar_or(g: Gguf, name: Seq<char>, default: u32) -> u32 {
    match scalar(g, name) {
        Some(v) => v,
        None => default,
    }
}

/// Positive and negative infinity, as bits.
pub const INFINITY: u32 = 0x7F80_0000;

pub const NEG_INFINITY: u32 = 0xFF80_0000;

/// The range beside the weight whose name without its ending is `stem`.
pub open spec fn clamp_beside(g: Gguf, stem: Seq<char>) -> Clamp {
    Clamp {
        in_lo: scalar_or(g, stem + ".input_min"@, NEG_INFINITY),
        in_hi: scalar_or(g, stem + ".input_max"@, INFINITY),
        out_lo: scalar_or(g, stem + ".output_min"@, NEG_INFINITY),
        out_hi: scalar_or(g, stem + ".output_max"@, INFINITY),
    }
}

/// The ranges of the first `n` tensors. A weight with no scalars beside it does
/// not appear.
pub open spec fn clamps_to(g: Gguf, n: int) -> Map<Seq<char>, Clamp>
    decreases n,
{
    if n <= 0 {
        Map::empty()
    } else {
        let before = clamps_to(g, n - 1);
        let name = g.header@.tensors[n - 1].name;
        match text::without_suffix(name, ".weight"@) {
            Some(stem) => if clamp_beside(g, stem).bounds() {
                before.insert(name, clamp_beside(g, stem))
            } else {
                before
            },
            None => before,
        }
    }
}

fn scalar_of(g: &Gguf, stem: &String, suffix: &str, default: u32) -> (r: u32)
    requires
        g.wf(),
    ensures
        r == scalar_or(*g, stem@ + suffix@, default),
{
    let mut name = stem.clone();
    name.push_str(suffix);
    match g.tensor_opt(name.as_str()) {
        Some(t) => {
            proof {
                lemma_named(g.header@, name@, t.info@);
            }
            if t.info.ty == GgmlType::F32 && t.data.len() >= 4 {
                assert(t.data@.take(4) =~= seq![t.data@[0], t.data@[1], t.data@[2], t.data@[3]]);
                let mut c = Cursor::new(t.data);
                match c.u32() {
                    Ok(v) => {
                        assert(t.data@.subrange(0, 4) =~= t.data@.take(4));
                        v
                    },
                    Err(_) => default,
                }
            } else {
                default
            }
        },
        None => {
            assert(tensor_named(g.header@, name@) is None);
            default
        },
    }
}

/// Collect the per-weight calibration ranges.
pub fn clamp_table(g: &Gguf) -> (out: StringHashMap<Clamp>)
    requires
        g.wf(),
    ensures
        out@ == clamps_to(*g, g.header@.tensors.len() as int),
{
    let mut out: StringHashMap<Clamp> = StringHashMap::new();
    let n: usize = g.header.tensors.len();
    let mut i: usize = 0;
    while i < n
        invariant
            i <= n,
            n == g.header@.tensors.len(),
            n == g.header.tensors@.len(),
            g.wf(),
            out@ == clamps_to(*g, i as int),
        decreases n - i,
    {
        let name = &g.header.tensors[i].name;
        assert(g.header@.tensors[i as int].name == name@);
        match text::strip_suffix(name.as_str(), ".weight") {
            Some(stem) => {
                let c = Clamp {
                    in_lo: scalar_of(g, &stem, ".input_min", NEG_INFINITY),
                    in_hi: scalar_of(g, &stem, ".input_max", INFINITY),
                    out_lo: scalar_of(g, &stem, ".output_min", NEG_INFINITY),
                    out_hi: scalar_of(g, &stem, ".output_max", INFINITY),
                };
                if c.any() {
                    out.insert(name.clone(), c);
                }
            },
            None => {},
        }
        i = i + 1;
    }
    out
}

} // verus!
