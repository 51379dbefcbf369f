//! Dispatch grids and kernel choice.

use crate::gguf::GgmlType;
use vstd::prelude::*;

verus! {

/// Threads cooperating on one output row. Must equal the hardware subgroup width
/// for the subgroup reduction to be selected.
pub const LANES: u32 = 32;

/// Rows per workgroup.
pub const ROWS_PER_GROUP: u32 = 8;

/// Default tokens per dispatch of the tiled (prefill) kernels.
pub const TOKEN_TILE: u32 = 2;

/// Threads per workgroup of the elementwise kernels.
pub const WG_OPS: u32 = 256;

/// Workgroups per grid dimension.
pub const MAX_GRID: u32 = 65535;

/// `n / d`, rounded up.
pub open spec fn ceil_div(n: int, d: int) -> int {
    (n + d - 1) / d
}

/// `n / d`, rounded up.
pub fn div_up(n: u32, d: u32) -> (r: u32)
    requires
        d > 0,
    ensures
        r == ceil_div(n as int, d as int),
        (r - 1) * d < n <= r * d,
{
    let q: u32 = n / d;
    let rem: u32 = n % d;
    proof {
        let (ni, di) = (n as int, d as int);
        vstd::arithmetic::div_mod::lemma_fundamental_div_mod(ni, di);
        let qq: int = q as int;
        assert(ni == qq * di + rem) by (nonlinear_arith)
            requires
                ni == di * (ni / di) + ni % di,
                qq == ni / di,
                rem == ni % di,
        ;
        if rem == 0 {
            assert(ni + di - 1 == qq * di + (di - 1));
            vstd::arithmetic::div_mod::lemma_fundamental_div_mod_converse(
                ni + di - 1,
                di,
                qq,
                di - 1,
            );
            assert((qq - 1) * di == qq * di - di) by (nonlinear_arith);
        } else {
            assert((qq + 1) * di == qq * di + di) by (nonlinear_arith);
            vstd::arithmetic::div_mod::lemma_fundamental_div_mod_converse(
                ni + di - 1,
                di,
                qq + 1,
                rem - 1,
            );
            assert(qq + 1 <= u32::MAX) by (nonlinear_arith)
                requires
                    qq * di + rem <= u32::MAX,
                    rem > 0,
                    di >= 1,
                    di == 1 ==> rem == 0,
            ;
        }
    }
    if rem == 0 {
        q
    } else {
        q + 1
    }
}

pub open spec fn clamp(x: int, lo: int, hi: int) -> int {
    if x < lo {
        lo
    } else if x > hi {
        hi
    } else {
        x
    }
}

/// Workgroups for an elementwise pass, clamped to the per-dimension dispatch
/// limit.
pub open spec fn cell_groups(n: int, wg: int) -> int {
    clamp(ceil_div(n, wg), 1, MAX_GRID as int)
}

/// Workgroups for an elementwise pass, clamped to the per-dimension dispatch
/// limit. The kernels grid-stride, so a clamped grid still covers the range.
pub fn cells(n: u32, wg: u32) -> (r: u32)
    requires
        wg > 0,
    ensures
        r == cell_groups(n as int, wg as int),
{
    let q: u32 = div_up(n, wg);
    if q < 1 {
        1
    } else if q > MAX_GRID {
        MAX_GRID
    } else {
        q
    }
}

pub open spec fn row_grid(out_dim: int, limit: int) -> int {
    clamp(
        ceil_div(out_dim, ROWS_PER_GROUP as int),
        1,
        if limit > 1 {
            limit
        } else {
            1
        },
    )
}

/// Rows are strided across the grid because the output projection can have more
/// of them than the per-dimension dispatch limit.
pub fn row_groups(out_dim: u32, limit: u32) -> (r: u32)
    ensures
        r == row_grid(out_dim as int, limit as int),
{
    let hi: u32 = if limit > 1 { limit } else { 1 };
    let q: u32 = div_up(out_dim, ROWS_PER_GROUP);
    if q < 1 {
        1
    } else if q > hi {
        hi
    } else {
        q
    }
}

pub open spec fn token_grid(n_tokens: int, tile: int) -> int {
    if ceil_div(n_tokens, tile) < 1 {
        1
    } else {
        ceil_div(n_tokens, tile)
    }
}

/// Dispatches needed along the token axis.
pub fn token_groups(n_tokens: u32, tile: u32) -> (r: u32)
    requires
        tile > 0,
    ensures
        r == token_grid(n_tokens as int, tile as int),
{
    let q: u32 = div_up(n_tokens, tile);
    if q < 1 {
        1
    } else {
        q
    }
}

pub open spec fn is_tile(v: u32) -> bool {
    v == 1 || v == 2 || v == 4 || v == 8 || v == 16 || v == 32
}

/// Tokens per tiled dispatch: what was asked for, where that is a tile the
/// kernels are built for, else the default.
pub fn token_tile(requested: Option<u32>) -> (r: u32)
    ensures
        r == match requested {
            Some(v) => if is_tile(v) {
                v
            } else {
                TOKEN_TILE
            },
            None => TOKEN_TILE,
        },
        is_tile(r),
{
    match requested {
        Some(v) => if v == 1 || v == 2 || v == 4 || v == 8 || v == 16 || v == 32 {
            v
        } else {
            TOKEN_TILE
        },
        None => TOKEN_TILE,
    }
}

/// The largest weight buffer a device accepts: the packer's own target, unless
/// one of the device's limits is lower.
pub fn arena_buffer_bytes(max_binding: u64, max_buffer: u64) -> (r: u64)
    ensures
        r <= crate::gpu::arena::TARGET_BUFFER_BYTES && r <= max_binding && r <= max_buffer,
        r == crate::gpu::arena::TARGET_BUFFER_BYTES || r == max_binding || r == max_buffer,
{
    let t: u64 = crate::gpu::arena::TARGET_BUFFER_BYTES;
    let t: u64 = if max_binding < t { max_binding } else { t };
    if max_buffer < t {
        max_buffer
    } else {
        t
    }
}

/// Whether a probe of one workgroup shows subgroups of exactly [`LANES`] threads
/// in thread order: `ids[i]` and `sizes[i]` are what thread `i` reported.
pub fn subgroup_layout_matches(ids: &[u32], sizes: &[u32]) -> (r: bool)
    ensures
        r == ((forall|i: int| 0 <= i < sizes@.len() ==> #[trigger] sizes@[i] == LANES) && (forall|
            i: int,
        |
            0 <= i < ids@.len() ==> #[trigger] ids@[i] == (i as u32) % LANES)),
{
    let mut i: usize = 0;
    while i < sizes.len()
        invariant
            i <= sizes@.len(),
            forall|j: int| 0 <= j < i ==> #[trigger] sizes@[j] == LANES,
        decreases sizes@.len() - i,
    {
        if sizes[i] != LANES {
            return false;
        }
        i = i + 1;
    }
    let mut k: usize = 0;
    while k < ids.len()
        invariant
            k <= ids@.len(),
            forall|j: int| 0 <= j < k ==> #[trigger] ids@[j] == (j as u32) % LANES,
        decreases ids@.len() - k,
    {
        if ids[k] != (k as u32) % LANES {
            return false;
        }
        k = k + 1;
    }
    true
}

// ---------------------------------------------------------------------------
// Kernels
// ---------------------------------------------------------------------------
/// The compute kernels, by shader entry point.
#[derive(Debug, Clone, Copy, PartialEq, Eq, Structural)]
pub enum Kernel {
    RmsNorm,
    Geglu,
    AddScale,
    Scale,
    Copy,
    Rope,
    SoftCap,
    WriteCache,
    Swiglu,
    MulSilu,
    MulSigmoid,
    SplitHalf,
    RopePartial,
    Rope2d,
    ClampRange,
    PoolAvg,
    ScoresPass,
    SoftmaxPass,
    WeightedV,
    ConvSilu,
    ConvShift,
    ConvCommit,
    L2normQk,
    DeltaRecur,
    /// Matrix times vectors, for one weight type; `tiled` takes several tokens
    /// per dispatch.
    Matvec { ty: GgmlType, tiled: bool },
    /// Embedding gather, for one weight type.
    Embed { ty: GgmlType },
}

/// The matvec kernel for a weight type. One token takes the decode kernel, whose
/// accumulator is a scalar rather than a tile array.
pub open spec fn matvec_kernel(ty: GgmlType, n_tokens: u32) -> Option<Kernel> {
    if ty == GgmlType::F16 {
        None
    } else {
        Some(Kernel::Matvec { ty, tiled: n_tokens > 1 })
    }
}

/// The matvec kernel for a weight type, if there is one.
pub fn pipeline_for(ty: GgmlType, n_tokens: u32) -> (r: Option<Kernel>)
    ensures
        r == matvec_kernel(ty, n_tokens),
{
    match ty {
        GgmlType::F16 => None,
        _ => Some(Kernel::Matvec { ty, tiled: n_tokens > 1 }),
    }
}

pub open spec fn embed_kernel(ty: GgmlType) -> Option<Kernel> {
    if ty == GgmlType::Q6K || ty == GgmlType::F32 || ty == GgmlType::Q8_0 {
        Some(Kernel::Embed { ty })
    } else {
        None
    }
}

/// The embedding-gather kernel for the type of the embedding table, if there is
/// one.
pub fn embed_for(ty: GgmlType) -> (r: Option<Kernel>)
    ensures
        r == embed_kernel(ty),
{
    match ty {
        GgmlType::Q6K | GgmlType::F32 | GgmlType::Q8_0 => Some(Kernel::Embed { ty }),
        _ => None,
    }
}

/// The entry point of a kernel in its shader module.
pub open spec fn entry_name(k: Kernel) -> Seq<char> {
    match k {
        Kernel::RmsNorm => "rms_norm"@,
        Kernel::Geglu => "geglu"@,
        Kernel::AddScale => "add_scale"@,
        Kernel::Scale => "scale"@,
        Kernel::Copy => "copy"@,
        Kernel::Rope => "rope"@,
        Kernel::SoftCap => "soft_cap"@,
        Kernel::WriteCache => "write_cache"@,
        Kernel::Swiglu => "swiglu"@,
        Kernel::MulSilu => "mul_silu"@,
        Kernel::MulSigmoid => "mul_sigmoid"@,
        Kernel::SplitHalf => "split_half"@,
        Kernel::RopePartial => "rope_partial"@,
        Kernel::Rope2d => "rope_2d"@,
        Kernel::ClampRange => "clamp_range"@,
        Kernel::PoolAvg => "pool_avg"@,
        Kernel::ScoresPass => "scores_pass"@,
        Kernel::SoftmaxPass => "softmax_pass"@,
        Kernel::WeightedV => "weighted_v"@,
        Kernel::ConvSilu => "conv_silu"@,
        Kernel::ConvShift => "conv_shift"@,
        Kernel::ConvCommit => "conv_commit"@,
        Kernel::L2normQk => "l2norm_qk"@,
        Kernel::DeltaRecur => "delta_recur"@,
        Kernel::Matvec { ty, tiled } => "matvec_"@ + suffix_name(ty) + if tiled {
            "_t"@
        } else {
            Seq::empty()
        },
        Kernel::Embed { ty } => "embed_"@ + suffix_name(ty),
    }
}

pub open spec fn suffix_name(ty: GgmlType) -> Seq<char> {
    match ty {
        GgmlType::F32 => "f32"@,
        GgmlType::F16 => "f16"@,
        GgmlType::Q8_0 => "q8_0"@,
        GgmlType::Q4K => "q4k"@,
        GgmlType::Q6K => "q6k"@,
        GgmlType::BF16 => "bf16"@,
    }
}

fn type_suffix(ty: GgmlType) -> (r: &'static str)
    ensures
        r@ == suffix_name(ty),
{
    match ty {
        GgmlType::F32 => "f32",
        GgmlType::F16 => "f16",
        GgmlType::Q8_0 => "q8_0",
        GgmlType::Q4K => "q4k",
        GgmlType::Q6K => "q6k",
        GgmlType::BF16 => "bf16",
    }
}

impl Kernel {
    /// The entry point of this kernel in its shader module.
    pub fn entry_point(&self) -> (r: String)
        ensures
            r@ == entry_name(*self),
    {
        let mut s = String::new();
        match self {
            Kernel::RmsNorm => s.push_str("rms_norm"),
            Kernel::Geglu => s.push_str("geglu"),
            Kernel::AddScale => s.push_str("add_scale"),
            Kernel::Scale => s.push_str("scale"),
            Kernel::Copy => s.push_str("copy"),
            Kernel::Rope => s.push_str("rope"),
            Kernel::SoftCap => s.push_str("soft_cap"),
            Kernel::WriteCache => s.push_str("write_cache"),
            Kernel::Swiglu => s.push_str("swiglu"),
            Kernel::MulSilu => s.push_str("mul_silu"),
            Kernel::MulSigmoid => s.push_str("mul_sigmoid"),
            Kernel::SplitHalf => s.push_str("split_half"),
            Kernel::RopePartial => s.push_str("rope_partial"),
            Kernel::Rope2d => s.push_str("rope_2d"),
            Kernel::ClampRange => s.push_str("clamp_range"),
            Kernel::PoolAvg => s.push_str("pool_avg"),
            Kernel::ScoresPass => s.push_str("scores_pass"),
            Kernel::SoftmaxPass => s.push_str("softmax_pass"),
            Kernel::WeightedV => s.push_str("weighted_v"),
            Kernel::ConvSilu => s.push_str("conv_silu"),
            Kernel::ConvShift => s.push_str("conv_shift"),
            Kernel::ConvCommit => s.push_str("conv_commit"),
            Kernel::L2normQk => s.push_str("l2norm_qk"),
            Kernel::DeltaRecur => s.push_str("delta_recur"),
            Kernel::Matvec { ty, tiled } => {
                s.push_str("matvec_");
                s.push_str(type_suffix(*ty));
                if *tiled {
                    s.push_str("_t");
                }
            },
            Kernel::Embed { ty } => {
                s.push_str("embed_");
                s.push_str(type_suffix(*ty));
            },
        }
        assert(s@ =~= entry_name(*self));
        s
    }
}

// ---------------------------------------------------------------------------
// Laws
// ---------------------------------------------------------------------------
proof fn lemma_ceil(n: int, d: int)
    requires
        0 <= n,
        0 < d,
    ensures
        (ceil_div(n, d) - 1) * d < n <= ceil_div(n, d) * d,
{
    let q = ceil_div(n, d);
    vstd::arithmetic::div_mod::lemma_fundamental_div_mod(n + d - 1, d);
    let r = (n + d - 1) % d;
    assert((q - 1) * d < n <= q * d) by (nonlinear_arith)
        requires
            n + d - 1 == d * q + r,
            0 <= r < d,
            0 < d,
    ;
}

/// A grid covers its range with as few groups as can be, but for at least one, unless that
/// would be more than a dimension may have.
pub proof fn grids_cover_their_range(n: int, wg: int, rows: int, limit: int, tokens: int, tile: int)
    requires
        0 <= n,
        0 < wg,
        0 <= rows,
        0 <= limit,
        0 <= tokens,
        0 < tile,
    ensures
        ({
            let g = cell_groups(n, wg);
            &&& 1 <= g <= 65535
            &&& n <= g * wg || g == 65535
            &&& g == 1 || (g - 1) * wg < n
        }),
        ({
            let g = row_grid(rows, limit);
            &&& 1 <= g
            &&& g <= limit || g == 1
            &&& rows <= g * 8 || g == limit || g == 1
            &&& g == 1 || (g - 1) * 8 < rows
        }),
        ({
            let g = token_grid(tokens, tile);
            &&& 1 <= g
            &&& tokens <= g * tile
            &&& g == 1 || (g - 1) * tile < tokens
        }),
{
    lemma_ceil(n, wg);
    lemma_ceil(rows, 8);
    lemma_ceil(tokens, tile);
    let (a, b) = (ceil_div(n, wg), ceil_div(tokens, tile));
    if a > 65535 {
        assert(65534 * wg < n) by (nonlinear_arith)
            requires
                (a - 1) * wg < n,
                a > 65535,
                wg > 0,
        ;
    }
    if a < 1 {
        assert(n <= wg) by (nonlinear_arith)
            requires
                n <= a * wg,
                a < 1,
                wg > 0,
                0 <= n,
        ;
    }
    if b < 1 {
        assert(tokens <= tile) by (nonlinear_arith)
            requires
                tokens <= b * tile,
                b < 1,
                tile > 0,
                0 <= tokens,
        ;
    }
}

/// A kernel for matrices is the one for the weight's own type, and takes several tokens
/// per dispatch where there are several. Half precision has none.
pub proof fn every_type_has_its_own_kernel(ty: GgmlType, n: u32)
    ensures
        ty == GgmlType::F16 <==> matvec_kernel(ty, n) is None,
        ty != GgmlType::F16 ==> matvec_kernel(ty, n) == Some(
            Kernel::Matvec { ty, tiled: n >= 2 },
        ),
        embed_kernel(ty) matches Some(k) ==> k == (Kernel::Embed { ty }),
{
}

} // verus!
