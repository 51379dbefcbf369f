//! Weight packing.
//!
//! All tensors are packed into a small number of large storage buffers. Two
//! constraints shape the layout:
//!
//! * A single binding is limited in size, so tensors are packed into several
//!   buffers and no tensor straddles a boundary.
//! * Shaders address weights as `array<u32>`, so every tensor starts on a 4-byte
//!   boundary, and Q6_K and Q8_0 blocks are repacked so that each *block* is
//!   u32-aligned too.

use crate::gguf::GgmlType;
use crate::header::{self, Header, HeaderView, TensorInfoView, TensorView};
use crate::quant;
use vstd::prelude::*;

verus! {

/// Bytes per Q6_K block once repacked for the GPU (210 on disk, padded).
pub const Q6K_GPU_BLOCK_BYTES: usize = 224;

/// Q4_K blocks are already 36 u32 and need no repacking.
pub const Q4K_GPU_BLOCK_BYTES: usize = 144;

/// Q8_0 blocks are 34 bytes on disk (f16 scale + 32 i8); repacked to 36 so the
/// scale word and every quant word are u32-aligned.
pub const Q8_0_GPU_BLOCK_BYTES: usize = 36;

/// Largest buffer the packer will build when the caller does not say.
pub const TARGET_BUFFER_BYTES: u64 = 3_221_225_472;

/// Tensor start alignment. It keeps every block type aligned and matches the
/// usual `min_storage_buffer_offset_alignment`.
pub const TENSOR_ALIGN: u64 = 256;

/// Where a tensor ended up.
#[derive(Debug, Clone, Copy, PartialEq, Eq, Structural)]
pub struct Handle {
    pub buffer: usize,
    /// Offset in u32 units, which is what the shaders index by.
    pub base_u32: u32,
    pub in_dim: u32,
    pub out_dim: u32,
    pub ty: GgmlType,
}

/// GPU-side size of `n` elements of `ty`.
pub open spec fn gpu_size(ty: GgmlType, n: nat) -> nat {
    match ty {
        GgmlType::Q4K => n / 256 * 144,
        GgmlType::Q6K => n / 256 * 224,
        GgmlType::F32 => n * 4,
        GgmlType::F16 | GgmlType::BF16 => n * 2,
        GgmlType::Q8_0 => n / 32 * 36,
    }
}

/// GPU-side size of `n` elements of `ty`.
pub fn gpu_bytes(ty: GgmlType, n: usize) -> (r: usize)
    requires
        gpu_size(ty, n as nat) <= usize::MAX,
    ensures
        r == gpu_size(ty, n as nat),
{
    match ty {
        GgmlType::Q4K => n / quant::QK_K * Q4K_GPU_BLOCK_BYTES,
        GgmlType::Q6K => n / quant::QK_K * Q6K_GPU_BLOCK_BYTES,
        GgmlType::F32 => n * 4,
        GgmlType::F16 | GgmlType::BF16 => n * 2,
        GgmlType::Q8_0 => n / quant::QK8_0 * Q8_0_GPU_BLOCK_BYTES,
    }
}

/// On-disk and GPU-side bytes per block.
pub open spec fn strides(ty: GgmlType) -> (int, int) {
    match ty {
        GgmlType::Q6K => (210, 224),
        GgmlType::Q8_0 => (34, 36),
        GgmlType::Q4K => (144, 144),
        GgmlType::F32 | GgmlType::F16 | GgmlType::BF16 => (1, 1),
    }
}

/// On-disk and GPU-side bytes per block, for a type's repack.
///
/// Both are 1 for the dense types, whose "blocks" are single bytes, so a dense
/// tensor can be split anywhere.
pub fn block_strides(ty: GgmlType) -> (r: (usize, usize))
    ensures
        r.0 == strides(ty).0,
        r.1 == strides(ty).1,
{
    match ty {
        GgmlType::Q6K => (quant::Q6K_BLOCK_BYTES, Q6K_GPU_BLOCK_BYTES),
        GgmlType::Q8_0 => (quant::Q8_0_BLOCK_BYTES, Q8_0_GPU_BLOCK_BYTES),
        GgmlType::Q4K => (quant::Q4K_BLOCK_BYTES, Q4K_GPU_BLOCK_BYTES),
        GgmlType::F32 | GgmlType::F16 | GgmlType::BF16 => (1, 1),
    }
}

/// Byte `k` of a repacked block, from the on-disk block that starts at `at`.
pub open spec fn repacked_byte(ty: GgmlType, src: Seq<u8>, at: int, k: int) -> u8 {
    match ty {
        GgmlType::Q6K => if k < 210 {
            src[at + k]
        } else {
            0
        },
        GgmlType::Q8_0 => if k < 2 {
            src[at + k]
        } else if k < 4 {
            0
        } else {
            src[at + k - 2]
        },
        _ => src[at + k],
    }
}

/// How many blocks are copied: as many as both sides hold.
pub open spec fn blocks_copied(ty: GgmlType, src: Seq<u8>, dst: Seq<u8>) -> int {
    if ty == GgmlType::Q6K || ty == GgmlType::Q8_0 {
        let (a, b) = (src.len() / strides(ty).0 as nat, dst.len() / strides(ty).1 as nat);
        if a < b {
            a as int
        } else {
            b as int
        }
    } else {
        src.len() as int
    }
}

/// Byte `i` of the destination after a copy.
pub open spec fn encoded_byte(ty: GgmlType, src: Seq<u8>, before: Seq<u8>, i: int) -> u8 {
    let (s, d) = if ty == GgmlType::Q4K {
        (1, 1)
    } else {
        strides(ty)
    };
    if i / d < blocks_copied(ty, src, before) {
        repacked_byte(ty, src, i / d * s, i % d)
    } else {
        before[i]
    }
}

/// Copy a whole number of blocks into `dst`, applying the type's repack.
///
/// Apart from [`encode_tensor`] so that a tensor too large to hold twice can be
/// moved a piece at a time. Both slices should cover the *same* block count,
/// which is what [`block_strides`] is for.
pub fn encode_blocks(ty: GgmlType, src: &[u8], dst: &mut [u8])
    requires
        ty != GgmlType::Q6K && ty != GgmlType::Q8_0 ==> src@.len() <= old(dst)@.len(),
    ensures
        final(dst)@ == Seq::new(
            old(dst)@.len(),
            |i: int| encoded_byte(ty, src@, old(dst)@, i),
        ),
{
    let ghost before = dst@;
    let n_src: usize = src.len();
    let n_dst: usize = dst.len();
    if ty == GgmlType::Q6K || ty == GgmlType::Q8_0 {
        let (s, d) = block_strides(ty);
        let a: usize = n_src / s;
        let b: usize = n_dst / d;
        let n: usize = if a < b { a } else { b };
        let mut i: usize = 0;
        assert(n * d <= n_dst) by (nonlinear_arith)
            requires
                n <= n_dst / d,
                d > 0,
        ;
        assert(n * s <= n_src) by (nonlinear_arith)
            requires
                n <= n_src / s,
                s > 0,
        ;
        let total: usize = n * d;
        while i < total
            invariant
                i <= total,
                total == n * d,
                total <= n_dst,
                n * s <= n_src,
                n_src == src@.len(),
                n_dst == dst@.len(),
                before.len() == n_dst,
                ty == GgmlType::Q6K || ty == GgmlType::Q8_0,
                s == strides(ty).0 && d == strides(ty).1,
                n == blocks_copied(ty, src@, before),
                forall|j: int| 0 <= j < i ==> #[trigger] dst@[j] == encoded_byte(ty, src@, before, j),
                forall|j: int| i <= j < n_dst ==> #[trigger] dst@[j] == before[j],
            decreases total - i,
        {
            let blk: usize = i / d;
            let k: usize = i % d;
            assert(blk < n && blk * s + s <= n * s) by (nonlinear_arith)
                requires
                    i < n * d,
                    blk == i / d,
                    d > 0,
                    s >= 0,
            ;
            let v: u8 = if ty == GgmlType::Q6K {
                if k < 210 {
                    src[blk * s + k]
                } else {
                    0
                }
            } else if k < 2 {
                src[blk * s + k]
            } else if k < 4 {
                0
            } else {
                src[blk * s + k - 2]
            };
            dst[i] = v;
            i = i + 1;
        }
        proof {
            assert forall|j: int| total <= j < n_dst implies #[trigger] dst@[j] == encoded_byte(
                ty,
                src@,
                before,
                j,
            ) by {
                assert(j / d as int >= n) by (nonlinear_arith)
                    requires
                        j >= n * d,
                        d > 0,
                ;
            }
            assert(dst@ =~= Seq::new(before.len(), |i: int| encoded_byte(ty, src@, before, i)));
        }
    } else {
        let mut i: usize = 0;
        while i < n_src
            invariant
                i <= n_src,
                n_src == src@.len(),
                n_src <= dst@.len(),
                dst@.len() == before.len(),
                ty != GgmlType::Q6K && ty != GgmlType::Q8_0,
                forall|j: int| 0 <= j < i ==> #[trigger] dst@[j] == src@[j],
                forall|j: int| i <= j < before.len() ==> #[trigger] dst@[j] == before[j],
            decreases n_src - i,
        {
            dst[i] = src[i];
            i = i + 1;
        }
        proof {
            assert forall|j: int| 0 <= j < before.len() implies #[trigger] dst@[j] == encoded_byte(
                ty,
                src@,
                before,
                j,
            ) by {
                assert(j / 1 == j && j % 1 == 0 && j / 1 * 1 == j);
            }
            assert(dst@ =~= Seq::new(before.len(), |i: int| encoded_byte(ty, src@, before, i)));
        }
    }
}

/// Copy one tensor into `dst`, applying the repack.
pub fn encode_tensor(t: &TensorView<'_>, dst: &mut [u8])
    requires
        t.info.ty != GgmlType::Q6K && t.info.ty != GgmlType::Q8_0 ==> t.data@.len() <= old(
            dst,
        )@.len(),
    ensures
        final(dst)@ == Seq::new(
            old(dst)@.len(),
            |i: int| encoded_byte(t.info.ty, t.data@, old(dst)@, i),
        ),
{
    encode_blocks(t.ty(), t.data, dst)
}

/// What a repack keeps: the payload of block `b` can be read back out of the
/// repacked bytes.
pub proof fn repack_keeps_payload(ty: GgmlType, src: Seq<u8>, before: Seq<u8>, b: int, k: int)
    requires
        ty == GgmlType::Q6K || ty == GgmlType::Q8_0,
        0 <= b < blocks_copied(ty, src, before),
        0 <= k < strides(ty).0,
    ensures
        ({
            let after = Seq::new(before.len(), |i: int| encoded_byte(ty, src, before, i));
            let at = if ty == GgmlType::Q8_0 && k >= 2 {
                k + 2
            } else {
                k
            };
            after[b * strides(ty).1 + at] == src[b * strides(ty).0 + k]
        }),
{
    let (s, d) = strides(ty);
    let at = if ty == GgmlType::Q8_0 && k >= 2 {
        k + 2
    } else {
        k
    };
    let i = b * d + at;
    assert(i / d == b && i % d == at && 0 <= i) by (nonlinear_arith)
        requires
            i == b * d + at,
            0 <= at < d,
            b >= 0,
    ;
    assert(i < before.len()) by (nonlinear_arith)
        requires
            i == b * d + at,
            0 <= at < d,
            b < before.len() as int / d,
            d > 0,
    ;
}

/// Why a packing was refused.
#[derive(Debug)]
pub enum PackError {
    /// The buffer target is below the tensor alignment.
    TargetTooSmall(u64),
    /// A named tensor is not in the table.
    NoTensor(String),
    /// A tensor is larger than the buffer limit. `size` saturates.
    TooLarge { name: String, size: u64, target: u64 },
}

#[verifier::ext_equal]
pub ghost enum PackErrorView {
    TargetTooSmall(u64),
    NoTensor(Seq<char>),
    TooLarge { name: Seq<char>, size: int, target: u64 },
}

impl View for PackError {
    type V = PackErrorView;

    open spec fn view(&self) -> PackErrorView {
        match self {
            PackError::TargetTooSmall(t) => PackErrorView::TargetTooSmall(*t),
            PackError::NoTensor(n) => PackErrorView::NoTensor(n@),
            PackError::TooLarge { name, size, target } => PackErrorView::TooLarge {
                name: name@,
                size: *size as int,
                target: *target,
            },
        }
    }
}

#[verifier::ext_equal]
pub ghost struct PlanView {
    pub handles: Seq<(Seq<char>, Handle)>,
    pub buffer_sizes: Seq<u64>,
}

/// GPU-side size of a tensor.
pub open spec fn tensor_gpu_size(t: TensorInfoView) -> nat {
    gpu_size(t.ty, t.elems())
}

/// A tensor that fits a buffer of `target` bytes.
pub open spec fn packable(t: TensorInfoView, target: u64) -> bool {
    header::multipliable(t.dims) && tensor_gpu_size(t) <= target
}

/// The next tensor goes behind the last one of the last buffer, aligned, if it
/// fits there; else it opens a new buffer.
pub open spec fn place(p: PlanView, name: Seq<char>, t: TensorInfoView, target: u64) -> PlanView {
    let size = tensor_gpu_size(t);
    let n = p.buffer_sizes.len();
    let start = header::aligned(p.buffer_sizes.last() as int, TENSOR_ALIGN as int);
    let fits = start + size <= target;
    let base = if fits {
        start
    } else {
        0
    };
    PlanView {
        handles: p.handles.push(
            (
                name,
                Handle {
                    buffer: if fits {
                        (n - 1) as usize
                    } else {
                        n as usize
                    },
                    base_u32: (base / 4) as u32,
                    in_dim: t.inner() as u32,
                    out_dim: t.outer() as u32,
                    ty: t.ty,
                },
            ),
        ),
        buffer_sizes: if fits {
            p.buffer_sizes.update(n - 1, (start + size) as u64)
        } else {
            p.buffer_sizes.push(size as u64)
        },
    }
}

/// The tensor of this name, if the table has one.
pub open spec fn tensor_named(h: HeaderView, name: Seq<char>) -> Option<TensorInfoView> {
    if exists|i: int| #[trigger] header::is_index_of(h.tensors, name, i) {
        Some(h.tensors[choose|i: int| #[trigger] header::is_index_of(h.tensors, name, i)])
    } else {
        None
    }
}

/// Place the tensors in order; the first that cannot be placed is the error.
pub open spec fn pack(h: HeaderView, names: Seq<Seq<char>>, target: u64) -> Result<
    PlanView,
    PackErrorView,
>
    decreases names.len(),
{
    if names.len() == 0 {
        if target < TENSOR_ALIGN {
            Err(PackErrorView::TargetTooSmall(target))
        } else {
            Ok(PlanView { handles: Seq::empty(), buffer_sizes: seq![0u64] })
        }
    } else {
        match pack(h, names.drop_last(), target) {
            Err(e) => Err(e),
            Ok(p) => match tensor_named(h, names.last()) {
                None => Err(PackErrorView::NoTensor(names.last())),
                Some(t) => if packable(t, target) {
                    Ok(place(p, names.last(), t, target))
                } else {
                    Err(
                        PackErrorView::TooLarge {
                            name: names.last(),
                            size: if header::multipliable(t.dims) {
                                header::saturate(tensor_gpu_size(t) as int)
                            } else {
                                u64::MAX as int
                            },
                            target,
                        },
                    )
                },
            },
        }
    }
}

/// Plans the packing before any GPU memory is touched, so allocation failures
/// surface as a clear error rather than a driver abort mid-upload.
pub struct Plan {
    pub handles: Vec<(String, Handle)>,
    pub buffer_sizes: Vec<u64>,
}

/// The names and handles, in order.
pub open spec fn handle_views(v: Seq<(String, Handle)>) -> Seq<(Seq<char>, Handle)> {
    v.map_values(|e: (String, Handle)| (e.0@, e.1))
}

impl View for Plan {
    type V = PlanView;

    open spec fn view(&self) -> PlanView {
        PlanView { handles: handle_views(self.handles@), buffer_sizes: self.buffer_sizes@ }
    }
}

/// GPU-side size of a tensor as 128 bits, which always hold it.
fn wide_gpu_size(ty: GgmlType, n: u64) -> (r: u128)
    ensures
        r == gpu_size(ty, n as nat),
{
    let n: u128 = n as u128;
    match ty {
        GgmlType::Q4K => n / 256 * 144,
        GgmlType::Q6K => n / 256 * 224,
        GgmlType::F32 => n * 4,
        GgmlType::F16 | GgmlType::BF16 => n * 2,
        GgmlType::Q8_0 => n / 32 * 36,
    }
}

/// The sum of the buffer sizes.
pub open spec fn sum(sizes: Seq<u64>) -> nat
    decreases sizes.len(),
{
    if sizes.len() == 0 {
        0
    } else {
        sum(sizes.drop_last()) + sizes.last() as nat
    }
}

impl Plan {
    pub fn build(h: &Header, names: &Vec<String>) -> (r: Result<Plan, PackError>)
        requires
            h.wf(),
        ensures
            match (r, pack(h@, crate::text::views(names@), TARGET_BUFFER_BYTES)) {
                (Ok(p), Ok(q)) => p@ == q,
                (Err(e), Err(f)) => e@ == f,
                _ => false,
            },
    {
        Plan::build_with(h, names, TARGET_BUFFER_BYTES)
    }

    /// Plan against a specific maximum buffer size.
    ///
    /// Only the tensor *table* is read, never the payload, so this also works on
    /// a header parsed from a prefix of the file.
    pub fn build_with(h: &Header, names: &Vec<String>, target: u64) -> (r: Result<Plan, PackError>)
        requires
            h.wf(),
        ensures
            match (r, pack(h@, crate::text::views(names@), target)) {
                (Ok(p), Ok(q)) => p@ == q,
                (Err(e), Err(f)) => e@ == f,
                _ => false,
            },
    {
        let ghost all = crate::text::views(names@);
        if target < TENSOR_ALIGN {
            proof {
                lemma_pack_err(h@, all, target, 0);
                assert(all.take(0) =~= Seq::empty());
            }
            return Err(PackError::TargetTooSmall(target));
        }
        let mut handles: Vec<(String, Handle)> = Vec::new();
        let mut sizes: Vec<u64> = Vec::new();
        sizes.push(0);
        let mut i: usize = 0;
        assert(all.take(0) =~= Seq::empty());
        assert(handle_views(handles@) =~= Seq::empty());
        assert(sizes@ =~= seq![0u64]);
        while i < names.len()
            invariant
                i <= names@.len(),
                h.wf(),
                all == crate::text::views(names@),
                target >= TENSOR_ALIGN,
                sizes@.len() >= 1,
                sizes@.len() <= i + 1,
                sizes@.last() <= target,
                pack(h@, all.take(i as int), target) == Ok::<PlanView, PackErrorView>(
                    PlanView { handles: handle_views(handles@), buffer_sizes: sizes@ },
                ),
            decreases names@.len() - i,
        {
            let name = &names[i];
            let ghost before = PlanView { handles: handle_views(handles@), buffer_sizes: sizes@ };
            proof {
                assert(all.take(i + 1).drop_last() =~= all.take(i as int));
                assert(all.take(i + 1).last() == name@);
            }
            let t = match h.info(name.as_str()) {
                Ok(t) => t,
                Err(_) => {
                    proof {
                        assert(tensor_named(h@, name@) is None);
                        lemma_pack_err(h@, all, target, i + 1);
                    }
                    return Err(PackError::NoTensor(name.clone()));
                },
            };
            proof {
                lemma_named(h@, name@, t@);
            }
            let elems: u64 = match header::checked_product(&t.dims) {
                Some(n) => n,
                None => {
                    proof {
                        lemma_pack_err(h@, all, target, i + 1);
                    }
                    return Err(
                        PackError::TooLarge { name: name.clone(), size: u64::MAX, target },
                    );
                },
            };
            let wide: u128 = wide_gpu_size(t.ty, elems);
            if wide > target as u128 {
                proof {
                    lemma_pack_err(h@, all, target, i + 1);
                }
                let size: u64 = if wide > u64::MAX as u128 { u64::MAX } else { wide as u64 };
                return Err(PackError::TooLarge { name: name.clone(), size, target });
            }
            let size: u64 = wide as u64;
            let n: usize = sizes.len();
            let cur: u64 = sizes[n - 1];
            let rem: u64 = cur % TENSOR_ALIGN;
            let pad: u64 = if rem == 0 { 0 } else { TENSOR_ALIGN - rem };
            assert(cur + pad == header::aligned(cur as int, TENSOR_ALIGN as int));
            let room: u64 = target - cur;
            let fits: bool = pad <= room && size <= room - pad;
            let (buffer, base): (usize, u64) = if fits { (n - 1, cur + pad) } else { (n, 0) };
            if fits {
                sizes[n - 1] = cur + pad + size;
            } else {
                sizes.push(size);
            }
            let handle = Handle {
                buffer,
                base_u32: (base / 4) as u32,
                in_dim: t.in_dim() as u32,
                out_dim: t.out_dim() as u32,
                ty: t.ty,
            };
            handles.push((name.clone(), handle));
            proof {
                let after = PlanView { handles: handle_views(handles@), buffer_sizes: sizes@ };
                let want = place(before, name@, t@, target);
                assert(after.handles =~= want.handles);
                assert(after.buffer_sizes =~= want.buffer_sizes);
            }
            i = i + 1;
        }
        assert(all.take(i as int) =~= all);
        Ok(Plan { handles, buffer_sizes: sizes })
    }

    pub fn total_bytes(&self) -> (r: u64)
        requires
            sum(self.buffer_sizes@) <= u64::MAX,
        ensures
            r == sum(self.buffer_sizes@),
    {
        let ghost all = self.buffer_sizes@;
        let mut total: u64 = 0;
        let mut i: usize = 0;
        assert(all.take(0) =~= Seq::empty());
        while i < self.buffer_sizes.len()
            invariant
                i <= all.len(),
                all == self.buffer_sizes@,
                sum(all) <= u64::MAX,
                total == sum(all.take(i as int)),
            decreases all.len() - i,
        {
            proof {
                lemma_sum(all, i + 1);
                assert(all.take(i + 1).drop_last() =~= all.take(i as int));
            }
            total = total + self.buffer_sizes[i];
            i = i + 1;
        }
        assert(all.take(i as int) =~= all);
        total
    }
}

proof fn lemma_sum(sizes: Seq<u64>, k: int)
    requires
        0 <= k <= sizes.len(),
    ensures
        sum(sizes.take(k)) <= sum(sizes),
    decreases sizes.len() - k,
{
    if k < sizes.len() {
        assert(sizes.take(k + 1).drop_last() =~= sizes.take(k));
        lemma_sum(sizes, k + 1);
    } else {
        assert(sizes.take(k) =~= sizes);
    }
}

/// The tensor found under a name is the one the name stands for.
pub proof fn lemma_named(h: HeaderView, name: Seq<char>, t: TensorInfoView)
    requires
        exists|i: int| #[trigger] header::is_index_of(h.tensors, name, i) && t == h.tensors[i],
    ensures
        tensor_named(h, name) == Some(t),
{
    let i = choose|i: int| #[trigger] header::is_index_of(h.tensors, name, i) && t == h.tensors[i];
    let j = choose|j: int| #[trigger] header::is_index_of(h.tensors, name, j);
    header::lemma_index_unique(h.tensors, name, i, j);
}

/// An error on the first `k` names is the error on all of them.
proof fn lemma_pack_err(h: HeaderView, names: Seq<Seq<char>>, target: u64, k: int)
    requires
        0 <= k <= names.len(),
    ensures
        pack(h, names.take(k), target) is Err ==> pack(h, names, target) == pack(
            h,
            names.take(k),
            target,
        ),
    decreases names.len() - k,
{
    if k < names.len() {
        assert(names.take(k + 1).drop_last() =~= names.take(k));
        lemma_pack_err(h, names, target, k + 1);
    } else {
        assert(names.take(k) =~= names);
    }
}

/// First byte of a placed tensor within its buffer.
pub open spec fn start_of(h: Handle) -> int {
    h.base_u32 as int * 4
}

/// First byte behind the tensor that was placed under `e`.
pub open spec fn end_of(h: HeaderView, e: (Seq<char>, Handle)) -> int {
    start_of(e.1) + tensor_gpu_size(tensor_named(h, e.0)->0)
}

/// Tensor `i` of a packing is aligned and lies within its buffer.
pub open spec fn in_buffer(h: HeaderView, p: PlanView, i: int) -> bool {
    let e = p.handles[i];
    &&& start_of(e.1) % TENSOR_ALIGN as int == 0
    &&& e.1.buffer < p.buffer_sizes.len()
    &&& end_of(h, e) <= p.buffer_sizes[e.1.buffer as int]
}

/// Tensors `i < j` of a packing do not share a byte.
pub open spec fn apart(h: HeaderView, p: PlanView, i: int, j: int) -> bool {
    p.handles[i].1.buffer == p.handles[j].1.buffer ==> end_of(h, p.handles[i]) <= start_of(
        p.handles[j].1,
    )
}

/// No tensor straddles a buffer boundary, every tensor starts aligned, no two
/// tensors overlap, no buffer is larger than the target, and every name has its
/// handle in order: for any target whose offsets a 32-bit word index can hold.
#[verifier::rlimit(60)]
#[verifier::spinoff_prover]
pub proof fn packing_is_sound(h: HeaderView, names: Seq<Seq<char>>, target: u64)
    requires
        target < 0x4_0000_0000,
        names.len() < usize::MAX,
        pack(h, names, target) is Ok,
    ensures
        ({
            let p = pack(h, names, target)->Ok_0;
            &&& p.handles.len() == names.len()
            &&& forall|i: int| 0 <= i < names.len() ==> (#[trigger] p.handles[i]).0 == names[i]
            &&& 1 <= p.buffer_sizes.len() <= names.len() + 1
            &&& forall|b: int|
                0 <= b < p.buffer_sizes.len() ==> #[trigger] p.buffer_sizes[b] <= target
            &&& forall|i: int| 0 <= i < names.len() ==> #[trigger] in_buffer(h, p, i)
            &&& forall|i: int, j: int| 0 <= i < j < names.len() ==> #[trigger] apart(h, p, i, j)
        }),
    decreases names.len(),
{
    if names.len() > 0 {
        let name = names.last();
        let q = pack(h, names.drop_last(), target)->Ok_0;
        packing_is_sound(h, names.drop_last(), target);
        let t = tensor_named(h, name)->0;
        let p = place(q, name, t, target);
        let n = names.len() - 1;
        let e = p.handles[n];
        let size = tensor_gpu_size(t) as int;
        let last = q.buffer_sizes.len() - 1;
        let start = header::aligned(q.buffer_sizes[last] as int, TENSOR_ALIGN as int);
        assert(start % 256 == 0 && q.buffer_sizes[last] <= start < q.buffer_sizes[last] + 256);
        let fits = start + size <= target;
        assert(start_of(e.1) == if fits {
            start
        } else {
            0
        });
        assert forall|i: int| 0 <= i < names.len() implies (#[trigger] p.handles[i]).0
            == names[i] by {
            if i < n {
                assert(q.handles[i].0 == names.drop_last()[i]);
            }
        }
        assert forall|i: int| 0 <= i < names.len() implies #[trigger] in_buffer(h, p, i) by {
            if i < n {
                assert(in_buffer(h, q, i));
                assert(p.handles[i] == q.handles[i]);
            }
        }
        assert forall|i: int, j: int| 0 <= i < j < names.len() implies #[trigger] apart(
            h,
            p,
            i,
            j,
        ) by {
            assert(p.handles[i] == q.handles[i]);
            assert(in_buffer(h, q, i));
            if j < n {
                assert(apart(h, q, i, j));
                assert(p.handles[j] == q.handles[j]);
            }
        }
    }
}

/// A Q6_K block of 210 bytes is followed by 14 zeros, and a Q8_0 block has two zeros
/// behind the two bytes of its scale, so that both take whole words; all else is copied as
/// it is.
pub proof fn blocks_are_padded_to_words(src: Seq<u8>, before: Seq<u8>, b: int, k: int)
    requires
        0 <= b,
        0 <= k,
    ensures
        ({
            let after = |ty: GgmlType, i: int| encoded_byte(ty, src, before, i);
            &&& 210 * (b + 1) <= src.len() && 224 * (b + 1) <= before.len() && k < 224 ==> after(
                GgmlType::Q6K,
                224 * b + k,
            ) == if k < 210 {
                src[210 * b + k]
            } else {
                0u8
            }
            &&& 34 * (b + 1) <= src.len() && 36 * (b + 1) <= before.len() && k < 36 ==> after(
                GgmlType::Q8_0,
                36 * b + k,
            ) == if k < 2 {
                src[34 * b + k]
            } else if k < 4 {
                0u8
            } else {
                src[34 * b + k - 2]
            }
            &&& k < src.len() ==> after(GgmlType::Q4K, k) == src[k] && after(GgmlType::F32, k)
                == src[k] && after(GgmlType::F16, k) == src[k] && after(GgmlType::BF16, k) == src[k]
        }),
{
    if 210 * (b + 1) <= src.len() && 224 * (b + 1) <= before.len() && k < 224 {
        let i = 224 * b + k;
        assert(i / 224 == b && i % 224 == k);
        assert(src.len() / 210nat > b && before.len() / 224nat > b);
        assert(blocks_copied(GgmlType::Q6K, src, before) > b);
        assert(encoded_byte(GgmlType::Q6K, src, before, i) == repacked_byte(
            GgmlType::Q6K,
            src,
            b * 210,
            k,
        ));
    }
    if 34 * (b + 1) <= src.len() && 36 * (b + 1) <= before.len() && k < 36 {
        let i = 36 * b + k;
        assert(i / 36 == b && i % 36 == k);
        assert(src.len() / 34nat > b && before.len() / 36nat > b);
        assert(blocks_copied(GgmlType::Q8_0, src, before) > b);
        assert(encoded_byte(GgmlType::Q8_0, src, before, i) == repacked_byte(
            GgmlType::Q8_0,
            src,
            b * 34,
            k,
        ));
    }
    assert(k / 1 == k && k % 1 == 0 && k / 1 * 1 == k);
}

} // verus!
