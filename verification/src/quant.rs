//! k-quant block layouts.
//!
//! The layouts are on-disk formats, so the bit positions are given. What is
//! decoded here is the integer part of a block: the scales, the mins and the
//! quants. The multiplication by the half-precision block scales is left to the
//! numeric kernels.

use vstd::prelude::*;

verus! {

/// Elements per k-quant super-block.
pub const QK_K: usize = 256;

/// Elements per Q8_0 block.
pub const QK8_0: usize = 32;

/// `d` (f16) + `dmin` (f16) + 12 packed 6-bit scale/min pairs + 128 nibble bytes.
pub const Q4K_BLOCK_BYTES: usize = 144;

/// 128 low-nibble bytes + 64 high-bit bytes + 16 i8 scales + `d` (f16).
pub const Q6K_BLOCK_BYTES: usize = 210;

/// `d` (f16) + 32 i8 quants.
pub const Q8_0_BLOCK_BYTES: usize = 34;

/// The 6-bit scale of sub-block `j` in Q4_K's 12 packed bytes.
///
/// Sub-blocks 0..4 store it plainly in the low 6 bits of bytes 0..4; sub-blocks
/// 4..8 take the low 4 bits from bytes 8..12 and the top 2 from bytes 0..4.
pub open spec fn q4k_scale(j: int, q: Seq<u8>) -> u8 {
    if j < 4 {
        (q[j] % 64) as u8
    } else {
        (q[j + 4] % 16 + (q[j - 4] / 64) * 16) as u8
    }
}

/// The 6-bit min of sub-block `j`: as the scale, one nibble or four bytes on.
pub open spec fn q4k_min(j: int, q: Seq<u8>) -> u8 {
    if j < 4 {
        (q[j + 4] % 64) as u8
    } else {
        (q[j + 4] / 16 + (q[j] / 64) * 16) as u8
    }
}

/// Unpack sub-block `j`'s 6-bit scale and min from Q4_K's 12 packed bytes.
pub fn q4k_scale_min(j: usize, q: &[u8]) -> (r: (u8, u8))
    requires
        j < 8,
        q@.len() >= 12,
    ensures
        r.0 == q4k_scale(j as int, q@),
        r.1 == q4k_min(j as int, q@),
        r.0 < 64 && r.1 < 64,
{
    if j < 4 {
        let (a, b) = (q[j], q[j + 4]);
        assert(a & 63 == a % 64) by (bit_vector);
        assert(b & 63 == b % 64) by (bit_vector);
        (a & 63, b & 63)
    } else {
        let (a, b, c) = (q[j + 4], q[j - 4], q[j]);
        assert((a & 0xF) | ((b >> 6u8) << 4u8) == (a % 16 + (b / 64) * 16) as u8 && ((a & 0xF) | ((b
            >> 6u8) << 4u8)) < 64) by (bit_vector);
        assert((a >> 4u8) | ((c >> 6u8) << 4u8) == (a / 16 + (c / 64) * 16) as u8 && ((a >> 4u8) | ((c
            >> 6u8) << 4u8)) < 64) by (bit_vector);
        ((a & 0xF) | ((b >> 6) << 4), (a >> 4) | ((c >> 6) << 4))
    }
}

/// The 12 bytes that eight 6-bit scales and eight 6-bit mins are packed into. The top
/// two bits of the last four of either stand above the first four; their low nibbles
/// share the last four bytes.
pub open spec fn packed_scales(s: Seq<u8>, m: Seq<u8>) -> Seq<u8> {
    Seq::new(
        12,
        |b: int|
            if b < 4 {
                (s[b] + 64 * (s[b + 4] / 16)) as u8
            } else if b < 8 {
                (m[b - 4] + 64 * (m[b] / 16)) as u8
            } else {
                (s[b - 4] % 16 + 16 * (m[b - 4] % 16)) as u8
            },
    )
}

/// The two parts of a byte that was put together from them.
proof fn lemma_parts(low: int, high: int, k: int)
    requires
        k == 16 || k == 64,
        0 <= low < k,
        0 <= high,
        low + k * high < 256,
    ensures
        ((low + k * high) as u8) % (k as u8) == low,
        ((low + k * high) as u8) / (k as u8) == high,
{
    let b = (low + k * high) as u8;
    assert(b == low + k * high);
    if k == 16 {
        assert((low + 16 * high) % 16 == low && (low + 16 * high) / 16 == high);
    } else {
        assert((low + 64 * high) % 64 == low && (low + 64 * high) / 64 == high);
    }
}

/// The low nibble and the two bits above it make up a number of six bits.
proof fn lemma_six(x: int)
    requires
        0 <= x < 64,
    ensures
        0 <= x / 16 < 4,
        0 <= x % 16 < 16,
        x == x % 16 + 16 * (x / 16),
{
}

/// Unpacking gives back what was packed: for all scales and mins of six bits, sub-block
/// `j` has its own scale and its own min.
pub proof fn scales_unpack_as_packed(s: Seq<u8>, m: Seq<u8>, j: int)
    requires
        s.len() == 8,
        m.len() == 8,
        forall|i: int| 0 <= i < 8 ==> #[trigger] s[i] < 64,
        forall|i: int| 0 <= i < 8 ==> #[trigger] m[i] < 64,
        0 <= j < 8,
    ensures
        q4k_scale(j, packed_scales(s, m)) == s[j],
        q4k_min(j, packed_scales(s, m)) == m[j],
{
    let q = packed_scales(s, m);
    let (lo, hi) = if j < 4 {
        (j, j + 4)
    } else {
        (j - 4, j)
    };
    let (a, b, c, e) = (s[lo] as int, s[hi] as int, m[lo] as int, m[hi] as int);
    assert(a < 64 && b < 64 && c < 64 && e < 64);
    lemma_six(b);
    lemma_six(e);
    lemma_parts(a, b / 16, 64);
    lemma_parts(c, e / 16, 64);
    lemma_parts(b % 16, e % 16, 16);
    let (p, r, t) = (q[lo], q[lo + 4], q[lo + 8]);
    assert(p == (a + 64 * (b / 16)) as u8);
    assert(r == (c + 64 * (e / 16)) as u8);
    assert(t == (b % 16 + 16 * (e % 16)) as u8);
    assert(p % 64 == a && p / 64 == b / 16);
    assert(r % 64 == c && r / 64 == e / 16);
    assert(t % 16 == b % 16 && t / 16 == e % 16);
}

/// One decoded Q4_K element: `d * scale * quant - dmin * min`.
#[derive(Clone, Copy, Debug, PartialEq, Eq, Structural)]
pub struct Q4kElem {
    pub scale: u8,
    pub min: u8,
    pub quant: u8,
}

/// Element `i` of a Q4_K block. Elements come in eight sub-blocks of 32;
/// sub-blocks `2p` and `2p + 1` are the low and high nibbles of the same 32 bytes.
pub open spec fn q4k_elem(blk: Seq<u8>, i: int) -> Q4kElem {
    let scales = blk.subrange(4, 16);
    let j = i / 32;
    let byte = blk[16 + (i / 64) * 32 + i % 32];
    Q4kElem {
        scale: q4k_scale(j, scales),
        min: q4k_min(j, scales),
        quant: if j % 2 == 0 {
            (byte % 16) as u8
        } else {
            (byte / 16) as u8
        },
    }
}

/// Decode the integer part of one 256-element Q4_K super-block.
pub fn decode_q4k_block(blk: &[u8]) -> (out: Vec<Q4kElem>)
    requires
        blk@.len() == Q4K_BLOCK_BYTES,
    ensures
        out@.len() == QK_K,
        forall|i: int| 0 <= i < QK_K ==> #[trigger] out@[i] == q4k_elem(blk@, i),
{
    let scales = vstd::slice::slice_subrange(blk, 4, 16);
    let mut out: Vec<Q4kElem> = Vec::new();
    let mut i: usize = 0;
    while i < QK_K
        invariant
            i <= QK_K,
            blk@.len() == Q4K_BLOCK_BYTES,
            scales@ == blk@.subrange(4, 16),
            out@.len() == i,
            forall|k: int| 0 <= k < i ==> #[trigger] out@[k] == q4k_elem(blk@, k),
        decreases QK_K - i,
    {
        let j: usize = i / 32;
        let (scale, min) = q4k_scale_min(j, scales);
        let byte = blk[16 + (i / 64) * 32 + i % 32];
        assert(byte & 0xF == byte % 16) by (bit_vector);
        assert(byte >> 4u8 == byte / 16) by (bit_vector);
        let quant = if j % 2 == 0 { byte & 0xF } else { byte >> 4 };
        out.push(Q4kElem { scale, min, quant });
        i = i + 1;
    }
    out
}

/// A Q4_K block of these four leading bytes, scales, mins and 256 nibbles: each run of
/// 32 bytes holds 64 nibbles, the first 32 below and the others above.
pub open spec fn packed_q4k(d: Seq<u8>, s: Seq<u8>, m: Seq<u8>, x: Seq<u8>) -> Seq<u8> {
    d + packed_scales(s, m) + Seq::new(
        128,
        |b: int| (x[64 * (b / 32) + b % 32] + 16 * x[64 * (b / 32) + 32 + b % 32]) as u8,
    )
}

/// Decoding a Q4_K block gives back what was packed: every element has its own nibble,
/// and the scale and the min of its run of 32.
pub proof fn q4k_decodes_as_packed(d: Seq<u8>, s: Seq<u8>, m: Seq<u8>, x: Seq<u8>, i: int)
    requires
        d.len() == 4,
        s.len() == 8,
        m.len() == 8,
        x.len() == 256,
        forall|k: int| 0 <= k < 8 ==> #[trigger] s[k] < 64,
        forall|k: int| 0 <= k < 8 ==> #[trigger] m[k] < 64,
        forall|k: int| 0 <= k < 256 ==> #[trigger] x[k] < 16,
        0 <= i < 256,
    ensures
        packed_q4k(d, s, m, x).len() == Q4K_BLOCK_BYTES,
        q4k_elem(packed_q4k(d, s, m, x), i) == (Q4kElem {
            scale: s[i / 32],
            min: m[i / 32],
            quant: x[i],
        }),
{
    let blk = packed_q4k(d, s, m, x);
    assert(blk.subrange(4, 16) =~= packed_scales(s, m));
    scales_unpack_as_packed(s, m, i / 32);
    let b = (i / 64) * 32 + i % 32;
    assert(b / 32 == i / 64 && b % 32 == i % 32);
    let (lo, hi) = (64 * (i / 64) + i % 32, 64 * (i / 64) + 32 + i % 32);
    assert(x[lo] < 16 && x[hi] < 16);
    assert(blk[16 + b] == x[lo] + 16 * x[hi]);
    assert(i == if (i / 32) % 2 == 0 {
        lo
    } else {
        hi
    });
}

/// One decoded Q6_K element: `d * scale * quant`.
#[derive(Clone, Copy, Debug, PartialEq, Eq, Structural)]
pub struct Q6kElem {
    pub scale: i8,
    pub quant: i8,
}

/// Element `i` of a Q6_K block.
///
/// Two halves of 128 elements; within each, four interleaved groups of 32 that
/// share the 32 high-bit bytes. A quant is 4 low bits, 2 high bits, biased by
/// -32; a scale covers 16 elements.
pub open spec fn q6k_elem(blk: Seq<u8>, i: int) -> Q6kElem {
    let n = i / 128;
    let g = (i % 128) / 32;
    let l = i % 32;
    let low = blk[n * 64 + (g % 2) * 32 + l];
    let high = blk[128 + n * 32 + l];
    let lo4 = if g < 2 {
        low % 16
    } else {
        low / 16
    };
    let hi2 = if g == 0 {
        high % 4
    } else if g == 1 {
        (high / 4) % 4
    } else if g == 2 {
        (high / 16) % 4
    } else {
        high / 64
    };
    Q6kElem {
        scale: blk[192 + n * 8 + l / 16 + g * 2] as i8,
        quant: (lo4 + hi2 * 16 - 32) as i8,
    }
}

/// The unsigned 6-bit number that stands for a quant.
pub open spec fn biased(x: i8) -> int {
    x + 32
}

/// A Q6_K block of these quants, 16 scales and two trailing bytes. Of each 128 quants,
/// the byte at `l` of a run of 32 holds the low bits of two that lie 64 apart, and one
/// byte the high bits of all four that lie 32 apart.
pub open spec fn packed_q6k(x: Seq<i8>, scales: Seq<i8>, d: Seq<u8>) -> Seq<u8> {
    Seq::new(
        128,
        |b: int|
            {
                let at = 128 * (b / 64) + b % 64;
                (biased(x[at]) % 16 + 16 * (biased(x[at + 64]) % 16)) as u8
            },
    ) + Seq::new(
        64,
        |b: int|
            {
                let at = 128 * (b / 32) + b % 32;
                (biased(x[at]) / 16 + 4 * (biased(x[at + 32]) / 16) + 16 * (biased(x[at + 64]) / 16)
                    + 64 * (biased(x[at + 96]) / 16)) as u8
            },
    ) + Seq::new(16, |b: int| scales[b] as u8) + d
}

/// Decoding a Q6_K block gives back what was packed: every element has its own quant,
/// and the scale of its run of 16.
#[verifier::rlimit(60)]
#[verifier::spinoff_prover]
pub proof fn q6k_decodes_as_packed(x: Seq<i8>, scales: Seq<i8>, d: Seq<u8>, i: int)
    requires
        x.len() == 256,
        scales.len() == 16,
        d.len() == 2,
        forall|k: int| 0 <= k < 256 ==> -32 <= #[trigger] x[k] < 32,
        0 <= i < 256,
    ensures
        packed_q6k(x, scales, d).len() == Q6K_BLOCK_BYTES,
        q6k_elem(packed_q6k(x, scales, d), i) == (Q6kElem { scale: scales[i / 16], quant: x[i] }),
{
    let blk = packed_q6k(x, scales, d);
    let (n, g, l) = (i / 128, (i % 128) / 32, i % 32);
    let base = 128 * n + l;
    assert(i == base + 32 * g);
    let (b0, b1) = (biased(x[base]), biased(x[base + 32]));
    let (b2, b3) = (biased(x[base + 64]), biased(x[base + 96]));
    lemma_six(b0);
    lemma_six(b1);
    lemma_six(b2);
    lemma_six(b3);
    let at = n * 64 + (g % 2) * 32 + l;
    assert(at / 64 == n && at % 64 == (g % 2) * 32 + l);
    let (below, above) = if g % 2 == 0 {
        (b0, b2)
    } else {
        (b1, b3)
    };
    lemma_parts(below % 16, above % 16, 16);
    let low = blk[at];
    assert(low == (below % 16 + 16 * (above % 16)) as u8);
    let h = n * 32 + l;
    assert(h / 32 == n && h % 32 == l);
    let high = blk[128 + h];
    lemma_pairs(b0 / 16, b1 / 16, b2 / 16, b3 / 16);
    assert(high == (b0 / 16 + 4 * (b1 / 16) + 16 * (b2 / 16) + 64 * (b3 / 16)) as u8);
    assert(i / 16 == n * 8 + l / 16 + g * 2);
    let c = scales[i / 16];
    assert(blk[192 + i / 16] == c as u8);
    assert((c as u8) as i8 == c) by (bit_vector);
}

/// The four pairs of bits of a byte that was put together from them.
proof fn lemma_pairs(a: int, b: int, c: int, e: int)
    requires
        0 <= a < 4,
        0 <= b < 4,
        0 <= c < 4,
        0 <= e < 4,
    ensures
        ({
            let h = (a + 4 * b + 16 * c + 64 * e) as u8;
            &&& h % 4 == a
            &&& (h / 4) % 4 == b
            &&& (h / 16) % 4 == c
            &&& h / 64 == e
        }),
{
    let h = a + 4 * b + 16 * c + 64 * e;
    assert(h / 4 == b + 4 * c + 16 * e);
    assert(h / 16 == c + 4 * e);
}

fn q6k_quant(low: u8, high: u8, g: usize) -> (q: i8)
    requires
        g < 4,
    ensures
        q == ((if g < 2 {
            low % 16
        } else {
            low / 16
        }) + (if g == 0 {
            high % 4
        } else if g == 1 {
            (high / 4) % 4
        } else if g == 2 {
            (high / 16) % 4
        } else {
            high / 64
        }) * 16 - 32) as i8,
        -32 <= q < 32,
{
    assert(low & 0xF == low % 16 && low >> 4u8 == low / 16 && low & 0xF < 16 && low >> 4u8 < 16)
        by (bit_vector);
    assert(high & 3 == high % 4 && (high >> 2u8) & 3 == (high / 4) % 4 && (high >> 4u8) & 3 == (high
        / 16) % 4 && (high >> 6u8) & 3 == high / 64) by (bit_vector);
    assert(forall|a: u8, b: u8| a < 16 && b < 4 ==> #[trigger] (a | (b << 4u8)) == a + b * 16)
        by (bit_vector);
    let lo4: u8 = if g < 2 { low & 0xF } else { low >> 4 };
    let hi2: u8 = if g == 0 {
        high & 3
    } else if g == 1 {
        (high >> 2) & 3
    } else if g == 2 {
        (high >> 4) & 3
    } else {
        (high >> 6) & 3
    };
    let v: u8 = lo4 | (hi2 << 4);
    (v as i16 - 32) as i8
}

/// Decode the integer part of one 256-element Q6_K super-block.
pub fn decode_q6k_block(blk: &[u8]) -> (out: Vec<Q6kElem>)
    requires
        blk@.len() == Q6K_BLOCK_BYTES,
    ensures
        out@.len() == QK_K,
        forall|i: int| 0 <= i < QK_K ==> #[trigger] out@[i] == q6k_elem(blk@, i),
{
    let mut out: Vec<Q6kElem> = Vec::new();
    let mut i: usize = 0;
    while i < QK_K
        invariant
            i <= QK_K,
            blk@.len() == Q6K_BLOCK_BYTES,
            out@.len() == i,
            forall|k: int| 0 <= k < i ==> #[trigger] out@[k] == q6k_elem(blk@, k),
        decreases QK_K - i,
    {
        let n: usize = i / 128;
        let g: usize = (i % 128) / 32;
        let l: usize = i % 32;
        let low = blk[n * 64 + (g % 2) * 32 + l];
        let high = blk[128 + n * 32 + l];
        let scale = blk[192 + n * 8 + l / 16 + g * 2] as i8;
        out.push(Q6kElem { scale, quant: q6k_quant(low, high, g) });
        i = i + 1;
    }
    out
}

/// Element `i` of a Q8_0 block: 32 signed quants behind the 2-byte scale.
pub open spec fn q8_0_elem(blk: Seq<u8>, i: int) -> i8 {
    blk[2 + i] as i8
}

/// Decoding a Q8_0 block gives back the quants that were packed behind its scale.
pub proof fn q8_0_decodes_as_packed(d: Seq<u8>, x: Seq<i8>, i: int)
    requires
        d.len() == 2,
        x.len() == 32,
        0 <= i < 32,
    ensures
        (d + x.map_values(|v: i8| v as u8)).len() == Q8_0_BLOCK_BYTES,
        q8_0_elem(d + x.map_values(|v: i8| v as u8), i) == x[i],
{
    let c = x[i];
    assert((c as u8) as i8 == c) by (bit_vector);
}

/// The integer part of a Q8_0 block.
pub fn decode_q8_0_block(blk: &[u8]) -> (out: Vec<i8>)
    requires
        blk@.len() == Q8_0_BLOCK_BYTES,
    ensures
        out@ == Seq::new(QK8_0 as nat, |i: int| q8_0_elem(blk@, i)),
{
    let mut out: Vec<i8> = Vec::new();
    let mut i: usize = 0;
    while i < QK8_0
        invariant
            i <= QK8_0,
            blk@.len() == Q8_0_BLOCK_BYTES,
            out@ == Seq::new(i as nat, |k: int| q8_0_elem(blk@, k)),
        decreases QK8_0 - i,
    {
        out.push(blk[2 + i] as i8);
        assert(out@ =~= Seq::new((i + 1) as nat, |k: int| q8_0_elem(blk@, k)));
        i = i + 1;
    }
    out
}

/// What a dense tensor's little-endian bytes at element `i` stand for, as
/// single-precision bits. A bf16 is the upper half of a single.
pub open spec fn dense_bits(bf16: bool, data: Seq<u8>, i: int) -> u32 {
    if bf16 {
        (data[2 * i] * 0x1_0000 + data[2 * i + 1] * 0x100_0000) as u32
    } else {
        (data[4 * i] + data[4 * i + 1] * 0x100 + data[4 * i + 2] * 0x1_0000 + data[4 * i + 3]
            * 0x100_0000) as u32
    }
}

/// The four bytes of a number, the lowest first.
pub open spec fn le_bytes(x: u32) -> Seq<u8> {
    seq![
        (x % 0x100) as u8,
        (x / 0x100 % 0x100) as u8,
        (x / 0x1_0000 % 0x100) as u8,
        (x / 0x100_0000) as u8,
    ]
}

/// Numbers that were written out as singles are read back, and of numbers that were
/// written out as their upper halves the upper halves are.
pub proof fn dense_numbers_are_read_back(x: Seq<u32>, data: Seq<u8>, i: int)
    requires
        0 <= i < x.len(),
    ensures
        data.len() == 4 * x.len() && data.subrange(4 * i, 4 * i + 4) == le_bytes(x[i])
            ==> dense_bits(false, data, i) == x[i],
        data.len() == 2 * x.len() && data.subrange(2 * i, 2 * i + 2) == le_bytes(x[i]).skip(2)
            ==> dense_bits(true, data, i) == x[i] - x[i] % 0x1_0000,
{
    let v = x[i];
    if data.len() == 4 * x.len() && data.subrange(4 * i, 4 * i + 4) == le_bytes(v) {
        let s = data.subrange(4 * i, 4 * i + 4);
        assert(s[0] == data[4 * i] && s[1] == data[4 * i + 1] && s[2] == data[4 * i + 2] && s[3]
            == data[4 * i + 3]);
    }
    if data.len() == 2 * x.len() && data.subrange(2 * i, 2 * i + 2) == le_bytes(v).skip(2) {
        let s = data.subrange(2 * i, 2 * i + 2);
        assert(s[0] == data[2 * i] && s[1] == data[2 * i + 1]);
        assert(le_bytes(v).skip(2)[0] == le_bytes(v)[2] && le_bytes(v).skip(2)[1]
            == le_bytes(v)[3]);
    }
}

/// The first `n` elements of an F32 tensor, or of a BF16 one where `bf16` is
/// set, as single-precision bits.
pub fn dequant_dense(bf16: bool, data: &[u8], n: usize) -> (out: Vec<u32>)
    requires
        bf16 ==> 2 * n <= data@.len(),
        !bf16 ==> 4 * n <= data@.len(),
    ensures
        out@ == Seq::new(n as nat, |i: int| dense_bits(bf16, data@, i)),
{
    let len: usize = data.len();
    let mut out: Vec<u32> = Vec::new();
    let mut i: usize = 0;
    while i < n
        invariant
            i <= n,
            len == data@.len(),
            bf16 ==> 2 * n <= data@.len(),
            !bf16 ==> 4 * n <= data@.len(),
            out@ == Seq::new(i as nat, |k: int| dense_bits(bf16, data@, k)),
        decreases n - i,
    {
        let bits: u32 = if bf16 {
            data[2 * i] as u32 * 0x1_0000 + data[2 * i + 1] as u32 * 0x100_0000
        } else {
            data[4 * i] as u32 + data[4 * i + 1] as u32 * 0x100 + data[4 * i + 2] as u32 * 0x1_0000
                + data[4 * i + 3] as u32 * 0x100_0000
        };
        out.push(bits);
        assert(out@ =~= Seq::new((i + 1) as nat, |k: int| dense_bits(bf16, data@, k)));
        i = i + 1;
    }
    out
}

} // verus!
