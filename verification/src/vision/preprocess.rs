//! Bytes on disk to the tensor the tower consumes.
//!
//! The aspect ratio is preserved and both sides are snapped to a multiple of
//! `patch * n_merge`, then the area is pulled inside the token budget. Resampling
//! and scaling are floating-point and happen outside; the choice of the size and
//! the layout of the pixels are settled here.

use vstd::prelude::*;

verus! {

/// `image::ImageError`: why an image could not be decoded.
#[verifier::external_type_specification]
#[verifier::external_body]
pub struct ExImageError(image::ImageError);

/// Interleaved RGB8 pixels.
#[derive(Debug)]
pub struct Rgb {
    pub w: usize,
    pub h: usize,
    pub pixels: Vec<u8>,
}

#[derive(Debug)]
pub enum PrepareError {
    Decode(image::ImageError),
    ZeroDimension,
}

/// `image::load_from_memory`: the width and height of the image that bytes hold, or
/// nothing where they hold none that can be decoded.
pub uninterp spec fn image_size(bytes: Seq<u8>) -> Option<(usize, usize)>;

/// `image::load_from_memory` and `to_rgb8`: decode any supported container.
///
/// Whether the bytes hold an image and how large it is, is only named. There are three
/// bytes for each pixel: a decoder fills a buffer of just the image's size, and the
/// conversion keeps the number of pixels. Nothing is claimed of what the bytes are:
/// decoders have code paths that depend on the processor, so two machines may round a
/// pixel differently.
#[verifier::external_body]
fn decode_rgb8(bytes: &[u8]) -> (r: Result<Rgb, image::ImageError>)
    ensures
        match r {
            Ok(img) => image_size(bytes@) == Some((img.w, img.h)) && img.pixels@.len() == img.w
                * img.h * 3,
            Err(_) => image_size(bytes@) is None,
        },
{
    let img = image::load_from_memory(bytes)?.to_rgb8();
    let (w, h) = img.dimensions();
    Ok(Rgb { w: w as usize, h: h as usize, pixels: img.into_raw() })
}

impl Rgb {
    /// There are pixels, and exactly as many bytes as they take.
    pub open spec fn wf(&self) -> bool {
        self.w > 0 && self.h > 0 && self.pixels@.len() == self.w * self.h * 3
    }
}

/// What becomes of a decoded image: it is kept if it has pixels.
pub fn usable(decoded: Result<Rgb, image::ImageError>) -> (r: Result<Rgb, PrepareError>)
    ensures
        match decoded {
            Err(e) => r == Err::<Rgb, PrepareError>(PrepareError::Decode(e)),
            Ok(img) => if img.w == 0 || img.h == 0 {
                r == Err::<Rgb, PrepareError>(PrepareError::ZeroDimension)
            } else {
                r == Ok::<Rgb, PrepareError>(img)
            },
        },
{
    match decoded {
        Err(e) => Err(PrepareError::Decode(e)),
        Ok(img) => {
            if img.w == 0 || img.h == 0 {
                return Err(PrepareError::ZeroDimension);
            }
            Ok(img)
        },
    }
}

/// Decode any supported container. Every image that can be decoded can be prepared, as
/// long as it has pixels.
pub fn prepare(bytes: &[u8]) -> (r: Result<Rgb, PrepareError>)
    ensures
        match image_size(bytes@) {
            None => r matches Err(PrepareError::Decode(_)),
            Some((w, h)) => if w == 0 || h == 0 {
                r matches Err(PrepareError::ZeroDimension)
            } else {
                r matches Ok(img) && img.w == w && img.h == h && img.wf()
            },
        },
{
    usable(decode_rgb8(bytes))
}

// ---------------------------------------------------------------------------
// Size
// ---------------------------------------------------------------------------
/// The larger of two sizes.
pub open spec fn larger(a: usize, b: usize) -> usize {
    if a > b {
        a
    } else {
        b
    }
}

fn larger_of(a: usize, b: usize) -> (r: usize)
    ensures
        r == larger(a, b),
{
    if a > b {
        a
    } else {
        b
    }
}

/// The most whole steps that sides `other` and this one have room for in `px` pixels.
pub open spec fn room(px: usize, other: usize, align: usize) -> usize {
    (px as int / other as int / align as int * align as int) as usize
}

/// The fewest whole steps that this side and `other` make `px` pixels with.
pub open spec fn need(px: usize, other: usize, align: usize) -> int {
    (px + other * align - 1) / (other * align) * align
}

/// A side of at least one step, and no longer than leaves the other one step.
pub open spec fn stepped(side: usize, align: usize, max_px: usize) -> usize {
    let most = larger(align, room(max_px, align, align));
    if side < align {
        align
    } else if side > most {
        most
    } else {
        side
    }
}

/// Sides brought inside the pixel bounds. Each is at least one step, and a sliver's
/// long side no longer than leaves its short one that step. What is over the ceiling
/// then gives way on its longer side, what is under the floor grows on its first.
pub open spec fn settled(align: usize, sides: (usize, usize), min_px: usize, max_px: usize) -> (
    usize,
    usize,
) {
    if align == 0 {
        sides
    } else {
        let w = stepped(sides.0, align, max_px);
        let h = stepped(sides.1, align, max_px);
        if w * h > max_px {
            if w >= h {
                (larger(align, room(max_px, h, align)), h)
            } else {
                (w, larger(align, room(max_px, w, align)))
            }
        } else if w * h < min_px {
            (need(min_px, h, align) as usize, h)
        } else {
            (w, h)
        }
    }
}

/// The sides of a resized image.
pub open spec fn resized(
    align: usize,
    rounded: (usize, usize),
    floored: (usize, usize),
    ceiled: (usize, usize),
    min_px: usize,
    max_px: usize,
) -> (usize, usize) {
    let w = larger(align, rounded.0);
    let h = larger(align, rounded.1);
    if w * h > max_px {
        settled(align, floored, min_px, max_px)
    } else if w * h < min_px {
        settled(align, ceiled, min_px, max_px)
    } else {
        (w, h)
    }
}

fn room_for(px: usize, other: usize, align: usize) -> (r: usize)
    requires
        other > 0,
        align > 0,
    ensures
        r == room(px, other, align),
{
    let q: usize = px / other;
    proof {
        let (a, n) = (q as int, align as int);
        assert(0 <= a / n * n <= a) by (nonlinear_arith)
            requires
                0 <= a,
                n > 0,
        ;
    }
    q / align * align
}

fn step_side(side: usize, align: usize, max_px: usize) -> (r: usize)
    requires
        align > 0,
    ensures
        r == stepped(side, align, max_px),
{
    let most: usize = larger_of(align, room_for(max_px, align, align));
    if side < align {
        align
    } else if side > most {
        most
    } else {
        side
    }
}

fn area_of(w: usize, h: usize) -> (r: u128)
    ensures
        r == w * h,
{
    proof {
        let (a, b) = (w as int, h as int);
        assert(0 <= a * b <= 0xFFFF_FFFF_FFFF_FFFF * 0xFFFF_FFFF_FFFF_FFFF) by (nonlinear_arith)
            requires
                0 <= a <= 0xFFFF_FFFF_FFFF_FFFF,
                0 <= b <= 0xFFFF_FFFF_FFFF_FFFF,
        ;
    }
    w as u128 * h as u128
}

fn settle(align: usize, sides: (usize, usize), min_px: usize, max_px: usize) -> (r: (usize, usize))
    ensures
        r == settled(align, sides, min_px, max_px),
{
    if align == 0 {
        return sides;
    }
    let w: usize = step_side(sides.0, align, max_px);
    let h: usize = step_side(sides.1, align, max_px);
    let area: u128 = area_of(w, h);
    if area > max_px as u128 {
        if w >= h {
            (larger_of(align, room_for(max_px, h, align)), h)
        } else {
            (w, larger_of(align, room_for(max_px, w, align)))
        }
    } else if area < min_px as u128 {
        let row: u128 = area_of(h, align);
        proof {
            let (p, q, n) = (min_px as int, row as int, align as int);
            assert(h * align > 0) by (nonlinear_arith)
                requires
                    h > 0,
                    align > 0,
            ;
            assert(q <= w * h) by (nonlinear_arith)
                requires
                    q == h * align,
                    w >= align,
                    h > 0,
            ;
            let steps = (p + q - 1) / q;
            assert(0 <= steps && steps * q <= p + q - 1) by (nonlinear_arith)
                requires
                    steps == (p + q - 1) / q,
                    p >= 0,
                    q > 0,
            ;
            assert(0 <= steps * n <= steps * q) by (nonlinear_arith)
                requires
                    q == h * n,
                    h >= 1,
                    n > 0,
                    steps >= 0,
            ;
        }
        let steps: u128 = (min_px as u128 + row - 1) / row;
        ((steps * align as u128) as usize, h)
    } else {
        (w, h)
    }
}

/// Pick the resized dimensions: aspect preserved, both sides a multiple of
/// `align`, area within `[min_px, max_px]`.
///
/// The candidates are the sides snapped to a multiple of `align` in three ways:
/// `rounded` at the image's own size, `floored` at the size that has `max_px`
/// pixels, `ceiled` at the size that has `min_px` pixels. Snapping comes first,
/// then the area is corrected: snapping can push a just-inside image over the
/// ceiling. The short side of a sliver is snapped up to one step, so its long side
/// is capped; there the bounds come before the aspect.
pub fn smart_resize(
    align: usize,
    rounded: (usize, usize),
    floored: (usize, usize),
    ceiled: (usize, usize),
    min_px: usize,
    max_px: usize,
) -> (r: (usize, usize))
    ensures
        r == resized(align, rounded, floored, ceiled, min_px, max_px),
{
    let w: usize = larger_of(align, rounded.0);
    let h: usize = larger_of(align, rounded.1);
    let area: u128 = area_of(w, h);
    if area > max_px as u128 {
        settle(align, floored, min_px, max_px)
    } else if area < min_px as u128 {
        settle(align, ceiled, min_px, max_px)
    } else {
        (w, h)
    }
}

/// Room in whole steps: as much as there is, and not a step less.
proof fn lemma_room(px: usize, other: usize, align: usize)
    requires
        other > 0,
        align > 0,
    ensures
        room(px, other, align) as int % align as int == 0,
        room(px, other, align) * other <= px,
        (room(px, other, align) + align) * other > px,
        other * align <= px ==> room(px, other, align) >= align,
{
    let (p, o, n) = (px as int, other as int, align as int);
    let q = p / o;
    let k = q / n;
    assert(0 <= q && q * o <= p < (q + 1) * o) by (nonlinear_arith)
        requires
            q == p / o,
            o > 0,
            p >= 0,
    ;
    assert(0 <= k * n <= q < k * n + n && k * n % n == 0) by (nonlinear_arith)
        requires
            k == q / n,
            n > 0,
            q >= 0,
    ;
    assert(q <= p) by (nonlinear_arith)
        requires
            q * o <= p,
            o > 0,
            q >= 0,
    ;
    let r = k * n;
    assert(r * o <= q * o && (r + n) * o >= (q + 1) * o) by (nonlinear_arith)
        requires
            r <= q,
            q + 1 <= r + n,
            o > 0,
    ;
    if o * n <= p {
        assert(q >= n) by (nonlinear_arith)
            requires
                o * n <= p,
                p < (q + 1) * o,
                o > 0,
        ;
        assert(k >= 1) by (nonlinear_arith)
            requires
                q >= n,
                n > 0,
                k == q / n,
        ;
        assert(k * n >= n) by (nonlinear_arith)
            requires
                k >= 1,
                n > 0,
        ;
    }
}

/// Whole steps that are needed: enough, and not a step more.
proof fn lemma_need(px: usize, other: usize, align: usize)
    requires
        other > 0,
        align > 0,
        px > 0,
    ensures
        need(px, other, align) % align as int == 0,
        need(px, other, align) >= align,
        px <= need(px, other, align) * other < px + other * align,
{
    let (p, o, n) = (px as int, other as int, align as int);
    let q = o * n;
    assert(q > 0) by (nonlinear_arith)
        requires
            q == o * n,
            o > 0,
            n > 0,
    ;
    let k = (p + q - 1) / q;
    assert(k >= 1 && k * q <= p + q - 1 < (k + 1) * q) by (nonlinear_arith)
        requires
            k == (p + q - 1) / q,
            q > 0,
            p > 0,
    ;
    assert((k + 1) * q == k * q + q) by (nonlinear_arith);
    assert(k * n * o == k * q && k * n % n == 0 && k * n >= n) by (nonlinear_arith)
        requires
            q == o * n,
            k >= 1,
            n > 0,
    ;
}

proof fn lemma_stepped(side: usize, align: usize, max_px: usize)
    requires
        align > 0,
        align * align <= max_px,
        side as int % align as int == 0,
    ensures
        stepped(side, align, max_px) as int % align as int == 0,
        align <= stepped(side, align, max_px),
        stepped(side, align, max_px) * align <= max_px,
{
    lemma_room(max_px, align, align);
    let (n, r, s) = (align as int, room(max_px, align, align) as int, side as int);
    assert(n % n == 0) by (nonlinear_arith)
        requires
            n > 0,
    ;
    if n <= s <= r {
        assert(s * n <= r * n) by (nonlinear_arith)
            requires
                s <= r,
                n > 0,
        ;
    }
}

/// Settled sides are whole steps with an area inside the bounds.
proof fn lemma_settled(align: usize, sides: (usize, usize), min_px: usize, max_px: usize)
    requires
        align > 0,
        align * align <= max_px,
        4 * min_px <= max_px,
        sides.0 as int % align as int == 0,
        sides.1 as int % align as int == 0,
    ensures
        ({
            let r = settled(align, sides, min_px, max_px);
            &&& r.0 as int % align as int == 0 && r.1 as int % align as int == 0
            &&& align <= r.0 && align <= r.1
            &&& min_px <= r.0 * r.1 <= max_px
        }),
{
    let w = stepped(sides.0, align, max_px);
    let h = stepped(sides.1, align, max_px);
    lemma_stepped(sides.0, align, max_px);
    lemma_stepped(sides.1, align, max_px);
    let (a, b, n, m) = (w as int, h as int, align as int, max_px as int);
    if a * b > m {
        if a >= b {
            lemma_room(max_px, h, align);
            let r = room(max_px, h, align) as int;
            assert(b * n == n * b && 2 * (r * b) >= (r + n) * b && r * b == b * r)
                by (nonlinear_arith)
                requires
                    r >= n,
                    b > 0,
            ;
        } else {
            lemma_room(max_px, w, align);
            let r = room(max_px, w, align) as int;
            assert(a * n == n * a && 2 * (r * a) >= (r + n) * a && r * a == a * r)
                by (nonlinear_arith)
                requires
                    r >= n,
                    a > 0,
            ;
        }
    } else if a * b < min_px {
        lemma_need(min_px, h, align);
        let k = need(min_px, h, align);
        assert(b * n <= a * b) by (nonlinear_arith)
            requires
                a >= n,
                b > 0,
        ;
        assert(k <= k * b) by (nonlinear_arith)
            requires
                k >= 0,
                b >= 1,
        ;
    }
}

proof fn lemma_settled_is_aligned(
    align: usize,
    sides: (usize, usize),
    min_px: usize,
    max_px: usize,
)
    requires
        align > 0,
        2 * min_px <= usize::MAX,
        sides.0 as int % align as int == 0,
        sides.1 as int % align as int == 0,
    ensures
        ({
            let r = settled(align, sides, min_px, max_px);
            r.0 as int % align as int == 0 && r.1 as int % align as int == 0
        }),
{
    let w = stepped(sides.0, align, max_px);
    let h = stepped(sides.1, align, max_px);
    lemma_room(max_px, align, align);
    lemma_room(max_px, w, align);
    lemma_room(max_px, h, align);
    let (a, b, n) = (w as int, h as int, align as int);
    assert(n % n == 0) by (nonlinear_arith)
        requires
            n > 0,
    ;
    if min_px > 0 && a * b < min_px {
        lemma_need(min_px, h, align);
        let k = need(min_px, h, align);
        assert(b * n <= a * b) by (nonlinear_arith)
            requires
                a >= n,
                b > 0,
        ;
        assert(k <= k * b) by (nonlinear_arith)
            requires
                k >= 0,
                b >= 1,
        ;
    }
    assert(0 <= a * b) by (nonlinear_arith)
        requires
            0 <= a,
            0 <= b,
    ;
}

/// A resized image is a whole number of steps on both sides, whatever the bounds.
pub proof fn resized_is_aligned(
    align: usize,
    rounded: (usize, usize),
    floored: (usize, usize),
    ceiled: (usize, usize),
    min_px: usize,
    max_px: usize,
)
    requires
        align > 0,
        2 * min_px <= usize::MAX,
        rounded.0 as int % align as int == 0 && rounded.1 as int % align as int == 0,
        floored.0 as int % align as int == 0 && floored.1 as int % align as int == 0,
        ceiled.0 as int % align as int == 0 && ceiled.1 as int % align as int == 0,
    ensures
        ({
            let r = resized(align, rounded, floored, ceiled, min_px, max_px);
            r.0 as int % align as int == 0 && r.1 as int % align as int == 0
        }),
{
    assert(align as int % align as int == 0) by (nonlinear_arith)
        requires
            align > 0,
    ;
    lemma_settled_is_aligned(align, floored, min_px, max_px);
    lemma_settled_is_aligned(align, ceiled, min_px, max_px);
}

/// A resized image is a whole number of steps on both sides, at least one, and its
/// area lies within the pixel bounds: where one step by one step fits under the
/// ceiling, and the floor is a quarter of it or less. Of the candidates nothing
/// matters but that they are whole steps.
pub proof fn resized_respects_bounds(
    align: usize,
    rounded: (usize, usize),
    floored: (usize, usize),
    ceiled: (usize, usize),
    min_px: usize,
    max_px: usize,
)
    requires
        align > 0,
        align * align <= max_px,
        4 * min_px <= max_px,
        rounded.0 as int % align as int == 0 && rounded.1 as int % align as int == 0,
        floored.0 as int % align as int == 0 && floored.1 as int % align as int == 0,
        ceiled.0 as int % align as int == 0 && ceiled.1 as int % align as int == 0,
    ensures
        ({
            let r = resized(align, rounded, floored, ceiled, min_px, max_px);
            &&& r.0 as int % align as int == 0 && r.1 as int % align as int == 0
            &&& align <= r.0 && align <= r.1
            &&& min_px <= r.0 * r.1 <= max_px
        }),
{
    assert(align as int % align as int == 0) by (nonlinear_arith)
        requires
            align > 0,
    ;
    lemma_settled(align, floored, min_px, max_px);
    lemma_settled(align, ceiled, min_px, max_px);
}

/// Sides that are whole steps and inside the bounds already are kept: correcting the
/// area costs no aspect where it need not.
pub proof fn fitting_sides_are_kept(
    align: usize,
    sides: (usize, usize),
    min_px: usize,
    max_px: usize,
)
    requires
        align <= sides.0 && align <= sides.1,
        sides.0 as int % align as int == 0 && sides.1 as int % align as int == 0,
        min_px <= sides.0 * sides.1 <= max_px,
    ensures
        settled(align, sides, min_px, max_px) == sides,
{
    if align > 0 {
        let (a, b, n, m) = (sides.0 as int, sides.1 as int, align as int, max_px as int);
        lemma_room(max_px, align, align);
        let r = room(max_px, align, align) as int;
        assert(a * n <= m && b * n <= m) by (nonlinear_arith)
            requires
                a >= n,
                b >= n,
                a * b <= m,
                n > 0,
        ;
        lemma_multiple_under(a, r, n, m);
        lemma_multiple_under(b, r, n, m);
    }
}

/// A whole number of steps that has room is at most the room.
proof fn lemma_multiple_under(a: int, r: int, n: int, m: int)
    requires
        n > 0,
        a % n == 0,
        r % n == 0,
        a * n <= m,
        (r + n) * n > m,
    ensures
        a <= r,
{
    assert(a < r + n) by (nonlinear_arith)
        requires
            a * n <= m,
            (r + n) * n > m,
            n > 0,
    ;
    assert(a == n * (a / n) && r == n * (r / n)) by (nonlinear_arith)
        requires
            n > 0,
            a % n == 0,
            r % n == 0,
    ;
    let (x, y) = (a / n, r / n);
    assert(x < y + 1) by (nonlinear_arith)
        requires
            n * x < n * y + n,
            n > 0,
    ;
    assert(n * x <= n * y) by (nonlinear_arith)
        requires
            x <= y,
            n > 0,
    ;
}

// ---------------------------------------------------------------------------
// Layout
// ---------------------------------------------------------------------------
/// Interleaved pixels as planes: `[c][y][x]`.
pub open spec fn planes(pixels: Seq<u8>, n: nat) -> Seq<u8> {
    Seq::new(3 * n, |i: int| pixels[(i % n as int) * 3 + i / n as int])
}

proof fn lemma_in_plane(i: int, n: int)
    requires
        n > 0,
        0 <= i < 3 * n,
    ensures
        0 <= i / n < 3,
        0 <= i % n < n,
        0 <= (i % n) * 3 + i / n < 3 * n,
{
    assert(0 <= i / n < 3 && 0 <= i % n < n) by (nonlinear_arith)
        requires
            n > 0,
            0 <= i < 3 * n,
    ;
}

/// The planes of an interleaved image.
pub fn planar(pixels: &[u8], n: usize) -> (r: Vec<u8>)
    requires
        pixels@.len() == 3 * n,
    ensures
        r@ == planes(pixels@, n as nat),
{
    let len: usize = pixels.len();
    let mut out: Vec<u8> = Vec::new();
    let mut i: usize = 0;
    while i < len
        invariant
            i <= len,
            len == 3 * n,
            pixels@.len() == len,
            out@ == planes(pixels@, n as nat).take(i as int),
        decreases len - i,
    {
        proof {
            lemma_in_plane(i as int, n as int);
        }
        out.push(pixels[i % n * 3 + i / n]);
        i = i + 1;
        assert(out@ =~= planes(pixels@, n as nat).take(i as int));
    }
    assert(out@ =~= planes(pixels@, n as nat));
    out
}

/// A plane holds one channel of every pixel, in order.
pub proof fn planes_hold_channels(pixels: Seq<u8>, n: nat, c: int, k: int)
    requires
        pixels.len() == 3 * n,
        0 <= c < 3,
        0 <= k < n,
    ensures
        planes(pixels, n).len() == pixels.len(),
        planes(pixels, n)[c * n + k] == pixels[k * 3 + c],
{
    assert(0 <= c * n + k < 3 * n && (c * n + k) % n as int == k && (c * n + k) / n as int == c)
        by (nonlinear_arith)
        requires
            0 <= c < 3,
            0 <= k < n,
    ;
}

/// A resized image, channel-planar; the samples are in `[-1, 1]`, as bits.
pub struct Planar {
    pub w: usize,
    pub h: usize,
    pub data: Vec<u32>,
}

impl Planar {
    /// Patch grid this image produces.
    pub fn grid(&self, patch: usize) -> (r: (usize, usize))
        requires
            patch > 0,
        ensures
            r.0 == self.w as int / patch as int,
            r.1 == self.h as int / patch as int,
    {
        (self.w / patch, self.h / patch)
    }
}

} // verus!
