//! Client frames: cropping to the window geometry, viewports, and flattening a
//! surface tree into one buffer.
//!
//! A frame is `(width, height, pixels)` with tightly-packed RGBA8 pixels.

use std::collections::HashMap;

use vstd::prelude::*;
use vstd::std_specs::iter::IteratorSpec;

use crate::render;
use crate::render::ShmFormat;

verus! {

broadcast use vstd::std_specs::hash::group_hash_axioms;

/// A rectangle in surface pixels.
#[derive(Debug, Clone, Copy, PartialEq, Eq, Structural)]
pub struct Rect {
    pub x: i32,
    pub y: i32,
    pub w: i32,
    pub h: i32,
}

/// A rectangle in 1/256 of a pixel, the fixed-point unit of the protocol.
#[derive(Debug, Clone, Copy, PartialEq, Eq, Structural)]
pub struct FixedRect {
    pub x: i32,
    pub y: i32,
    pub w: i32,
    pub h: i32,
}

/// `v` limited to the range from `lo` to `hi`.
pub open spec fn clamped(v: int, lo: int, hi: int) -> int {
    if v < lo {
        lo
    } else if v > hi {
        hi
    } else {
        v
    }
}

/// Executable form of [`clamped`].
fn clamp(v: i64, lo: i64, hi: i64) -> (r: i64)
    requires
        lo <= hi,
    ensures
        r == clamped(v as int, lo as int, hi as int),
        lo <= r <= hi,
{
    if v < lo {
        lo
    } else if v > hi {
        hi
    } else {
        v
    }
}

/// Whether the pixels are those of a frame of the given size, which the protocol
/// counts in 32 bits with a sign.
pub open spec fn frame_ok(w: int, h: int, pixels: Seq<u8>) -> bool {
    pixels.len() == w * h * 4 && 0 <= w <= i32::MAX && 0 <= h <= i32::MAX
}

// ---------------------------------------------------------------------------
// Reading shared memory
// ---------------------------------------------------------------------------

/// The frame in a client's shared memory pool, from the buffer's offset on.
pub open spec fn shm_frame(
    pool: Seq<u8>,
    offset: int,
    width: int,
    height: int,
    stride: int,
    format: ShmFormat,
) -> Option<(int, int, Seq<u8>)> {
    let start = if offset > 0 {
        offset
    } else {
        0
    };
    if width <= 0 || height <= 0 || start > pool.len() {
        None
    } else {
        Some((width, height, render::rgba_image(pool.skip(start), width, height, stride, format)))
    }
}

/// Decode the buffer at `offset` of a shared memory pool. `None` for an empty
/// size, or for an offset outside the pool. The format is `None` when it is not
/// one that can be converted.
pub fn read_shm(
    pool: &[u8],
    offset: i32,
    width: i32,
    height: i32,
    stride: i32,
    format: Option<ShmFormat>,
) -> (r: Option<(u32, u32, Vec<u8>)>)
    requires
        stride >= 0,
        width > 0 && height > 0 ==> width * height * 4 <= isize::MAX,
    ensures
        match (format, r) {
            (Some(f), Some((w, h, px))) => shm_frame(
                pool@,
                offset as int,
                width as int,
                height as int,
                stride as int,
                f,
            ) == Some((w as int, h as int, px@)) && frame_ok(w as int, h as int, px@),
            (Some(f), None) => shm_frame(
                pool@,
                offset as int,
                width as int,
                height as int,
                stride as int,
                f,
            ) is None,
            (None, _) => r is None,
        },
{
    let fmt = match format {
        Some(f) => f,
        None => return None,
    };
    if width <= 0 || height <= 0 {
        return None;
    }
    let start: usize = if offset > 0 { offset as usize } else { 0 };
    if start > pool.len() {
        return None;
    }
    let slice = vstd::slice::slice_subrange(pool, start, pool.len());
    assert(slice@ =~= pool@.skip(start as int));
    assert(width * height >= 0) by (nonlinear_arith)
        requires
            width > 0,
            height > 0,
    ;
    let rgba = render::convert_to_rgba(
        slice,
        width as usize,
        height as usize,
        stride as usize,
        fmt,
    );
    Some((width as u32, height as u32, rgba))
}

// ---------------------------------------------------------------------------
// Cropping
// ---------------------------------------------------------------------------

/// The part of a frame's pixels that starts at `(x0, y0)` and is `nw`x`nh`.
pub open spec fn sub_image(
    pixels: Seq<u8>,
    w: int,
    x0: int,
    y0: int,
    nw: int,
    nh: int,
) -> Seq<u8> {
    Seq::new(
        (nw * nh * 4) as nat,
        |i: int|
            pixels[render::byte_at(
                x0 + render::byte_col(i, nw),
                y0 + render::byte_row(i, nw),
                i % 4,
                w,
            )],
    )
}

/// The rectangle limited to a `w`x`h` frame, as left, top, width and height.
pub open spec fn crop_box(rect: Rect, w: int, h: int) -> (int, int, int, int) {
    let x0 = clamped(rect.x as int, 0, w);
    let y0 = clamped(rect.y as int, 0, h);
    let x1 = clamped(rect.x + rect.w, 0, w);
    let y1 = clamped(rect.y + rect.h, 0, h);
    (x0, y0, x1 - x0, y1 - y0)
}

/// A frame cropped to the geometry, with the offset of what is left. Without a
/// geometry, with an empty one or with one that covers the frame it stays whole.
pub open spec fn cropped(
    w: int,
    h: int,
    pixels: Seq<u8>,
    geometry: Option<Rect>,
) -> ((int, int, Seq<u8>), (int, int)) {
    match geometry {
        Some(rect) => {
            let (x0, y0, nw, nh) = crop_box(rect, w, h);
            if nw <= 0 || nh <= 0 || (x0 == 0 && y0 == 0 && nw == w && nh == h) {
                ((w, h, pixels), (0, 0))
            } else {
                ((nw, nh, sub_image(pixels, w, x0, y0, nw, nh)), (x0, y0))
            }
        },
        None => ((w, h, pixels), (0, 0)),
    }
}

/// Crop a tightly-packed RGBA8 `(w, h, pixels)` buffer to `geometry` (clamped),
/// returning the cropped buffer and the top-left offset used. A missing or
/// full-buffer geometry is a no-op (offset `(0, 0)`).
pub fn crop_to_geometry(buffer: (u32, u32, Vec<u8>), geometry: Option<Rect>) -> (r: (
    (u32, u32, Vec<u8>),
    (i32, i32),
))
    requires
        frame_ok(buffer.0 as int, buffer.1 as int, buffer.2@),
    ensures
        cropped(buffer.0 as int, buffer.1 as int, buffer.2@, geometry) == (
            (r.0.0 as int, r.0.1 as int, r.0.2@),
            (r.1.0 as int, r.1.1 as int),
        ),
        frame_ok(r.0.0 as int, r.0.1 as int, r.0.2@),
{
    let (w, h, pixels) = buffer;
    let rect = match geometry {
        Some(rect) => rect,
        None => return ((w, h, pixels), (0, 0)),
    };
    let cw: i64 = w as i64;
    let ch: i64 = h as i64;
    let x0: i64 = clamp(rect.x as i64, 0, cw);
    let y0: i64 = clamp(rect.y as i64, 0, ch);
    let x1: i64 = clamp(rect.x as i64 + rect.w as i64, 0, cw);
    let y1: i64 = clamp(rect.y as i64 + rect.h as i64, 0, ch);
    let nw: i64 = x1 - x0;
    let nh: i64 = y1 - y0;
    if nw <= 0 || nh <= 0 || (x0 == 0 && y0 == 0 && nw == cw && nh == ch) {
        return ((w, h, pixels), (0, 0));
    }
    let out = copy_region(
        &pixels,
        w as usize,
        h as usize,
        x0 as usize,
        y0 as usize,
        nw as usize,
        nh as usize,
    );
    assert(nw * nh >= 0) by (nonlinear_arith)
        requires
            nw > 0,
            nh > 0,
    ;
    ((nw as u32, nh as u32, out), (x0 as i32, y0 as i32))
}

/// Copies the part of a frame that starts at `(x0, y0)` and is `nw`x`nh`.
fn copy_region(
    pixels: &Vec<u8>,
    w: usize,
    h: usize,
    x0: usize,
    y0: usize,
    nw: usize,
    nh: usize,
) -> (out: Vec<u8>)
    requires
        frame_ok(w as int, h as int, pixels@),
        x0 + nw <= w,
        y0 + nh <= h,
    ensures
        out@ == sub_image(pixels@, w as int, x0 as int, y0 as int, nw as int, nh as int),
{
    let have: usize = pixels.len();
    let ghost want = sub_image(pixels@, w as int, x0 as int, y0 as int, nw as int, nh as int);
    let mut out: Vec<u8> = Vec::new();
    assert(nw * nh >= 0) by (nonlinear_arith);
    assert(0 * nw == 0);
    let mut row: usize = 0;
    while row < nh
        invariant
            row <= nh,
            have == pixels@.len(),
            frame_ok(w as int, h as int, pixels@),
            x0 + nw <= w,
            y0 + nh <= h,
            want == sub_image(pixels@, w as int, x0 as int, y0 as int, nw as int, nh as int),
            out@.len() == row * nw * 4,
            row * nw * 4 <= want.len(),
            forall|i: int| 0 <= i < out@.len() ==> #[trigger] out@[i] == want[i],
            nw * nh * 4 == want.len(),
        decreases nh - row,
    {
        let mut col: usize = 0;
        while col < nw
            invariant
                col <= nw,
                row < nh,
                have == pixels@.len(),
                frame_ok(w as int, h as int, pixels@),
                x0 + nw <= w,
                y0 + nh <= h,
                want == sub_image(pixels@, w as int, x0 as int, y0 as int, nw as int, nh as int),
                out@.len() == (row * nw + col) * 4,
                forall|i: int| 0 <= i < out@.len() ==> #[trigger] out@[i] == want[i],
                nw * nh * 4 == want.len(),
            decreases nw - col,
        {
            let ghost at = render::byte_at(x0 + col, y0 + row, 0, w as int);
            let ghost d = render::byte_at(col as int, row as int, 0, nw as int);
            let ghost before = out@;
            proof {
                render::lemma_byte_in_image(x0 + col, y0 + row, w as int, h as int);
                render::lemma_byte_in_image(col as int, row as int, nw as int, nh as int);
                render::lemma_byte_at(col as int, row as int, 0, nw as int);
                render::lemma_byte_at(col as int, row as int, 1, nw as int);
                render::lemma_byte_at(col as int, row as int, 2, nw as int);
                render::lemma_byte_at(col as int, row as int, 3, nw as int);
                assert((y0 + row) * w >= 0) by (nonlinear_arith)
                    requires
                        y0 >= 0,
                        row >= 0,
                        w >= 0,
                ;
            }
            let s: usize = ((y0 + row) * w + x0 + col) * 4;
            out.push(pixels[s]);
            out.push(pixels[s + 1]);
            out.push(pixels[s + 2]);
            out.push(pixels[s + 3]);
            col += 1;
            proof {
                assert forall|i: int| 0 <= i < out@.len() implies #[trigger] out@[i] == want[i] by {
                    if i < before.len() {
                        assert(out@[i] == before[i]);
                    } else {
                        assert(i == d || i == d + 1 || i == d + 2 || i == d + 3);
                        assert(d == render::byte_at(col - 1, row as int, 0, nw as int));
                        assert(out@[i] == pixels@[at + (i - d)]);
                        assert(i == render::byte_at(col - 1, row as int, i - d, nw as int));
                        assert(want[i] == pixels@[render::byte_at(
                            x0 + col - 1,
                            y0 + row,
                            i - d,
                            w as int,
                        )]);
                    }
                }
            }
        }
        row += 1;
        proof {
            assert(row * nw == (row - 1) * nw + nw) by (nonlinear_arith);
            assert(row * nw <= nw * nh) by (nonlinear_arith)
                requires
                    row <= nh,
                    nw >= 0,
            ;
        }
    }
    proof {
        assert(nh * nw == nw * nh) by (nonlinear_arith);
        assert(out@ =~= want);
    }
    out
}

// ---------------------------------------------------------------------------
// Viewports
// ---------------------------------------------------------------------------

/// The source region of a viewport in 1/256 of a pixel: the given one, or the
/// whole frame when there is none or it is empty.
pub open spec fn source_region(src: Option<FixedRect>, w: int, h: int) -> (int, int, int, int) {
    match src {
        Some(r) => if r.w > 0 && r.h > 0 {
            (r.x as int, r.y as int, r.w as int, r.h as int)
        } else {
            (0, 0, w * 256, h * 256)
        },
        None => (0, 0, w * 256, h * 256),
    }
}

/// A positive length in 1/256 of a pixel, rounded to whole pixels but never to
/// nothing.
pub open spec fn rounded(v: int) -> int {
    if (v + 128) / 256 < 1 {
        1
    } else {
        (v + 128) / 256
    }
}

/// The size of a frame behind its viewport: the destination size, or the
/// rounded size of the source region when there is none or it is empty.
pub open spec fn viewport_size(
    w: int,
    h: int,
    src: Option<FixedRect>,
    dst: Option<(i32, i32)>,
) -> (int, int) {
    let (_, _, sw, sh) = source_region(src, w, h);
    match dst {
        Some((dw, dh)) => if dw > 0 && dh > 0 {
            (dw as int, dh as int)
        } else {
            (rounded(sw), rounded(sh))
        },
        None => (rounded(sw), rounded(sh)),
    }
}

/// Whether a frame of the size behind the viewport can be held.
pub open spec fn viewport_fits(
    w: int,
    h: int,
    src: Option<FixedRect>,
    dst: Option<(i32, i32)>,
) -> bool {
    let (dw, dh) = viewport_size(w, h, src, dst);
    dw * dh * 4 <= isize::MAX
}

/// The source pixel that destination pixel `o` of `d` shows: the one under the
/// centre of the destination pixel, where the source runs from `s` for `len`
/// (both in 1/256 of a pixel) and has `limit` pixels.
pub open spec fn sampled(o: int, s: int, len: int, d: int, limit: int) -> int {
    clamped((2 * d * s + (2 * o + 1) * len) / (512 * d), 0, limit - 1)
}

/// The pixels of a frame behind its viewport, nearest neighbour.
pub open spec fn scaled_pixels(
    w: int,
    h: int,
    pixels: Seq<u8>,
    region: (int, int, int, int),
    dw: int,
    dh: int,
) -> Seq<u8> {
    Seq::new(
        (dw * dh * 4) as nat,
        |i: int|
            pixels[render::byte_at(
                sampled(render::byte_col(i, dw), region.0, region.2, dw, w),
                sampled(render::byte_row(i, dw), region.1, region.3, dh, h),
                i % 4,
                w,
            )],
    )
}

/// A frame behind its viewport.
pub open spec fn viewed(
    w: int,
    h: int,
    pixels: Seq<u8>,
    src: Option<FixedRect>,
    dst: Option<(i32, i32)>,
) -> (int, int, Seq<u8>) {
    let region = source_region(src, w, h);
    let (dw, dh) = viewport_size(w, h, src, dst);
    if (src is None && dst is None) || (dw == w && dh == h && region == (
        0int,
        0int,
        w * 256,
        h * 256,
    )) {
        (w, h, pixels)
    } else {
        (dw, dh, scaled_pixels(w, h, pixels, region, dw, dh))
    }
}

/// Executable form of [`sampled`].
fn sample(o: u32, s: i64, len: i64, d: u32, limit: u32) -> (r: usize)
    requires
        o < d,
        limit > 0,
        -0x8000_0000 <= s <= 0x7fff_ffff,
        0 < len <= 0xff_ffff_ff00,
    ensures
        r == sampled(o as int, s as int, len as int, d as int, limit as int),
        r < limit,
{
    proof {
        assert(-0x4000_0000_0000_0000_0000 <= (2 * d) * s <= 0x4000_0000_0000_0000_0000)
            by (nonlinear_arith)
            requires
                0 <= d <= 0xffff_ffff,
                -0x8000_0000 <= s <= 0x7fff_ffff,
        ;
        assert(0 <= (2 * o + 1) * len <= 0x4000_0000_0000_0000_0000) by (nonlinear_arith)
            requires
                0 <= o <= 0xffff_ffff,
                0 < len <= 0xff_ffff_ff00,
        ;
    }
    let num: i128 = (2 * d as i128) * s as i128 + (2 * o as i128 + 1) * len as i128;
    let den: i128 = 512 * d as i128;
    if num < 0 {
        proof {
            let q = (num as int) / (den as int);
            assert(q < 0) by (nonlinear_arith)
                requires
                    num < 0,
                    den > 0,
                    q == (num as int) / (den as int),
            ;
        }
        return 0;
    }
    let q: i128 = num / den;
    assert(q >= 0) by (nonlinear_arith)
        requires
            num >= 0,
            den > 0,
            q == num / den,
    ;
    if q > limit as i128 - 1 {
        limit as usize - 1
    } else {
        q as usize
    }
}

/// Apply a `wp_viewport` to a decoded RGBA frame: crop to the (fractional)
/// `src` rectangle, then scale to the `dst` size, nearest-neighbour. Without a
/// viewport the frame passes through untouched. Degenerate rectangles fall back
/// to the previous stage rather than producing an empty frame.
pub fn apply_viewport(
    frame: (u32, u32, Vec<u8>),
    src: Option<FixedRect>,
    dst: Option<(i32, i32)>,
) -> (r: (u32, u32, Vec<u8>))
    requires
        frame_ok(frame.0 as int, frame.1 as int, frame.2@),
        src is Some || dst is Some ==> frame.0 > 0 && frame.1 > 0,
        src is Some || dst is Some ==> viewport_fits(frame.0 as int, frame.1 as int, src, dst),
    ensures
        viewed(frame.0 as int, frame.1 as int, frame.2@, src, dst) == (
            r.0 as int,
            r.1 as int,
            r.2@,
        ),
        frame_ok(r.0 as int, r.1 as int, r.2@),
{
    let (w, h, pixels) = frame;
    if src.is_none() && dst.is_none() {
        return (w, h, pixels);
    }
    let whole: (i64, i64, i64, i64) = (0, 0, w as i64 * 256, h as i64 * 256);
    let region: (i64, i64, i64, i64) = match src {
        Some(r) => if r.w > 0 && r.h > 0 {
            (r.x as i64, r.y as i64, r.w as i64, r.h as i64)
        } else {
            whole
        },
        None => whole,
    };
    let (sx, sy, sw, sh) = region;
    let near: (u32, u32) = (round_fixed(sw), round_fixed(sh));
    let (dw, dh): (u32, u32) = match dst {
        Some((a, b)) => if a > 0 && b > 0 {
            (a as u32, b as u32)
        } else {
            near
        },
        None => near,
    };
    if dw == w && dh == h && sx == 0 && sy == 0 && sw == w as i64 * 256 && sh == h as i64 * 256 {
        return (w, h, pixels);
    }
    let out = scale(&pixels, w, h, (sx, sy, sw, sh), dw, dh);
    assert(dw * dh >= 0) by (nonlinear_arith);
    (dw, dh, out)
}

/// Executable form of [`rounded`].
fn round_fixed(v: i64) -> (r: u32)
    requires
        0 < v <= 0xff_ffff_ff00,
    ensures
        r == rounded(v as int),
{
    let q: i64 = (v + 128) / 256;
    if q < 1 {
        1
    } else {
        q as u32
    }
}

/// Fills a `dw`x`dh` frame with samples of the source region.
fn scale(
    pixels: &Vec<u8>,
    w: u32,
    h: u32,
    region: (i64, i64, i64, i64),
    dw: u32,
    dh: u32,
) -> (out: Vec<u8>)
    requires
        frame_ok(w as int, h as int, pixels@),
        w > 0,
        h > 0,
        -0x8000_0000 <= region.0 <= 0x7fff_ffff,
        -0x8000_0000 <= region.1 <= 0x7fff_ffff,
        0 < region.2 <= 0xff_ffff_ff00,
        0 < region.3 <= 0xff_ffff_ff00,
        dw * dh * 4 <= isize::MAX,
    ensures
        out@ == scaled_pixels(
            w as int,
            h as int,
            pixels@,
            (region.0 as int, region.1 as int, region.2 as int, region.3 as int),
            dw as int,
            dh as int,
        ),
{
    let have: usize = pixels.len();
    let ghost reg = (region.0 as int, region.1 as int, region.2 as int, region.3 as int);
    let ghost want = scaled_pixels(w as int, h as int, pixels@, reg, dw as int, dh as int);
    let mut out: Vec<u8> = Vec::new();
    assert(dw * dh >= 0) by (nonlinear_arith);
    let mut oy: u32 = 0;
    while oy < dh
        invariant
            oy <= dh,
            have == pixels@.len(),
            frame_ok(w as int, h as int, pixels@),
            w > 0,
            h > 0,
            -0x8000_0000 <= region.0 <= 0x7fff_ffff,
            -0x8000_0000 <= region.1 <= 0x7fff_ffff,
            0 < region.2 <= 0xff_ffff_ff00,
            0 < region.3 <= 0xff_ffff_ff00,
            reg == (region.0 as int, region.1 as int, region.2 as int, region.3 as int),
            want == scaled_pixels(w as int, h as int, pixels@, reg, dw as int, dh as int),
            dw * dh * 4 == want.len(),
            out@.len() == oy * dw * 4,
            forall|i: int| 0 <= i < out@.len() ==> #[trigger] out@[i] == want[i],
        decreases dh - oy,
    {
        let by: usize = sample(oy, region.1, region.3, dh, h);
        let mut ox: u32 = 0;
        while ox < dw
            invariant
                ox <= dw,
                oy < dh,
                have == pixels@.len(),
                frame_ok(w as int, h as int, pixels@),
                w > 0,
                h > 0,
                by == sampled(oy as int, region.1 as int, region.3 as int, dh as int, h as int),
                by < h,
                -0x8000_0000 <= region.0 <= 0x7fff_ffff,
                0 < region.2 <= 0xff_ffff_ff00,
                reg == (region.0 as int, region.1 as int, region.2 as int, region.3 as int),
                want == scaled_pixels(w as int, h as int, pixels@, reg, dw as int, dh as int),
                dw * dh * 4 == want.len(),
                out@.len() == (oy * dw + ox) * 4,
                forall|i: int| 0 <= i < out@.len() ==> #[trigger] out@[i] == want[i],
            decreases dw - ox,
        {
            let bx: usize = sample(ox, region.0, region.2, dw, w);
            let ghost at = render::byte_at(bx as int, by as int, 0, w as int);
            let ghost d = render::byte_at(ox as int, oy as int, 0, dw as int);
            let ghost before = out@;
            proof {
                render::lemma_byte_in_image(bx as int, by as int, w as int, h as int);
                render::lemma_byte_in_image(ox as int, oy as int, dw as int, dh as int);
                render::lemma_byte_at(ox as int, oy as int, 0, dw as int);
                render::lemma_byte_at(ox as int, oy as int, 1, dw as int);
                render::lemma_byte_at(ox as int, oy as int, 2, dw as int);
                render::lemma_byte_at(ox as int, oy as int, 3, dw as int);
                assert(by * w >= 0) by (nonlinear_arith);
            }
            let s: usize = (by * w as usize + bx) * 4;
            out.push(pixels[s]);
            out.push(pixels[s + 1]);
            out.push(pixels[s + 2]);
            out.push(pixels[s + 3]);
            ox += 1;
            proof {
                assert forall|i: int| 0 <= i < out@.len() implies #[trigger] out@[i] == want[i] by {
                    if i < before.len() {
                        assert(out@[i] == before[i]);
                    } else {
                        assert(i == d || i == d + 1 || i == d + 2 || i == d + 3);
                        assert(out@[i] == pixels@[at + (i - d)]);
                        assert(i == render::byte_at(ox - 1, oy as int, i - d, dw as int));
                        assert(want[i] == pixels@[render::byte_at(
                            bx as int,
                            by as int,
                            i - d,
                            w as int,
                        )]);
                    }
                }
            }
        }
        oy += 1;
        proof {
            assert(oy * dw == (oy - 1) * dw + dw) by (nonlinear_arith);
        }
    }
    proof {
        assert(dh * dw == dw * dh) by (nonlinear_arith);
        assert(out@ =~= want);
    }
    out
}

// ---------------------------------------------------------------------------
// Flattening a surface tree
// ---------------------------------------------------------------------------

/// What a surface attached with its last commit.
pub enum Attachment {
    /// A buffer, decoded to RGBA8 (`None` if it could not be), with the
    /// viewport it is shown through.
    Buffer {
        frame: Option<(u32, u32, Vec<u8>)>,
        src: Option<FixedRect>,
        dst: Option<(i32, i32)>,
    },
    /// The buffer was removed.
    Removed,
    /// Nothing new.
    Unchanged,
}

/// One surface of a tree, in painting order (back to front).
pub struct SurfaceNode {
    pub surface: u64,
    /// Position relative to the root.
    pub x: i32,
    pub y: i32,
    pub attachment: Attachment,
}

/// The last-known pixels of a surface.
pub struct CachedFrame {
    pub width: u32,
    pub height: u32,
    pub pixels: Vec<u8>,
}

/// What a [`CachedFrame`] holds.
#[verifier::ext_equal]
pub struct CachedView {
    pub width: u32,
    pub height: u32,
    pub pixels: Seq<u8>,
}

impl View for CachedFrame {
    type V = CachedView;

    open spec fn view(&self) -> CachedView {
        CachedView { width: self.width, height: self.height, pixels: self.pixels@ }
    }
}

/// The pixels known per surface.
pub open spec fn cache_view(m: Map<u64, CachedFrame>) -> Map<u64, CachedView> {
    m.map_values(|f: CachedFrame| f@)
}

/// Where a subsurface stands whose parent stands at `parent`.
pub fn surface_location(parent: (i32, i32), offset: (i32, i32)) -> (r: (i32, i32))
    requires
        i32::MIN <= parent.0 + offset.0 <= i32::MAX,
        i32::MIN <= parent.1 + offset.1 <= i32::MAX,
    ensures
        r.0 == parent.0 + offset.0,
        r.1 == parent.1 + offset.1,
{
    (parent.0 + offset.0, parent.1 + offset.1)
}

/// Whether a node's buffer can be shown: its pixels fit its size, and so does
/// what its viewport makes of it.
pub open spec fn node_ok(n: SurfaceNode) -> bool {
    match n.attachment {
        Attachment::Buffer { frame: Some(f), src, dst } => {
            &&& frame_ok(f.0 as int, f.1 as int, f.2@)
            &&& src is Some || dst is Some ==> f.0 > 0 && f.1 > 0 && viewport_fits(
                f.0 as int,
                f.1 as int,
                src,
                dst,
            )
        },
        _ => true,
    }
}

/// Whether `w` by `h` pixels take at most `limit` bytes.
fn area_fits(w: u32, h: u32, limit: u128) -> (r: bool)
    ensures
        r == (w * h * 4 <= limit),
{
    assert(0 <= w * h <= 0xffff_ffff * 0xffff_ffff) by (nonlinear_arith)
        requires
            0 <= w <= 0xffff_ffff,
            0 <= h <= 0xffff_ffff,
    ;
    (w as u128) * (h as u128) * 4 <= limit
}

/// Whether a node's buffer can be shown, as [`composite_tree`] needs it.
pub fn node_fits(n: &SurfaceNode) -> (r: bool)
    ensures
        r == node_ok(*n),
{
    match &n.attachment {
        Attachment::Buffer { frame: Some(f), src, dst } => {
            let (w, h): (u32, u32) = (f.0, f.1);
            let len: usize = f.2.len();
            if w > i32::MAX as u32 || h > i32::MAX as u32 {
                return false;
            }
            if !area_fits(w, h, len as u128) || (len > 0 && area_fits(w, h, len as u128 - 1)) {
                return false;
            }
            if src.is_none() && dst.is_none() {
                return true;
            }
            if w == 0 || h == 0 {
                return false;
            }
            let (sw, sh): (i64, i64) = match src {
                Some(r) => if r.w > 0 && r.h > 0 {
                    (r.w as i64, r.h as i64)
                } else {
                    (w as i64 * 256, h as i64 * 256)
                },
                None => (w as i64 * 256, h as i64 * 256),
            };
            let near: (u32, u32) = (round_fixed(sw), round_fixed(sh));
            let (dw, dh): (u32, u32) = match dst {
                Some((a, b)) => if *a > 0 && *b > 0 {
                    (*a as u32, *b as u32)
                } else {
                    near
                },
                None => near,
            };
            area_fits(dw, dh, isize::MAX as u128)
        },
        _ => true,
    }
}

/// The cache once a node has been visited.
pub open spec fn node_cached(cache: Map<u64, CachedView>, n: SurfaceNode) -> Map<u64, CachedView> {
    match n.attachment {
        Attachment::Buffer { frame: Some(f), src, dst } => {
            let (w, h, px) = viewed(f.0 as int, f.1 as int, f.2@, src, dst);
            cache.insert(
                n.surface,
                CachedView { width: w as u32, height: h as u32, pixels: px },
            )
        },
        Attachment::Buffer { frame: None, src, dst } => cache,
        Attachment::Removed => cache.remove(n.surface),
        Attachment::Unchanged => cache,
    }
}

/// The cache once all nodes have been visited.
pub open spec fn tree_cached(
    cache: Map<u64, CachedView>,
    nodes: Seq<SurfaceNode>,
) -> Map<u64, CachedView>
    decreases nodes.len(),
{
    if nodes.len() == 0 {
        cache
    } else {
        node_cached(tree_cached(cache, nodes.drop_last()), nodes.last())
    }
}

/// The surfaces that are painted, back to front, with their positions: those
/// that have pixels when they are visited.
pub open spec fn tree_drawn(
    cache: Map<u64, CachedView>,
    nodes: Seq<SurfaceNode>,
) -> Seq<(i32, i32, u64)>
    decreases nodes.len(),
{
    if nodes.len() == 0 {
        Seq::empty()
    } else {
        let before = tree_drawn(cache, nodes.drop_last());
        let n = nodes.last();
        if tree_cached(cache, nodes).contains_key(n.surface) {
            before.push((n.x, n.y, n.surface))
        } else {
            before
        }
    }
}

/// The canvas with the surfaces painted over each other.
pub open spec fn painted(
    canvas: Seq<u8>,
    cw: int,
    ch: int,
    cache: Map<u64, CachedView>,
    drawn: Seq<(i32, i32, u64)>,
) -> Seq<u8>
    decreases drawn.len(),
{
    if drawn.len() == 0 {
        canvas
    } else {
        let under = painted(canvas, cw, ch, cache, drawn.drop_last());
        let (x, y, s) = drawn.last();
        if cache.contains_key(s) {
            render::blitted(
                under,
                cw,
                ch,
                x as int,
                y as int,
                cache[s].pixels,
                cache[s].width as int,
                cache[s].height as int,
            )
        } else {
            under
        }
    }
}

/// The flattened tree: a transparent canvas of the root's size with every
/// surface painted over it. `None` when the root has no pixels.
pub open spec fn flattened(
    cache: Map<u64, CachedView>,
    root: u64,
    nodes: Seq<SurfaceNode>,
) -> Option<(int, int, Seq<u8>)> {
    let after = tree_cached(cache, nodes);
    if after.contains_key(root) {
        let cw = after[root].width as int;
        let ch = after[root].height as int;
        Some(
            (
                cw,
                ch,
                painted(
                    Seq::new((cw * ch * 4) as nat, |i: int| 0u8),
                    cw,
                    ch,
                    after,
                    tree_drawn(cache, nodes),
                ),
            ),
        )
    } else {
        None
    }
}

/// The cache without the surfaces that are no longer alive.
pub open spec fn pruned(cache: Map<u64, CachedView>, alive: Seq<u64>) -> Map<u64, CachedView> {
    cache.restrict(cache.dom().filter(|s: u64| alive.contains(s)))
}

/// Every cached frame has pixels of its size.
pub open spec fn cache_ok(cache: Map<u64, CachedView>) -> bool {
    forall|s: u64| #[trigger]
        cache.contains_key(s) ==> frame_ok(
            cache[s].width as int,
            cache[s].height as int,
            cache[s].pixels,
        )
}

/// Whether the list holds the number.
fn holds(list: &Vec<u64>, x: u64) -> (r: bool)
    ensures
        r == list@.contains(x),
{
    let mut i: usize = 0;
    while i < list.len()
        invariant
            i <= list@.len(),
            forall|j: int| 0 <= j < i ==> list@[j] != x,
        decreases list@.len() - i,
    {
        if list[i] == x {
            return true;
        }
        i += 1;
    }
    false
}

/// The surfaces with cached pixels.
fn cached_surfaces(cache: &HashMap<u64, CachedFrame>) -> (r: Vec<u64>)
    ensures
        r@.to_set() == cache@.dom(),
{
    let ghost all = vstd::std_specs::hash::spec_keys_iter(cache).remaining();
    let mut out: Vec<u64> = Vec::new();
    for key in it: cache.keys()
        invariant
            it.seq() == all,
            out@ == all.unref().take(it.index() as int),
    {
        out.push(*key);
        assert(out@ =~= all.unref().take(it.index() as int + 1));
    }
    assert(out@ =~= all.unref());
    out
}

/// Forget the pixels of surfaces that are no longer alive.
fn prune(cache: &mut HashMap<u64, CachedFrame>, alive: &Vec<u64>)
    ensures
        cache_view(final(cache)@) == pruned(cache_view(old(cache)@), alive@),
{
    let ghost before = cache@;
    let keys = cached_surfaces(cache);
    let mut i: usize = 0;
    while i < keys.len()
        invariant
            i <= keys@.len(),
            forall|s: u64| #[trigger]
                cache@.contains_key(s) <==> before.contains_key(s) && !(keys@.take(
                    i as int,
                ).contains(s) && !alive@.contains(s)),
            forall|s: u64| #[trigger] cache@.contains_key(s) ==> cache@[s] == before[s],
        decreases keys@.len() - i,
    {
        let k: u64 = keys[i];
        let ghost prev = cache@;
        if !holds(alive, k) {
            cache.remove(&k);
        }
        i += 1;
        proof {
            let a = keys@.take(i - 1);
            let b = keys@.take(i as int);
            assert forall|s: u64| #[trigger] cache@.contains_key(s) <==> before.contains_key(s)
                && !(b.contains(s) && !alive@.contains(s)) by {
                assert(prev.contains_key(s) <==> before.contains_key(s) && !(a.contains(s)
                    && !alive@.contains(s)));
                if b.contains(s) {
                    let j = choose|j: int| 0 <= j < b.len() && b[j] == s;
                    if j < a.len() {
                        assert(a[j] == s);
                    }
                }
                if a.contains(s) {
                    let j = choose|j: int| 0 <= j < a.len() && a[j] == s;
                    assert(b[j] == s);
                }
                assert(b[i - 1] == k);
            }
        }
    }
    proof {
        assert(keys@.take(i as int) =~= keys@);
        let want = pruned(cache_view(before), alive@);
        assert forall|s: u64| #[trigger] cache_view(cache@).contains_key(s)
            == want.contains_key(s) by {
            assert(keys@.to_set().contains(s) == before.contains_key(s));
            assert(cache@.contains_key(s) <==> before.contains_key(s) && !(keys@.contains(s)
                && !alive@.contains(s)));
        }
        assert(cache_view(cache@) =~= want);
    }
}

/// Take over what one surface attached.
fn visit(cache: &mut HashMap<u64, CachedFrame>, surface: u64, attachment: Attachment)
    requires
        node_ok(SurfaceNode { surface, x: 0, y: 0, attachment }),
    ensures
        cache_view(final(cache)@) == node_cached(
            cache_view(old(cache)@),
            SurfaceNode { surface, x: 0, y: 0, attachment },
        ),
{
    let ghost before = cache@;
    match attachment {
        Attachment::Buffer { frame, src, dst } => {
            if let Some(f) = frame {
                let (w, h, px) = apply_viewport(f, src, dst);
                let shown = CachedFrame { width: w, height: h, pixels: px };
                cache.insert(surface, shown);
                assert(cache_view(cache@) =~= cache_view(before).insert(surface, shown@));
            }
        },
        Attachment::Removed => {
            cache.remove(&surface);
            assert(cache_view(cache@) =~= cache_view(before).remove(surface));
        },
        Attachment::Unchanged => {},
    }
}

proof fn lemma_node_cached_ok(cache: Map<u64, CachedView>, n: SurfaceNode)
    requires
        cache_ok(cache),
        node_ok(n),
    ensures
        cache_ok(node_cached(cache, n)),
{
    let after = node_cached(cache, n);
    assert forall|s: u64| #[trigger] after.contains_key(s) implies frame_ok(
        after[s].width as int,
        after[s].height as int,
        after[s].pixels,
    ) by {
        if cache.contains_key(s) && s != n.surface {
            assert(after[s] == cache[s]);
        }
        if s == n.surface {
            match n.attachment {
                Attachment::Buffer { frame: Some(f), src, dst } => {
                    lemma_viewed_ok(f.0, f.1, f.2@, src, dst);
                },
                _ => {
                    assert(cache.contains_key(s));
                },
            }
        }
    }
}

/// What a viewport shows has pixels of its size.
proof fn lemma_viewed_ok(
    w: u32,
    h: u32,
    pixels: Seq<u8>,
    src: Option<FixedRect>,
    dst: Option<(i32, i32)>,
)
    requires
        frame_ok(w as int, h as int, pixels),
        src is Some || dst is Some ==> w > 0 && h > 0,
    ensures
        ({
            let (vw, vh, px) = viewed(w as int, h as int, pixels, src, dst);
            &&& 0 <= vw <= u32::MAX
            &&& 0 <= vh <= u32::MAX
            &&& frame_ok(vw, vh, px)
        }),
{
    let (dw, dh) = viewport_size(w as int, h as int, src, dst);
    assert(dw * dh >= 0) by (nonlinear_arith)
        requires
            dw >= 0,
            dh >= 0,
    ;
}

/// Flatten a surface tree (a root plus its subsurfaces) into a single
/// tightly-packed RGBA8 buffer sized to the root's buffer. `cache` holds the
/// last-known pixels of each surface so subsurfaces that don't re-attach every
/// frame stay visible; surfaces that are no longer `alive` are pruned.
pub fn composite_tree(
    root: u64,
    nodes: Vec<SurfaceNode>,
    alive: &Vec<u64>,
    cache: &mut HashMap<u64, CachedFrame>,
) -> (r: Option<(u32, u32, Vec<u8>)>)
    requires
        cache_ok(cache_view(old(cache)@)),
        forall|i: int| 0 <= i < nodes@.len() ==> node_ok(#[trigger] nodes@[i]),
    ensures
        cache_view(final(cache)@) == tree_cached(pruned(cache_view(old(cache)@), alive@), nodes@),
        cache_ok(cache_view(final(cache)@)),
        match r {
            Some((w, h, px)) => flattened(pruned(cache_view(old(cache)@), alive@), root, nodes@)
                == Some((w as int, h as int, px@)) && frame_ok(w as int, h as int, px@),
            None => flattened(pruned(cache_view(old(cache)@), alive@), root, nodes@) is None,
        },
{
    prune(cache, alive);
    let ghost start = cache_view(cache@);
    let ghost all = nodes@;
    let mut todo = nodes;
    let mut drawn: Vec<(i32, i32, u64)> = Vec::new();
    let mut i: usize = 0;
    proof {
        assert(all.take(0) =~= Seq::<SurfaceNode>::empty());
        assert(drawn@ =~= tree_drawn(start, all.take(0)));
    }
    while i < todo.len()
        invariant
            i <= todo@.len(),
            todo@.len() == all.len(),
            forall|j: int| i <= j < all.len() ==> #[trigger] todo@[j] == all[j],
            forall|j: int| 0 <= j < all.len() ==> node_ok(#[trigger] all[j]),
            cache_ok(cache_view(cache@)),
            cache_view(cache@) == tree_cached(start, all.take(i as int)),
            drawn@ == tree_drawn(start, all.take(i as int)),
        decreases todo@.len() - i,
    {
        let ghost n = all[i as int];
        let ghost prev = cache_view(cache@);
        let surface: u64 = todo[i].surface;
        let x: i32 = todo[i].x;
        let y: i32 = todo[i].y;
        let mut attachment = Attachment::Unchanged;
        std::mem::swap(&mut todo[i].attachment, &mut attachment);
        proof {
            let part = all.take(i + 1);
            assert(part.drop_last() =~= all.take(i as int));
            assert(part.last() == n);
            assert(node_cached(prev, SurfaceNode { surface, x: 0, y: 0, attachment })
                == node_cached(prev, n));
            lemma_node_cached_ok(prev, n);
        }
        visit(cache, surface, attachment);
        if cache.contains_key(&surface) {
            drawn.push((x, y, surface));
        }
        i += 1;
    }
    assert(all.take(i as int) =~= all);
    let ghost after = cache_view(cache@);
    let (cw, ch): (u32, u32) = match cache.get(&root) {
        Some(f) => (f.width, f.height),
        None => return None,
    };
    proof {
        assert(after.contains_key(root));
        assert(cw * ch >= 0) by (nonlinear_arith);
        assert(cw * ch * 4 == cache@[root].pixels@.len());
    }
    let size: usize = match cache.get(&root) {
        Some(f) => f.pixels.len(),
        None => 0,
    };
    let mut canvas: Vec<u8> = vec![0u8; size];
    let ghost blank = Seq::new((cw * ch * 4) as nat, |k: int| 0u8);
    assert(canvas@ =~= blank);
    let mut k: usize = 0;
    assert(drawn@.take(0) =~= Seq::<(i32, i32, u64)>::empty());
    while k < drawn.len()
        invariant
            k <= drawn@.len(),
            cache_view(cache@) == after,
            canvas@.len() == cw * ch * 4,
            canvas@ == painted(blank, cw as int, ch as int, after, drawn@.take(k as int)),
        decreases drawn@.len() - k,
    {
        let (x, y, s) = drawn[k];
        proof {
            assert(drawn@.take(k + 1).drop_last() =~= drawn@.take(k as int));
        }
        if let Some(f) = cache.get(&s) {
            assert(after[s] == f@);
            render::blit_over(
                canvas.as_mut_slice(),
                cw as usize,
                ch as usize,
                x,
                y,
                f.pixels.as_slice(),
                f.width as usize,
                f.height as usize,
            );
        }
        k += 1;
    }
    assert(drawn@.take(k as int) =~= drawn@);
    Some((cw, ch, canvas))
}

// ---------------------------------------------------------------------------
// Laws
// ---------------------------------------------------------------------------

/// What is seen at `(x, y)` of a cropped frame stands at `(x, y)` plus the
/// reported offset in the client's own frame, so pointer positions map back.
pub proof fn law_crop_offset_maps_back(
    w: nat,
    h: nat,
    pixels: Seq<u8>,
    geometry: Option<Rect>,
    x: int,
    y: int,
    c: int,
)
    requires
        frame_ok(w as int, h as int, pixels),
        0 <= x < cropped(w as int, h as int, pixels, geometry).0.0,
        0 <= y < cropped(w as int, h as int, pixels, geometry).0.1,
        0 <= c < 4,
    ensures
        ({
            let ((nw, nh, out), (ox, oy)) = cropped(w as int, h as int, pixels, geometry);
            &&& 0 <= x + ox < w
            &&& 0 <= y + oy < h
            &&& out[render::byte_at(x, y, c, nw)] == pixels[render::byte_at(
                x + ox,
                y + oy,
                c,
                w as int,
            )]
        }),
{
    let ((nw, nh, out), (ox, oy)) = cropped(w as int, h as int, pixels, geometry);
    render::lemma_byte_at(x, y, c, nw);
    render::lemma_byte_in_image(x, y, nw, nh);
}

/// A geometry that covers the whole frame changes nothing.
pub proof fn law_full_geometry_is_noop(w: nat, h: nat, pixels: Seq<u8>, rect: Rect)
    requires
        rect.x == 0,
        rect.y == 0,
        rect.w == w,
        rect.h == h,
    ensures
        cropped(w as int, h as int, pixels, Some(rect)) == (
            (w as int, h as int, pixels),
            (0int, 0int),
        ),
{
}

/// A viewport that shows the whole frame at its own size changes nothing.
pub proof fn law_identity_viewport_is_noop(
    w: nat,
    h: nat,
    pixels: Seq<u8>,
    src: FixedRect,
    dst: (i32, i32),
)
    requires
        src.x == 0,
        src.y == 0,
        src.w == w * 256,
        src.h == h * 256,
        dst.0 == w,
        dst.1 == h,
        w > 0,
        h > 0,
    ensures
        viewed(w as int, h as int, pixels, Some(src), Some(dst)) == (w as int, h as int, pixels),
{
}

/// A surface that attaches nothing new keeps the pixels it had.
pub proof fn law_unchanged_surface_stays_visible(
    cache: Map<u64, CachedView>,
    nodes: Seq<SurfaceNode>,
    surface: u64,
)
    requires
        forall|i: int|
            0 <= i < nodes.len() && (#[trigger] nodes[i]).surface == surface
                ==> nodes[i].attachment is Unchanged,
    ensures
        tree_cached(cache, nodes).contains_key(surface) == cache.contains_key(surface),
        cache.contains_key(surface) ==> tree_cached(cache, nodes)[surface] == cache[surface],
    decreases nodes.len(),
{
    if nodes.len() > 0 {
        let d = nodes.drop_last();
        assert forall|i: int| 0 <= i < d.len() && (#[trigger] d[i]).surface
            == surface implies d[i].attachment is Unchanged by {
            assert(nodes[i] == d[i]);
        }
        law_unchanged_surface_stays_visible(cache, d, surface);
        assert(nodes.last() == nodes[nodes.len() - 1]);
    }
}

/// A window without subsurfaces is shown as it is: every pixel that is not fully
/// transparent has the client's own bytes.
pub proof fn law_lone_surface_is_shown_as_is(
    cache: Map<u64, CachedView>,
    root: u64,
    node: SurfaceNode,
    i: int,
)
    requires
        cache.contains_key(root),
        frame_ok(cache[root].width as int, cache[root].height as int, cache[root].pixels),
        node.surface == root,
        node.x == 0,
        node.y == 0,
        node.attachment is Unchanged,
        0 <= i < cache[root].pixels.len(),
    ensures
        match flattened(cache, root, seq![node]) {
            Some((w, h, out)) => {
                &&& w == cache[root].width
                &&& h == cache[root].height
                &&& out.len() == cache[root].pixels.len()
                &&& cache[root].pixels[i - i % 4 + 3] > 0 ==> out[i] == cache[root].pixels[i]
                &&& cache[root].pixels[i - i % 4 + 3] == 0 ==> out[i] == 0
            },
            None => false,
        },
{
    let f = cache[root];
    let cw = f.width as int;
    let ch = f.height as int;
    let nodes = seq![node];
    assert(nodes.drop_last() =~= Seq::<SurfaceNode>::empty());
    assert(nodes.last() == node);
    assert(tree_cached(cache, nodes.drop_last()) == cache);
    assert(tree_cached(cache, nodes) == cache);
    let drawn = tree_drawn(cache, nodes);
    assert(tree_drawn(cache, nodes.drop_last()) =~= Seq::empty());
    assert(drawn =~= seq![(node.x, node.y, root)]);
    let blank = Seq::new((cw * ch * 4) as nat, |k: int| 0u8);
    assert(drawn.drop_last() =~= Seq::<(i32, i32, u64)>::empty());
    assert(painted(blank, cw, ch, cache, drawn.drop_last()) == blank);
    let out = painted(blank, cw, ch, cache, drawn);
    assert(drawn.last() == (node.x, node.y, root));
    assert(cw * ch >= 0) by (nonlinear_arith)
        requires
            cw >= 0,
            ch >= 0,
    ;
    assert(out == render::blitted(blank, cw, ch, 0, 0, f.pixels, cw, ch));
    render::lemma_byte_row_bound(i, cw, ch);
    render::lemma_byte_split(i, cw);
    let d = i - i % 4;
    let s = render::byte_at(render::byte_col(i, cw), render::byte_row(i, cw), 0, cw);
    assert(s == d);
    render::lemma_byte_in_image(render::byte_col(i, cw), render::byte_row(i, cw), cw, ch);
    let sp = f.pixels.subrange(d, d + 4);
    let dp = blank.subrange(d, d + 4);
    assert(out[i] == render::over_byte(sp, dp, i % 4) as u8);
    assert(sp[3] == f.pixels[d + 3]);
    assert(dp[3] == 0);
    assert(sp[i % 4] == f.pixels[i]);
    if sp[3] > 0 {
        render::law_over_transparent_keeps_source(sp, dp, i % 4);
    }
}

/// The bytes of a pixel inside an image lie inside its buffer.
proof fn lemma_pixel_bytes(x: int, y: int, width: int, height: int, c: int)
    requires
        0 <= x < width,
        0 <= y < height,
        0 <= c < 4,
    ensures
        0 <= 4 * (y * width + x) + c < width * height * 4,
        render::byte_at(x, y, c, width) == 4 * (y * width + x) + c,
        render::byte_col(4 * (y * width + x) + c, width) == x,
        render::byte_row(4 * (y * width + x) + c, width) == y,
        (4 * (y * width + x) + c) % 4 == c,
{
    render::lemma_byte_in_image(x, y, width, height);
    render::lemma_byte_at(x, y, c, width);
    assert(render::byte_at(x, y, c, width) == 4 * (y * width + x) + c);
}

/// A buffer in shared memory is read from its offset on, row by row at the
/// stride: blue, green, red and alpha become red, green, blue and alpha.
pub proof fn law_shm_pixels_are_read_at_the_offset(
    pool: Seq<u8>,
    offset: nat,
    width: nat,
    height: nat,
    stride: nat,
    format: ShmFormat,
    x: int,
    y: int,
)
    requires
        0 <= x < width,
        0 <= y < height,
        offset + y * stride + width * 4 <= pool.len(),
    ensures
        match shm_frame(
            pool,
            offset as int,
            width as int,
            height as int,
            stride as int,
            format,
        ) {
            Some((w, h, px)) => {
                let from = offset + y * stride + 4 * x;
                let to = 4 * (y * width + x);
                &&& w == width
                &&& h == height
                &&& px.len() == width * height * 4
                &&& px[to] == pool[from + 2]
                &&& px[to + 1] == pool[from + 1]
                &&& px[to + 2] == pool[from]
                &&& format == ShmFormat::Argb8888 ==> px[to + 3] == pool[from + 3]
                &&& format == ShmFormat::Xrgb8888 ==> px[to + 3] == 255
            },
            None => false,
        },
{
    assert(0 <= y * stride) by (nonlinear_arith)
        requires
            0 <= y,
    ;
    let rest = pool.skip(offset as int);
    render::law_pixels_are_converted_in_place(rest, width, height, stride, format, x, y);
    assert(rest[y * stride + 4 * x] == pool[offset + y * stride + 4 * x]);
    assert(rest[y * stride + 4 * x + 1] == pool[offset + y * stride + 4 * x + 1]);
    assert(rest[y * stride + 4 * x + 2] == pool[offset + y * stride + 4 * x + 2]);
    assert(rest[y * stride + 4 * x + 3] == pool[offset + y * stride + 4 * x + 3]);
}

/// Cropping keeps what lies both in the rectangle and in the frame, and reports
/// its top-left corner.
pub proof fn law_crop_keeps_the_overlap(
    w: nat,
    h: nat,
    pixels: Seq<u8>,
    rect: Rect,
    x: int,
    y: int,
    c: int,
)
    requires
        frame_ok(w as int, h as int, pixels),
        rect.x <= x < rect.x + rect.w,
        rect.y <= y < rect.y + rect.h,
        0 <= x < w,
        0 <= y < h,
        0 <= c < 4,
    ensures
        ({
            let ((nw, nh, out), (ox, oy)) = cropped(w as int, h as int, pixels, Some(rect));
            &&& out.len() == nw * nh * 4
            &&& out[4 * ((y - oy) * nw + (x - ox)) + c] == pixels[4 * (y * w + x) + c]
            &&& ox == 0 || ox == rect.x
            &&& ox >= 0 && ox >= rect.x
            &&& oy == 0 || oy == rect.y
            &&& oy >= 0 && oy >= rect.y
            &&& ox + nw == w || ox + nw == rect.x + rect.w
            &&& ox + nw <= w && ox + nw <= rect.x + rect.w
            &&& oy + nh == h || oy + nh == rect.y + rect.h
            &&& oy + nh <= h && oy + nh <= rect.y + rect.h
        }),
{
    let ((nw, nh, out), (ox, oy)) = cropped(w as int, h as int, pixels, Some(rect));
    lemma_pixel_bytes(x - ox, y - oy, nw, nh, c);
    lemma_pixel_bytes(x, y, w as int, h as int, c);
}

/// A rectangle that misses the frame, like none at all, leaves it whole.
pub proof fn law_crop_outside_is_noop(w: nat, h: nat, pixels: Seq<u8>, geometry: Option<Rect>)
    requires
        geometry matches Some(rect) ==> rect.w <= 0 || rect.h <= 0 || rect.x >= w || rect.y >= h
            || rect.x + rect.w <= 0 || rect.y + rect.h <= 0,
    ensures
        cropped(w as int, h as int, pixels, geometry) == (
            (w as int, h as int, pixels),
            (0int, 0int),
        ),
{
}

/// The quotient that sampling forms brackets the centre of the destination
/// pixel.
proof fn lemma_sampled(o: int, s: int, len: int, d: int, limit: int)
    requires
        0 < d,
        0 < limit,
    ensures
        ({
            let centre = 2 * d * s + (2 * o + 1) * len;
            let p = sampled(o, s, len, d, limit);
            &&& 0 <= p < limit
            &&& centre < 0 ==> p == 0
            &&& centre >= 512 * d * limit ==> p == limit - 1
            &&& 0 <= centre < 512 * d * limit ==> 512 * d * p <= centre < 512 * d * (p + 1)
        }),
{
    let centre = 2 * d * s + (2 * o + 1) * len;
    let den = 512 * d;
    let q = centre / den;
    vstd::arithmetic::div_mod::lemma_fundamental_div_mod(centre, den);
    vstd::arithmetic::div_mod::lemma_mod_bound(centre, den);
    assert(den * q <= centre < den * (q + 1)) by (nonlinear_arith)
        requires
            centre == den * q + centre % den,
            0 <= centre % den < den,
    ;
    if centre < 0 {
        assert(q < 0) by (nonlinear_arith)
            requires
                den * q <= centre,
                centre < 0,
                den > 0,
        ;
    } else {
        assert(q >= 0) by (nonlinear_arith)
            requires
                centre < den * (q + 1),
                centre >= 0,
                den > 0,
        ;
        if centre >= den * limit {
            assert(q >= limit) by (nonlinear_arith)
                requires
                    centre < den * (q + 1),
                    centre >= den * limit,
                    den > 0,
            ;
        } else {
            assert(q < limit) by (nonlinear_arith)
                requires
                    den * q <= centre,
                    centre < den * limit,
                    den > 0,
            ;
        }
    }
}

/// Behind a viewport, destination pixel `(x, y)` shows, on each axis, the source
/// pixel under its centre; a centre outside the frame shows the border. Positions
/// in the source are in 1/256 of a pixel. Returns the source pixel.
pub proof fn law_viewport_shows_the_pixel_under_the_centre(
    w: nat,
    h: nat,
    pixels: Seq<u8>,
    src: Option<FixedRect>,
    dst: Option<(i32, i32)>,
    x: int,
    y: int,
) -> (p: (int, int))
    requires
        frame_ok(w as int, h as int, pixels),
        w > 0,
        h > 0,
        0 <= x < viewed(w as int, h as int, pixels, src, dst).0,
        0 <= y < viewed(w as int, h as int, pixels, src, dst).1,
    ensures
        ({
            let (dw, dh, out) = viewed(w as int, h as int, pixels, src, dst);
            let (sx, sy, sw, sh): (int, int, int, int) = match src {
                Some(r) => if r.w > 0 && r.h > 0 {
                    (r.x as int, r.y as int, r.w as int, r.h as int)
                } else {
                    (0, 0, 256 * (w as int), 256 * (h as int))
                },
                None => (0, 0, 256 * (w as int), 256 * (h as int)),
            };
            let cx = 2 * dw * sx + (2 * x + 1) * sw;
            let cy = 2 * dh * sy + (2 * y + 1) * sh;
            &&& 0 <= p.0 < w
            &&& 0 <= p.1 < h
            &&& cx < 0 ==> p.0 == 0
            &&& cy < 0 ==> p.1 == 0
            &&& cx >= 512 * dw * w ==> p.0 == w - 1
            &&& cy >= 512 * dh * h ==> p.1 == h - 1
            &&& 0 <= cx < 512 * dw * w ==> 512 * dw * p.0 <= cx < 512 * dw * (p.0 + 1)
            &&& 0 <= cy < 512 * dh * h ==> 512 * dh * p.1 <= cy < 512 * dh * (p.1 + 1)
            &&& out.len() == dw * dh * 4
            &&& forall|c: int|
                0 <= c < 4 ==> #[trigger] out[4 * (y * dw + x) + c] == pixels[4 * (p.1 * w + p.0)
                    + c]
        }),
{
    let (dw, dh, out) = viewed(w as int, h as int, pixels, src, dst);
    let region = source_region(src, w as int, h as int);
    let size = viewport_size(w as int, h as int, src, dst);
    assert(0 < dw && 0 < dh);
    assert(dw * dh >= 0) by (nonlinear_arith)
        requires
            0 < dw,
            0 < dh,
    ;
    if (src is None && dst is None) || (size.0 == w && size.1 == h && region == (
        0int,
        0int,
        (w * 256) as int,
        (h * 256) as int,
    )) {
        let cx = (2 * x + 1) * (256 * w);
        let cy = (2 * y + 1) * (256 * h);
        assert(2 * dw * 0 == 0 && 2 * dh * 0 == 0);
        assert(512 * w * x <= cx < 512 * w * (x + 1) && 0 <= cx) by (nonlinear_arith)
            requires
                cx == (2 * x + 1) * (256 * w),
                w > 0,
                x >= 0,
        ;
        assert(512 * h * y <= cy < 512 * h * (y + 1) && 0 <= cy) by (nonlinear_arith)
            requires
                cy == (2 * y + 1) * (256 * h),
                h > 0,
                y >= 0,
        ;
        assert(512 * w * (x + 1) <= 512 * w * w) by (nonlinear_arith)
            requires
                w > 0,
                x + 1 <= w,
        ;
        assert(512 * h * (y + 1) <= 512 * h * h) by (nonlinear_arith)
            requires
                h > 0,
                y + 1 <= h,
        ;
        (x, y)
    } else {
        let px = sampled(x, region.0, region.2, dw, w as int);
        let py = sampled(y, region.1, region.3, dh, h as int);
        lemma_sampled(x, region.0, region.2, dw, w as int);
        lemma_sampled(y, region.1, region.3, dh, h as int);
        assert forall|c: int| 0 <= c < 4 implies #[trigger] out[4 * (y * dw + x) + c] == pixels[4
            * (py * w + px) + c] by {
            lemma_pixel_bytes(x, y, dw, dh, c);
            lemma_pixel_bytes(px, py, w as int, h as int, c);
        }
        (px, py)
    }
}

/// The size behind a viewport is the destination's; without one it is that of
/// the source rectangle, rounded to the nearest pixel and never empty.
pub proof fn law_viewport_size(
    w: nat,
    h: nat,
    pixels: Seq<u8>,
    src: Option<FixedRect>,
    dst: Option<(i32, i32)>,
)
    requires
        w > 0,
        h > 0,
    ensures
        ({
            let (dw, dh, _) = viewed(w as int, h as int, pixels, src, dst);
            match (dst, src) {
                (Some((a, b)), _) if a > 0 && b > 0 => dw == a && dh == b,
                (_, Some(r)) if r.w > 0 && r.h > 0 => {
                    &&& dw >= 1
                    &&& dh >= 1
                    &&& r.w >= 128 ==> r.w - 128 < 256 * dw <= r.w + 128
                    &&& r.h >= 128 ==> r.h - 128 < 256 * dh <= r.h + 128
                    &&& r.w < 128 ==> dw == 1
                    &&& r.h < 128 ==> dh == 1
                },
                _ => dw == w && dh == h,
            }
        }),
{
}

/// Scaling the whole frame down by whole numbers shows, for each block of source
/// pixels, the one in its middle: the axes follow the same rule, and the last
/// row and column of the result show the last blocks.
pub proof fn law_viewport_shrinks_by_blocks(
    w: nat,
    h: nat,
    pixels: Seq<u8>,
    dst: (i32, i32),
    kx: int,
    ky: int,
    x: int,
    y: int,
    c: int,
)
    requires
        frame_ok(w as int, h as int, pixels),
        0 <= x < dst.0,
        0 <= y < dst.1,
        0 < kx,
        0 < ky,
        w == kx * dst.0,
        h == ky * dst.1,
        0 <= c < 4,
    ensures
        ({
            let (dw, dh, out) = viewed(w as int, h as int, pixels, None, Some(dst));
            &&& dw == dst.0
            &&& dh == dst.1
            &&& out.len() == dst.0 * dst.1 * 4
            &&& out[4 * (y * dst.0 + x) + c] == pixels[4 * ((ky * y + ky / 2) * w + kx * x + kx / 2)
                + c]
        }),
{
    let (a, b) = (dst.0 as int, dst.1 as int);
    assert(kx * a > 0 && ky * b > 0) by (nonlinear_arith)
        requires
            kx > 0,
            ky > 0,
            a > 0,
            b > 0,
    ;
    let p = law_viewport_shows_the_pixel_under_the_centre(w, h, pixels, None, Some(dst), x, y);
    lemma_block_middle(a, kx, x, w as int, p.0);
    lemma_block_middle(b, ky, y, h as int, p.1);
}

/// The only pixel under the centre of block `o` of width `k` is its middle.
proof fn lemma_block_middle(d: int, k: int, o: int, n: int, p: int)
    requires
        0 < d,
        0 < k,
        0 <= o < d,
        n == k * d,
        ({
            let centre = 2 * d * 0 + (2 * o + 1) * (256 * n);
            0 <= centre < 512 * d * n ==> 512 * d * p <= centre < 512 * d * (p + 1)
        }),
    ensures
        p == k * o + k / 2,
{
    let centre = (2 * o + 1) * (256 * n);
    assert(2 * d * 0 == 0);
    assert(centre == 256 * d * (2 * (k * o) + k)) by (nonlinear_arith)
        requires
            centre == (2 * o + 1) * (256 * n),
            n == k * d,
    ;
    let m = 2 * (k * o) + k;
    assert(0 <= k * o) by (nonlinear_arith)
        requires
            0 < k,
            0 <= o,
    ;
    assert(k * (o + 1) <= n) by (nonlinear_arith)
        requires
            0 < k,
            o + 1 <= d,
            n == k * d,
    ;
    assert(k * (o + 1) == k * o + k) by (nonlinear_arith);
    assert(0 <= centre < 512 * d * n) by (nonlinear_arith)
        requires
            centre == 256 * d * m,
            0 <= m < 2 * n,
            d > 0,
    ;
    assert(2 * p <= m < 2 * (p + 1)) by (nonlinear_arith)
        requires
            512 * d * p <= centre < 512 * d * (p + 1),
            centre == 256 * d * m,
            d > 0,
    ;
}

/// Scaling the whole frame up by whole numbers repeats each source pixel that
/// many times on each axis.
pub proof fn law_viewport_grows_by_repetition(
    w: nat,
    h: nat,
    pixels: Seq<u8>,
    dst: (i32, i32),
    kx: int,
    ky: int,
    x: int,
    y: int,
    c: int,
)
    requires
        frame_ok(w as int, h as int, pixels),
        w > 0,
        h > 0,
        0 <= x < dst.0,
        0 <= y < dst.1,
        0 < kx,
        0 < ky,
        dst.0 == kx * w,
        dst.1 == ky * h,
        0 <= c < 4,
    ensures
        ({
            let (dw, dh, out) = viewed(w as int, h as int, pixels, None, Some(dst));
            &&& dw == dst.0
            &&& dh == dst.1
            &&& out.len() == dst.0 * dst.1 * 4
            &&& out[4 * (y * dst.0 + x) + c] == pixels[4 * ((y / ky) * w + x / kx) + c]
        }),
{
    let p = law_viewport_shows_the_pixel_under_the_centre(w, h, pixels, None, Some(dst), x, y);
    lemma_repeated(w as int, kx, x, dst.0 as int, p.0);
    lemma_repeated(h as int, ky, y, dst.1 as int, p.1);
}

/// The pixel under the centre of copy `o` is the one copied.
proof fn lemma_repeated(n: int, k: int, o: int, d: int, p: int)
    requires
        0 < n,
        0 < k,
        0 <= o < d,
        d == k * n,
        ({
            let centre = 2 * d * 0 + (2 * o + 1) * (256 * n);
            0 <= centre < 512 * d * n ==> 512 * d * p <= centre < 512 * d * (p + 1)
        }),
    ensures
        p == o / k,
{
    let centre = (2 * o + 1) * (256 * n);
    assert(2 * d * 0 == 0);
    assert(0 <= centre < 512 * d * n) by (nonlinear_arith)
        requires
            centre == (2 * o + 1) * (256 * n),
            0 <= o < d,
            n > 0,
    ;
    assert(2 * k * p <= 2 * o + 1 < 2 * k * (p + 1)) by (nonlinear_arith)
        requires
            512 * d * p <= centre < 512 * d * (p + 1),
            centre == (2 * o + 1) * (256 * n),
            d == k * n,
            n > 0,
    ;
    assert(2 * k * p == 2 * (k * p)) by (nonlinear_arith);
    assert(2 * k * (p + 1) == 2 * (k * p) + 2 * k) by (nonlinear_arith);
    assert(k * p <= o < k * p + k);
    vstd::arithmetic::div_mod::lemma_fundamental_div_mod_converse(o, k, p, o - k * p);
}

/// A source rectangle on whole pixels inside the frame, without a destination
/// size, cuts exactly these pixels out.
pub proof fn law_viewport_cuts_out_the_source(
    w: nat,
    h: nat,
    pixels: Seq<u8>,
    src: FixedRect,
    left: int,
    top: int,
    cw: int,
    ch: int,
    x: int,
    y: int,
    c: int,
)
    requires
        frame_ok(w as int, h as int, pixels),
        src.x == 256 * left,
        src.y == 256 * top,
        src.w == 256 * cw,
        src.h == 256 * ch,
        0 <= left,
        0 <= top,
        left + cw <= w,
        top + ch <= h,
        0 <= x < cw,
        0 <= y < ch,
        0 <= c < 4,
    ensures
        ({
            let (dw, dh, out) = viewed(w as int, h as int, pixels, Some(src), None);
            &&& dw == cw
            &&& dh == ch
            &&& out.len() == cw * ch * 4
            &&& out[4 * (y * cw + x) + c] == pixels[4 * ((top + y) * w + left + x) + c]
        }),
{
    law_viewport_size(w, h, pixels, Some(src), None);
    let p = law_viewport_shows_the_pixel_under_the_centre(w, h, pixels, Some(src), None, x, y);
    lemma_cut(cw, left, x, w as int, p.0);
    lemma_cut(ch, top, y, h as int, p.1);
}

/// The pixel under the centre of a pixel that is not scaled is the shifted one.
proof fn lemma_cut(d: int, start: int, o: int, n: int, p: int)
    requires
        0 < d,
        0 <= o < d,
        0 <= start,
        start + d <= n,
        ({
            let centre = 2 * d * (256 * start) + (2 * o + 1) * (256 * d);
            0 <= centre < 512 * d * n ==> 512 * d * p <= centre < 512 * d * (p + 1)
        }),
    ensures
        p == start + o,
{
    let m = 2 * (start + o) + 1;
    let centre = 2 * d * (256 * start) + (2 * o + 1) * (256 * d);
    assert(centre == 256 * d * m) by (nonlinear_arith)
        requires
            centre == 2 * d * (256 * start) + (2 * o + 1) * (256 * d),
            m == 2 * (start + o) + 1,
    ;
    assert(0 <= centre < 512 * d * n) by (nonlinear_arith)
        requires
            centre == 256 * d * m,
            0 <= m < 2 * n,
            d > 0,
    ;
    assert(2 * p <= m < 2 * (p + 1)) by (nonlinear_arith)
        requires
            512 * d * p <= centre < 512 * d * (p + 1),
            centre == 256 * d * m,
            d > 0,
    ;
}

/// A surface that attaches a buffer is known by that buffer behind its viewport;
/// one whose buffer is removed is not known any more; the others stay as they
/// were.
pub proof fn law_attachments_update_their_surface(
    cache: Map<u64, CachedView>,
    nodes: Seq<SurfaceNode>,
    n: SurfaceNode,
    other: u64,
)
    requires
        other != n.surface,
    ensures
        ({
            let before = tree_cached(cache, nodes);
            let after = tree_cached(cache, nodes.push(n));
            &&& after.contains_key(other) == before.contains_key(other)
            &&& before.contains_key(other) ==> after[other] == before[other]
            &&& n.attachment is Removed ==> !after.contains_key(n.surface)
            &&& n.attachment is Unchanged ==> after == before
            &&& match n.attachment {
                Attachment::Buffer { frame: Some(f), src: None, dst: None } => {
                    &&& after.contains_key(n.surface)
                    &&& after[n.surface].width == f.0
                    &&& after[n.surface].height == f.1
                    &&& after[n.surface].pixels == f.2@
                },
                Attachment::Buffer { frame: None, src, dst } => after == before,
                _ => true,
            }
        }),
{
    assert(nodes.push(n).drop_last() =~= nodes);
    assert(nodes.push(n).last() == n);
}

/// What is pruned is exactly what is no longer alive.
pub proof fn law_pruning_drops_dead_surfaces(
    cache: Map<u64, CachedView>,
    alive: Seq<u64>,
    surface: u64,
)
    ensures
        pruned(cache, alive).contains_key(surface) <==> cache.contains_key(surface)
            && alive.contains(surface),
        pruned(cache, alive).contains_key(surface) ==> pruned(cache, alive)[surface]
            == cache[surface],
{
}

/// Painting keeps the size of the canvas.
proof fn lemma_painted_len(
    canvas: Seq<u8>,
    cw: int,
    ch: int,
    cache: Map<u64, CachedView>,
    drawn: Seq<(i32, i32, u64)>,
)
    ensures
        painted(canvas, cw, ch, cache, drawn).len() == canvas.len(),
    decreases drawn.len(),
{
    if drawn.len() > 0 {
        lemma_painted_len(canvas, cw, ch, cache, drawn.drop_last());
    }
}

/// The surface that is painted last is on top: where it is opaque its own pixel
/// shows, that far from its corner; where it does not reach, or is transparent,
/// what lies below shows.
pub proof fn law_last_surface_is_on_top(
    cache: Map<u64, CachedView>,
    root: u64,
    nodes: Seq<SurfaceNode>,
    n: SurfaceNode,
    px: int,
    py: int,
    c: int,
)
    requires
        cache_ok(tree_cached(cache, nodes)),
        tree_cached(cache, nodes).contains_key(root),
        tree_cached(cache, nodes).contains_key(n.surface),
        n.attachment is Unchanged,
        0 <= px < tree_cached(cache, nodes)[root].width,
        0 <= py < tree_cached(cache, nodes)[root].height,
        0 <= c < 4,
    ensures
        ({
            let f = tree_cached(cache, nodes)[n.surface];
            let col = px - n.x;
            let row = py - n.y;
            let inside = 0 <= col < f.width && 0 <= row < f.height;
            let from = 4 * (row * f.width + col);
            match (flattened(cache, root, nodes), flattened(cache, root, nodes.push(n))) {
                (Some((w, h, below)), Some((w2, h2, out))) => {
                    let at = 4 * (py * w + px) + c;
                    &&& w == tree_cached(cache, nodes)[root].width
                    &&& h == tree_cached(cache, nodes)[root].height
                    &&& w2 == w
                    &&& h2 == h
                    &&& out.len() == w * h * 4
                    &&& inside && f.pixels[from + 3] == 255 ==> out[at] == f.pixels[from + c]
                    &&& !inside || f.pixels[from + 3] == 0 ==> out[at] == below[at]
                },
                _ => false,
            }
        }),
{
    let after = tree_cached(cache, nodes);
    let all = nodes.push(n);
    assert(all.drop_last() =~= nodes);
    assert(all.last() == n);
    assert(tree_cached(cache, all) == after);
    let cw = after[root].width as int;
    let ch = after[root].height as int;
    let blank = Seq::new((cw * ch * 4) as nat, |i: int| 0u8);
    assert(cw * ch >= 0) by (nonlinear_arith)
        requires
            cw >= 0,
            ch >= 0,
    ;
    let d0 = tree_drawn(cache, nodes);
    let d1 = tree_drawn(cache, all);
    assert(d1 =~= d0.push((n.x, n.y, n.surface)));
    assert(d1.drop_last() =~= d0);
    assert(d1.last() == (n.x, n.y, n.surface));
    let below = painted(blank, cw, ch, after, d0);
    lemma_painted_len(blank, cw, ch, after, d0);
    let f = after[n.surface];
    let out = painted(blank, cw, ch, after, d1);
    assert(out == render::blitted(
        below,
        cw,
        ch,
        n.x as int,
        n.y as int,
        f.pixels,
        f.width as int,
        f.height as int,
    ));
    let col = px - n.x;
    let row = py - n.y;
    if 0 <= col < f.width && 0 <= row < f.height {
        render::law_blit_places_the_image(
            below,
            cw as nat,
            ch as nat,
            n.x as int,
            n.y as int,
            f.pixels,
            f.width as nat,
            f.height as nat,
            col,
            row,
            c,
        );
    } else {
        render::law_blit_leaves_the_rest(
            below,
            cw as nat,
            ch as nat,
            n.x as int,
            n.y as int,
            f.pixels,
            f.width as nat,
            f.height as nat,
            px,
            py,
            c,
        );
    }
}

/// There is no frame without a size or behind the end of the pool; a negative
/// offset is the start of the pool.
pub proof fn law_shm_frames_need_a_size(
    pool: Seq<u8>,
    offset: int,
    width: int,
    height: int,
    stride: int,
    format: ShmFormat,
)
    ensures
        width <= 0 || height <= 0 || offset > pool.len() ==> shm_frame(
            pool,
            offset,
            width,
            height,
            stride,
            format,
        ) is None,
        width > 0 && height > 0 && offset <= pool.len() ==> shm_frame(
            pool,
            offset,
            width,
            height,
            stride,
            format,
        ) is Some,
        offset < 0 ==> shm_frame(pool, offset, width, height, stride, format) == shm_frame(
            pool,
            0,
            width,
            height,
            stride,
            format,
        ),
{
}

/// A buffer behind a viewport is known as what the viewport makes of it.
pub proof fn law_attached_buffers_are_seen_through_the_viewport(
    cache: Map<u64, CachedView>,
    nodes: Seq<SurfaceNode>,
    n: SurfaceNode,
    f: (u32, u32, Vec<u8>),
    src: Option<FixedRect>,
    dst: Option<(i32, i32)>,
)
    requires
        n.attachment == (Attachment::Buffer { frame: Some(f), src, dst }),
    ensures
        ({
            let after = tree_cached(cache, nodes.push(n));
            let (w, h, px) = viewed(f.0 as int, f.1 as int, f.2@, src, dst);
            &&& after.contains_key(n.surface)
            &&& after[n.surface].width == w as u32
            &&& after[n.surface].height == h as u32
            &&& after[n.surface].pixels == px
        }),
        tree_cached(cache, Seq::empty()) == cache,
{
    assert(nodes.push(n).drop_last() =~= nodes);
    assert(nodes.push(n).last() == n);
}

/// Nothing is shown of a window whose root has no pixels, and nothing of a surface
/// that has none.
pub proof fn law_surfaces_without_pixels_are_not_shown(
    cache: Map<u64, CachedView>,
    root: u64,
    nodes: Seq<SurfaceNode>,
    n: SurfaceNode,
)
    ensures
        flattened(cache, root, nodes) is Some <==> tree_cached(cache, nodes).contains_key(root),
        n.attachment is Unchanged && !tree_cached(cache, nodes).contains_key(n.surface)
            ==> flattened(cache, root, nodes.push(n)) == flattened(cache, root, nodes),
        flattened(cache, root, Seq::empty()) matches Some((w, h, px)) ==> w == cache[root].width
            && h == cache[root].height && px.len() == w * h * 4 && forall|i: int|
            0 <= i < px.len() ==> #[trigger] px[i] == 0,
{
    assert(nodes.push(n).drop_last() =~= nodes);
    assert(nodes.push(n).last() == n);
    if cache.contains_key(root) {
        assert(cache[root].width * cache[root].height >= 0) by (nonlinear_arith);
    }
}

} // verus!
