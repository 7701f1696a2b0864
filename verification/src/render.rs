//! Conversion of `wl_shm` buffer contents into tightly-packed RGBA8, and
//! straight-alpha compositing of RGBA8 images.
//!
//! `wl_shm`'s ARGB8888/XRGB8888 formats are little-endian 32-bit words
//! (`0xAARRGGBB`), so the bytes in memory are `[B, G, R, A]`. Textures want
//! `[R, G, B, A]`: red and blue are swapped and, for XRGB, alpha is forced to
//! opaque.

use vstd::prelude::*;

verus! {

/// The shm pixel formats that can be converted.
#[derive(Clone, Copy, Debug, PartialEq, Eq, Structural)]
pub enum ShmFormat {
    /// 32-bit ARGB, alpha honored.
    Argb8888,
    /// 32-bit XRGB, alpha ignored (treated as opaque).
    Xrgb8888,
}

// ---------------------------------------------------------------------------
// Model
// ---------------------------------------------------------------------------

/// Byte `c` (0 to 3: red, green, blue, alpha) of the RGBA form of the pixel
/// whose four bytes start at `at` in `src`.
pub open spec fn rgba_byte(src: Seq<u8>, at: int, format: ShmFormat, c: int) -> u8 {
    if c == 0 {
        src[at + 2]
    } else if c == 1 {
        src[at + 1]
    } else if c == 2 {
        src[at]
    } else if format == ShmFormat::Argb8888 {
        src[at + 3]
    } else {
        255
    }
}

/// Column of byte `i` in a tightly-packed image of the given width.
pub open spec fn byte_col(i: int, width: int) -> int {
    (i / 4) % width
}

/// Row of byte `i` in a tightly-packed image of the given width.
pub open spec fn byte_row(i: int, width: int) -> int {
    (i / 4) / width
}

/// Position of byte `c` of the pixel in column `x` and row `y`.
pub open spec fn byte_at(x: int, y: int, c: int, width: int) -> int {
    (y * width + x) * 4 + c
}

/// The smaller of two integers.
pub open spec fn lesser(a: int, b: int) -> int {
    if a <= b {
        a
    } else {
        b
    }
}

/// What [`convert_rect_into`] leaves in the destination: every pixel inside the
/// rectangle (clamped to the image) whose row is fully present in the source is
/// the RGBA form of the source pixel; every other byte is as before.
pub open spec fn rect_converted(
    dst: Seq<u8>,
    src: Seq<u8>,
    width: int,
    height: int,
    stride: int,
    format: ShmFormat,
    rect: (int, int, int, int),
) -> Seq<u8> {
    let x1 = lesser(rect.0 + rect.2, width);
    let y1 = lesser(rect.1 + rect.3, height);
    Seq::new(
        dst.len(),
        |i: int|
            {
                let x = byte_col(i, width);
                let y = byte_row(i, width);
                if i < width * height * 4 && rect.0 <= x < x1 && rect.1 <= y < y1 && y * stride + x1
                    * 4 <= src.len() {
                    rgba_byte(src, y * stride + x * 4, format, i % 4)
                } else {
                    dst[i]
                }
            },
    )
}

/// The RGBA form of a whole image. Rows that are not fully present in the
/// source are zero.
pub open spec fn rgba_image(
    src: Seq<u8>,
    width: int,
    height: int,
    stride: int,
    format: ShmFormat,
) -> Seq<u8> {
    Seq::new(
        (width * height * 4) as nat,
        |i: int|
            {
                let x = byte_col(i, width);
                let y = byte_row(i, width);
                if y * stride + width * 4 <= src.len() {
                    rgba_byte(src, y * stride + x * 4, format, i % 4)
                } else {
                    0
                }
            },
    )
}

/// Straight-alpha "source over destination" on one pixel: byte `c` of the
/// result of blending `s` over `d` (four bytes each).
pub open spec fn over_byte(s: Seq<u8>, d: Seq<u8>, c: int) -> int {
    let a = s[3] as int;
    let da = d[3] as int;
    let out_a = a * 255 + da * (255 - a);
    if a == 0 {
        d[c] as int
    } else if a == 255 {
        s[c] as int
    } else if c == 3 {
        (out_a + 127) / 255
    } else {
        (s[c] * a * 255 + d[c] * da * (255 - a)) / out_a
    }
}

/// What [`blit_over`] leaves on the canvas: every canvas pixel that a present
/// source pixel falls on is blended, every other byte is as before.
pub open spec fn blitted(
    dst: Seq<u8>,
    dw: int,
    dh: int,
    x: int,
    y: int,
    src: Seq<u8>,
    sw: int,
    sh: int,
) -> Seq<u8> {
    Seq::new(
        dst.len(),
        |i: int|
            {
                let col = byte_col(i, dw) - x;
                let row = byte_row(i, dw) - y;
                let s = byte_at(col, row, 0, sw);
                let d = i - i % 4;
                if i < dw * dh * 4 && 0 <= col < sw && 0 <= row < sh && s + 4 <= src.len() {
                    over_byte(src.subrange(s, s + 4), dst.subrange(d, d + 4), i % 4) as u8
                } else {
                    dst[i]
                }
            },
    )
}

// ---------------------------------------------------------------------------
// Index arithmetic
// ---------------------------------------------------------------------------

/// Taking a byte position apart gives back column, row and channel.
pub proof fn lemma_byte_at(x: int, y: int, c: int, width: int)
    requires
        0 <= x < width,
        0 <= y,
        0 <= c < 4,
    ensures
        byte_col(byte_at(x, y, c, width), width) == x,
        byte_row(byte_at(x, y, c, width), width) == y,
        byte_at(x, y, c, width) % 4 == c,
        byte_at(x, y, c, width) >= 0,
{
    let p = y * width + x;
    assert(p >= 0) by (nonlinear_arith)
        requires
            p == y * width + x,
            0 <= x,
            0 <= y,
            0 < width,
    ;
    assert((p * 4 + c) / 4 == p);
    assert((p * 4 + c) % 4 == c);
    vstd::arithmetic::div_mod::lemma_fundamental_div_mod_converse(p, width, y, x);
}

/// Every byte position is that of its own column, row and channel.
pub proof fn lemma_byte_split(i: int, width: int)
    requires
        0 <= i,
        0 < width,
    ensures
        i == byte_at(byte_col(i, width), byte_row(i, width), i % 4, width),
        0 <= byte_col(i, width) < width,
        0 <= byte_row(i, width),
{
    let p = i / 4;
    vstd::arithmetic::div_mod::lemma_fundamental_div_mod(p, width);
    vstd::arithmetic::div_mod::lemma_mod_bound(p, width);
    vstd::arithmetic::div_mod::lemma_div_pos_is_pos(p, width);
    assert(width * (p / width) == (p / width) * width) by (nonlinear_arith);
}

/// A pixel inside the image lies inside its bytes.
pub proof fn lemma_byte_in_image(x: int, y: int, width: int, height: int)
    requires
        0 <= x < width,
        0 <= y < height,
    ensures
        0 <= byte_at(x, y, 0, width),
        byte_at(x, y, 4, width) <= width * height * 4,
        y * width + width <= width * height,
{
    assert(0 <= y * width && y * width + width <= width * height) by (nonlinear_arith)
        requires
            0 <= y < height,
            0 < width,
    ;
}

/// A byte of the image belongs to one of its rows.
pub proof fn lemma_byte_row_bound(i: int, width: int, height: int)
    requires
        0 <= i < width * height * 4,
        0 <= width,
        0 <= height,
    ensures
        0 < width,
        0 <= byte_row(i, width) < height,
{
    if width == 0 {
        assert(width * height == 0) by (nonlinear_arith)
            requires
                width == 0,
        ;
    }
    lemma_byte_split(i, width);
    let y = byte_row(i, width);
    if y >= height {
        assert(y * width >= height * width) by (nonlinear_arith)
            requires
                y >= height,
                width > 0,
        ;
        assert(height * width == width * height) by (nonlinear_arith);
    }
}

// ---------------------------------------------------------------------------
// Conversion
// ---------------------------------------------------------------------------

/// Converts columns `x0` up to `x1` of row `y` from the source row that starts
/// at `row_start`.
fn convert_row(
    dst: &mut [u8],
    src: &[u8],
    width: usize,
    y: usize,
    x0: usize,
    x1: usize,
    row_start: usize,
    format: ShmFormat,
)
    requires
        x0 <= x1 <= width,
        y * width + width <= usize::MAX,
        (y * width + width) * 4 <= old(dst)@.len(),
        row_start + x1 * 4 <= src@.len(),
    ensures
        final(dst)@.len() == old(dst)@.len(),
        forall|i: int|
            0 <= i < final(dst)@.len() ==> #[trigger] final(dst)@[i] == if width > 0 && byte_row(
                i,
                width as int,
            ) == y && x0 <= byte_col(i, width as int) < x1 {
                rgba_byte(src@, row_start + byte_col(i, width as int) * 4, format, i % 4)
            } else {
                old(dst)@[i]
            },
{
    let mut x: usize = x0;
    let ghost before = dst@;
    let room: usize = dst.len();
    let have: usize = src.len();
    while x < x1
        invariant
            room == before.len(),
            have == src@.len(),
            x0 <= x <= x1 <= width,
            y * width + width <= usize::MAX,
            (y * width + width) * 4 <= before.len(),
            row_start + x1 * 4 <= src@.len(),
            dst@.len() == before.len(),
            forall|i: int|
                0 <= i < dst@.len() ==> #[trigger] dst@[i] == if width > 0 && byte_row(
                    i,
                    width as int,
                ) == y && x0 <= byte_col(i, width as int) < x {
                    rgba_byte(src@, row_start + byte_col(i, width as int) * 4, format, i % 4)
                } else {
                    before[i]
                },
        decreases x1 - x,
    {
        assert(y * width >= 0) by (nonlinear_arith);
        let s: usize = row_start + x * 4;
        let d: usize = (y * width + x) * 4;
        let ghost prev = dst@;
        let alpha: u8 = match format {
            ShmFormat::Argb8888 => src[s + 3],
            ShmFormat::Xrgb8888 => 255,
        };
        dst[d] = src[s + 2];
        dst[d + 1] = src[s + 1];
        dst[d + 2] = src[s];
        dst[d + 3] = alpha;
        x += 1;
        proof {
            let w = width as int;
            let xx = x - 1;
            assert(d == byte_at(xx, y as int, 0, w));
            lemma_byte_at(xx, y as int, 0, w);
            lemma_byte_at(xx, y as int, 1, w);
            lemma_byte_at(xx, y as int, 2, w);
            lemma_byte_at(xx, y as int, 3, w);
            assert forall|i: int| 0 <= i < dst@.len() implies #[trigger] dst@[i] == if width > 0
                && byte_row(i, w) == y && x0 <= byte_col(i, w) < x {
                rgba_byte(src@, row_start + byte_col(i, w) * 4, format, i % 4)
            } else {
                before[i]
            } by {
                lemma_byte_split(i, w);
                if d <= i < d + 4 {
                    assert(i == d || i == d + 1 || i == d + 2 || i == d + 3);
                } else {
                    assert(dst@[i] == prev[i]);
                    assert(!(byte_row(i, w) == y && byte_col(i, w) == xx));
                }
            }
        }
    }
}

/// Whether row `y` of the source holds bytes up to column `x1`, and where the
/// row starts.
fn row_within(src: &[u8], y: usize, stride: usize, x1: usize) -> (r: Option<usize>)
    ensures
        r is Some <==> y * stride + x1 * 4 <= src@.len(),
        r is Some ==> r->0 == y * stride,
{
    let have: usize = src.len();
    assert(y * stride >= 0) by (nonlinear_arith);
    let start: usize = match y.checked_mul(stride) {
        Some(v) => v,
        None => return None,
    };
    let width: usize = match x1.checked_mul(4) {
        Some(v) => v,
        None => return None,
    };
    let end: usize = match start.checked_add(width) {
        Some(v) => v,
        None => return None,
    };
    if end <= have {
        Some(start)
    } else {
        None
    }
}

/// Row `y` being present makes every earlier row present.
proof fn lemma_rows_before(y: int, z: int, stride: int)
    requires
        0 <= y <= z,
        0 <= stride,
    ensures
        y * stride <= z * stride,
{
    assert(y * stride <= z * stride) by (nonlinear_arith)
        requires
            0 <= y <= z,
            0 <= stride,
    ;
}

/// Convert only the `(rx, ry, rw, rh)` rectangle of `src` (with `stride` bytes
/// per row) into the matching region of `dst`, an existing tightly-packed
/// `width * height * 4` RGBA8 buffer. This is the damage-tracking fast path: a
/// keypress echo in a terminal damages a few cells, so converting just that
/// rectangle replaces a full-frame conversion. The rectangle is clamped to the
/// buffer bounds; a degenerate rectangle is a no-op, and so is a destination
/// that is too short.
pub fn convert_rect_into(
    dst: &mut [u8],
    src: &[u8],
    width: usize,
    height: usize,
    stride: usize,
    format: ShmFormat,
    rect: (usize, usize, usize, usize),
)
    ensures
        final(dst)@ == if old(dst)@.len() < width * height * 4 {
            old(dst)@
        } else {
            rect_converted(
                old(dst)@,
                src@,
                width as int,
                height as int,
                stride as int,
                format,
                (rect.0 as int, rect.1 as int, rect.2 as int, rect.3 as int),
            )
        },
{
    let (rx, ry, rw, rh) = rect;
    let room: usize = dst.len();
    assert(width * height >= 0) by (nonlinear_arith);
    let area: usize = match width.checked_mul(height) {
        Some(v) => v,
        None => return,
    };
    let bytes: usize = match area.checked_mul(4) {
        Some(v) => v,
        None => return,
    };
    if room < bytes {
        return;
    }
    let x0: usize = if rx < width { rx } else { width };
    let y0: usize = if ry < height { ry } else { height };
    let xe: usize = rx.saturating_add(rw);
    let ye: usize = ry.saturating_add(rh);
    let x1: usize = if xe < width { xe } else { width };
    let y1: usize = if ye < height { ye } else { height };
    let ghost before = dst@;
    let ghost w = width as int;
    let ghost st = stride as int;
    let ghost r4 = (rx as int, ry as int, rw as int, rh as int);
    assert(x1 == lesser(rx + rw, w));
    assert(y1 == lesser(ry + rh, height as int));
    let mut y: usize = y0;
    let mut short: bool = false;
    while y < y1 && !short
        invariant
            y0 <= y <= y1 <= height,
            x0 <= x1 <= width,
            bytes == width * height * 4,
            bytes <= before.len(),
            w == width,
            st == stride,
            area == width * height,
            dst@.len() == before.len(),
            short ==> y < y1 && y * st + x1 * 4 > src@.len(),
            forall|i: int|
                0 <= i < dst@.len() ==> #[trigger] dst@[i] == if i < w * height * 4 && x0
                    <= byte_col(i, w) < x1 && y0 <= byte_row(i, w) < y && byte_row(i, w) * st + x1
                    * 4 <= src@.len() {
                    rgba_byte(src@, byte_row(i, w) * st + byte_col(i, w) * 4, format, i % 4)
                } else {
                    before[i]
                },
        decreases y1 - y, if short { 0int } else { 1int },
    {
        match row_within(src, y, stride, x1) {
            None => {
                short = true;
            },
            Some(row_start) => {
                let ghost prev = dst@;
                if x0 < x1 {
                    proof {
                        lemma_byte_in_image(x0 as int, y as int, w, height as int);
                    }
                    convert_row(dst, src, width, y, x0, x1, row_start, format);
                }
                y += 1;
                proof {
                    assert forall|i: int| 0 <= i < dst@.len() implies #[trigger] dst@[i] == if i < w
                        * height * 4 && x0 <= byte_col(i, w) < x1 && y0 <= byte_row(i, w) < y
                        && byte_row(i, w) * st + x1 * 4 <= src@.len() {
                        rgba_byte(src@, byte_row(i, w) * st + byte_col(i, w) * 4, format, i % 4)
                    } else {
                        before[i]
                    } by {
                        if x0 < x1 && byte_row(i, w) == y - 1 && x0 <= byte_col(i, w) < x1 {
                            lemma_byte_split(i, w);
                            lemma_byte_in_image(byte_col(i, w), y - 1, w, height as int);
                        } else {
                            assert(dst@[i] == prev[i]);
                        }
                    }
                }
            },
        }
    }
    proof {
        let want = rect_converted(before, src@, w, height as int, st, format, r4);
        assert forall|i: int| 0 <= i < dst@.len() implies #[trigger] dst@[i] == want[i] by {
            let x = byte_col(i, w);
            let yy = byte_row(i, w);
            if i < w * height * 4 && rx <= x < x1 && ry <= yy < y1 && yy * st + x1 * 4
                <= src@.len() {
                if short && yy >= y {
                    lemma_rows_before(y as int, yy, st);
                }
            } else if i < w * height * 4 {
                assert(area > 0);
                lemma_byte_row_bound(i, w, height as int);
            }
        }
        assert(dst@ =~= want);
    }
}

/// Convert `src` (with `stride` bytes per row) into a tightly-packed
/// `width * height * 4` RGBA8 buffer. Stride padding past `width*4` is skipped;
/// a short source leaves the remaining rows zeroed.
pub fn convert_to_rgba(
    src: &[u8],
    width: usize,
    height: usize,
    stride: usize,
    format: ShmFormat,
) -> (out: Vec<u8>)
    requires
        width * height * 4 <= isize::MAX,
    ensures
        out@ == rgba_image(src@, width as int, height as int, stride as int, format),
{
    assert(width * height >= 0) by (nonlinear_arith);
    let mut out: Vec<u8> = vec![0u8; width * height * 4];
    convert_rect_into(
        out.as_mut_slice(),
        src,
        width,
        height,
        stride,
        format,
        (0, 0, width, height),
    );
    proof {
        let w = width as int;
        let h = height as int;
        let want = rgba_image(src@, w, h, stride as int, format);
        assert forall|i: int| 0 <= i < out@.len() implies #[trigger] out@[i] == want[i] by {
            lemma_byte_row_bound(i, w, h);
            lemma_byte_split(i, w);
        }
        assert(out@ =~= want);
    }
    out
}

// ---------------------------------------------------------------------------
// Compositing
// ---------------------------------------------------------------------------

/// The blended bytes are bytes.
pub proof fn lemma_over_byte_bound(s: Seq<u8>, d: Seq<u8>, c: int)
    requires
        s.len() == 4,
        d.len() == 4,
        0 <= c < 4,
    ensures
        0 <= over_byte(s, d, c) <= 255,
        0 < s[3] < 255 ==> 0 < s[3] * 255 + d[3] * (255 - s[3]) <= 65025,
{
    let a = s[3] as int;
    let da = d[3] as int;
    let sc = s[c] as int;
    let dc = d[c] as int;
    let inv = 255 - a;
    let out_a = a * 255 + da * inv;
    if 0 < a < 255 {
        assert(0 <= da * inv <= 255 * inv) by (nonlinear_arith)
            requires
                0 <= da <= 255,
                0 <= inv,
        ;
        assert(0 < out_a <= 65025);
        let num = sc * a * 255 + dc * da * inv;
        assert(0 <= sc * a <= 255 * a) by (nonlinear_arith)
            requires
                0 <= sc <= 255,
                0 <= a,
        ;
        assert(0 <= dc * da * inv <= 255 * (da * inv)) by (nonlinear_arith)
            requires
                0 <= dc <= 255,
                0 <= da,
                0 <= inv,
        ;
        assert(0 <= num <= 255 * out_a);
        assert(0 <= num / out_a <= 255) by (nonlinear_arith)
            requires
                0 <= num <= 255 * out_a,
                0 < out_a,
        ;
        assert(0 <= (out_a + 127) / 255 <= 255);
    }
}

/// Blends the four bytes at `s` of `src` over the four bytes at `d` of `dst`.
fn blend_pixel(dst: &mut [u8], d: usize, src: &[u8], s: usize)
    requires
        d + 4 <= old(dst)@.len(),
        s + 4 <= src@.len(),
    ensures
        final(dst)@.len() == old(dst)@.len(),
        forall|i: int|
            0 <= i < final(dst)@.len() ==> #[trigger] final(dst)@[i] == if d <= i < d + 4 {
                over_byte(
                    src@.subrange(s as int, s + 4),
                    old(dst)@.subrange(d as int, d + 4),
                    i - d,
                ) as u8
            } else {
                old(dst)@[i]
            },
{
    let room: usize = dst.len();
    let have: usize = src.len();
    let ghost sp = src@.subrange(s as int, s + 4);
    let ghost dp = dst@.subrange(d as int, d + 4);
    let a: u32 = src[s + 3] as u32;
    if a == 0 {
        return;
    }
    if a == 255 {
        dst[d] = src[s];
        dst[d + 1] = src[s + 1];
        dst[d + 2] = src[s + 2];
        dst[d + 3] = src[s + 3];
        return;
    }
    let inv: u32 = 255 - a;
    let da: u32 = dst[d + 3] as u32;
    proof {
        lemma_over_byte_bound(sp, dp, 0);
        lemma_over_byte_bound(sp, dp, 1);
        lemma_over_byte_bound(sp, dp, 2);
        lemma_over_byte_bound(sp, dp, 3);
        assert(0 <= da * inv <= 65025) by (nonlinear_arith)
            requires
                0 <= da <= 255,
                0 <= inv <= 255,
        ;
    }
    let out_a: u32 = a * 255 + da * inv;
    let r: u8 = blend_channel(src[s], dst[d], a, da);
    let g: u8 = blend_channel(src[s + 1], dst[d + 1], a, da);
    let b: u8 = blend_channel(src[s + 2], dst[d + 2], a, da);
    dst[d] = r;
    dst[d + 1] = g;
    dst[d + 2] = b;
    dst[d + 3] = ((out_a + 127) / 255) as u8;
}

/// One colour channel of a translucent pixel over another, weighing the
/// destination by its own alpha.
fn blend_channel(sc: u8, dc: u8, a: u32, da: u32) -> (r: u8)
    requires
        0 < a < 255,
        da <= 255,
    ensures
        r as int == (sc * a * 255 + dc * da * (255 - a)) / (a * 255 + da * (255 - a)),
{
    proof {
        let s = seq![sc, sc, sc, a as u8];
        let d = seq![dc, dc, dc, da as u8];
        lemma_over_byte_bound(s, d, 0);
        assert(0 <= sc * a <= 65025) by (nonlinear_arith)
            requires
                0 <= sc <= 255,
                0 <= a <= 255,
        ;
        assert(0 <= dc * da <= 65025) by (nonlinear_arith)
            requires
                0 <= dc <= 255,
                0 <= da <= 255,
        ;
        assert(0 <= da * (255 - a) <= 65025) by (nonlinear_arith)
            requires
                0 <= da <= 255,
                0 <= a <= 255,
        ;
        let p = dc * da;
        assert(0 <= p * (255 - a) <= 16581375) by (nonlinear_arith)
            requires
                0 <= p <= 65025,
                0 <= a <= 255,
        ;
    }
    let inv: u32 = 255 - a;
    let out_a: u32 = a * 255 + da * inv;
    let num: u32 = sc as u32 * a * 255 + dc as u32 * da * inv;
    (num / out_a) as u8
}

/// The canvas coordinate of source coordinate `k` when the source is placed at
/// `at`, if it is on a canvas that is `size` long.
fn canvas_coord(at: i32, k: usize, size: usize) -> (r: Option<usize>)
    ensures
        r is Some <==> 0 <= at + k < size,
        r is Some ==> r->0 == at + k,
{
    let v: i128 = at as i128 + k as i128;
    if v < 0 || v >= size as i128 {
        None
    } else {
        Some(v as usize)
    }
}

/// Where the pixel in column `col` of row `row` starts, if its four bytes are
/// all present in `src`.
fn source_pixel(src: &[u8], col: usize, row: usize, sw: usize) -> (r: Option<usize>)
    ensures
        r is Some <==> byte_at(col as int, row as int, 0, sw as int) + 4 <= src@.len(),
        r is Some ==> r->0 == byte_at(col as int, row as int, 0, sw as int),
{
    let have: usize = src.len();
    assert(row * sw >= 0) by (nonlinear_arith);
    let base: usize = match row.checked_mul(sw) {
        Some(v) => v,
        None => return None,
    };
    let pixel: usize = match base.checked_add(col) {
        Some(v) => v,
        None => return None,
    };
    let s: usize = match pixel.checked_mul(4) {
        Some(v) => v,
        None => return None,
    };
    if have >= 4 && s <= have - 4 {
        Some(s)
    } else {
        None
    }
}

/// Byte `i` of the canvas once the source pixels of row `row` before column
/// `col`, and all earlier rows, have been blended onto `dst`.
spec fn blit_progress(
    dst: Seq<u8>,
    dw: int,
    dh: int,
    x: int,
    y: int,
    src: Seq<u8>,
    sw: int,
    sh: int,
    row: int,
    col: int,
    i: int,
) -> u8 {
    let r = byte_row(i, dw) - y;
    let c = byte_col(i, dw) - x;
    if r < row || (r == row && c < col) {
        blitted(dst, dw, dh, x, y, src, sw, sh)[i]
    } else {
        dst[i]
    }
}

/// Alpha-blend a tightly-packed `src` RGBA8 image of `sw`x`sh` onto a
/// tightly-packed `dst` RGBA8 canvas of `dw`x`dh`, with its top-left corner at
/// `(x, y)` (which may be negative or partly off-canvas: those pixels are
/// clipped). Straight-alpha "source over destination" compositing, used to
/// flatten a `wl_surface` tree (a window plus its subsurfaces) into one buffer.
pub fn blit_over(
    dst: &mut [u8],
    dw: usize,
    dh: usize,
    x: i32,
    y: i32,
    src: &[u8],
    sw: usize,
    sh: usize,
)
    requires
        dw * dh * 4 <= old(dst)@.len(),
    ensures
        final(dst)@ == blitted(
            old(dst)@,
            dw as int,
            dh as int,
            x as int,
            y as int,
            src@,
            sw as int,
            sh as int,
        ),
{
    let room: usize = dst.len();
    let ghost before = dst@;
    let ghost w = dw as int;
    let ghost h = dh as int;
    let ghost want = blitted(before, w, h, x as int, y as int, src@, sw as int, sh as int);
    let mut row: usize = 0;
    while row < sh
        invariant
            row <= sh,
            room == before.len(),
            dst@.len() == before.len(),
            w == dw,
            h == dh,
            dw * dh * 4 <= before.len(),
            want == blitted(before, w, h, x as int, y as int, src@, sw as int, sh as int),
            forall|i: int|
                0 <= i < dst@.len() ==> #[trigger] dst@[i] == blit_progress(
                    before,
                    w,
                    h,
                    x as int,
                    y as int,
                    src@,
                    sw as int,
                    sh as int,
                    row as int,
                    0,
                    i,
                ),
        decreases sh - row,
    {
        if let Some(dy) = canvas_coord(y, row, dh) {
            let mut col: usize = 0;
            while col < sw
                invariant
                    col <= sw,
                    row < sh,
                    dy == y + row,
                    dy < dh,
                    room == before.len(),
                    dst@.len() == before.len(),
                    w == dw,
                    h == dh,
                    dw * dh * 4 <= before.len(),
                    want == blitted(before, w, h, x as int, y as int, src@, sw as int, sh as int),
                    forall|i: int|
                        0 <= i < dst@.len() ==> #[trigger] dst@[i] == blit_progress(
                            before,
                            w,
                            h,
                            x as int,
                            y as int,
                            src@,
                            sw as int,
                            sh as int,
                            row as int,
                            col as int,
                            i,
                        ),
                decreases sw - col,
            {
                let ghost prev = dst@;
                let ghost mut hit = false;
                let ghost mut at = 0int;
                let ghost mut from = 0int;
                if let Some(dx) = canvas_coord(x, col, dw) {
                    if let Some(s) = source_pixel(src, col, row, sw) {
                        proof {
                            lemma_byte_in_image(dx as int, dy as int, w, h);
                            lemma_byte_at(dx as int, dy as int, 0, w);
                            lemma_byte_at(dx as int, dy as int, 1, w);
                            lemma_byte_at(dx as int, dy as int, 2, w);
                            lemma_byte_at(dx as int, dy as int, 3, w);
                            assert(dy * dw >= 0) by (nonlinear_arith);
                            assert(w * h * 4 == dw * dh * 4);
                        }
                        let d: usize = (dy * dw + dx) * 4;
                        proof {
                            hit = true;
                            at = d as int;
                            from = s as int;
                            assert(prev.subrange(at, at + 4) =~= before.subrange(at, at + 4));
                        }
                        blend_pixel(dst, d, src, s);
                    }
                }
                col += 1;
                proof {
                    let c0 = col - 1;
                    assert forall|i: int| 0 <= i < dst@.len() implies #[trigger] dst@[i]
                        == blit_progress(
                        before,
                        w,
                        h,
                        x as int,
                        y as int,
                        src@,
                        sw as int,
                        sh as int,
                        row as int,
                        col as int,
                        i,
                    ) by {
                        let r = byte_row(i, w) - y;
                        let c = byte_col(i, w) - x;
                        if hit && at <= i < at + 4 {
                            assert(i == at || i == at + 1 || i == at + 2 || i == at + 3);
                            assert(r == row && c == c0);
                            assert(i % 4 == i - at);
                            assert(i < w * h * 4);
                            assert(from == byte_at(c, r, 0, sw as int));
                        } else {
                            assert(dst@[i] == prev[i]);
                            if r == row && c == c0 && i < w * h * 4 {
                                lemma_byte_row_bound(i, w, h);
                                lemma_byte_split(i, w);
                                assert(want[i] == before[i]);
                            }
                        }
                    }
                }
            }
        }
        row += 1;
        proof {
            let r0 = row - 1;
            assert forall|i: int| 0 <= i < dst@.len() implies #[trigger] dst@[i] == blit_progress(
                before,
                w,
                h,
                x as int,
                y as int,
                src@,
                sw as int,
                sh as int,
                row as int,
                0,
                i,
            ) by {
                if byte_row(i, w) - y == r0 && i < w * h * 4 {
                    lemma_byte_row_bound(i, w, h);
                    lemma_byte_split(i, w);
                }
            }
        }
    }
    assert(dst@ =~= want);
}

// ---------------------------------------------------------------------------
// Laws
// ---------------------------------------------------------------------------

/// Converting the whole rectangle into a zeroed buffer is converting the image.
pub proof fn law_full_rect_is_whole_image(
    src: Seq<u8>,
    width: nat,
    height: nat,
    stride: nat,
    format: ShmFormat,
)
    ensures
        rect_converted(
            Seq::new(width * height * 4, |i: int| 0u8),
            src,
            width as int,
            height as int,
            stride as int,
            format,
            (0, 0, width as int, height as int),
        ) == rgba_image(src, width as int, height as int, stride as int, format),
{
    let zero = Seq::new(width * height * 4, |i: int| 0u8);
    let w = width as int;
    let h = height as int;
    let a = rect_converted(zero, src, w, h, stride as int, format, (0, 0, w, h));
    let b = rgba_image(src, w, h, stride as int, format);
    assert forall|i: int| 0 <= i < a.len() implies a[i] == b[i] by {
        lemma_byte_row_bound(i, w, h);
        lemma_byte_split(i, w);
    }
    assert(a =~= b);
}

/// Damage tracking is exact: when two complete frames differ only inside a
/// rectangle, converting that rectangle of the new frame into the converted old
/// frame gives the converted new frame.
pub proof fn law_damage_conversion_is_exact(
    previous: Seq<u8>,
    src: Seq<u8>,
    width: nat,
    height: nat,
    stride: nat,
    format: ShmFormat,
    rect: (nat, nat, nat, nat),
)
    requires
        forall|y: int|
            0 <= y < height ==> #[trigger] (y * stride) + width * 4 <= previous.len() && y * stride
                + width * 4 <= src.len(),
        forall|x: int, y: int, c: int|
            0 <= x < width && 0 <= y < height && 0 <= c < 4 && !(rect.0 <= x < rect.0 + rect.2
                && rect.1 <= y < rect.1 + rect.3) ==> #[trigger] rgba_byte(
                src,
                y * stride + x * 4,
                format,
                c,
            ) == rgba_byte(previous, y * stride + x * 4, format, c),
    ensures
        rect_converted(
            rgba_image(previous, width as int, height as int, stride as int, format),
            src,
            width as int,
            height as int,
            stride as int,
            format,
            (rect.0 as int, rect.1 as int, rect.2 as int, rect.3 as int),
        ) == rgba_image(src, width as int, height as int, stride as int, format),
{
    let w = width as int;
    let h = height as int;
    let st = stride as int;
    let r = (rect.0 as int, rect.1 as int, rect.2 as int, rect.3 as int);
    let old_image = rgba_image(previous, w, h, st, format);
    let a = rect_converted(old_image, src, w, h, st, format, r);
    let b = rgba_image(src, w, h, st, format);
    assert forall|i: int| 0 <= i < a.len() implies a[i] == b[i] by {
        lemma_byte_row_bound(i, w, h);
        lemma_byte_split(i, w);
        let x = byte_col(i, w);
        let y = byte_row(i, w);
        assert(y * stride + width * 4 <= src.len());
        assert(rgba_byte(src, y * stride + x * 4, format, i % 4) == b[i]);
    }
    assert(a =~= b);
}

/// An image placed entirely outside the canvas changes nothing.
pub proof fn law_offscreen_blit_is_noop(
    dst: Seq<u8>,
    dw: nat,
    dh: nat,
    x: int,
    y: int,
    src: Seq<u8>,
    sw: nat,
    sh: nat,
)
    requires
        x >= dw || y >= dh || x + sw <= 0 || y + sh <= 0,
    ensures
        blitted(dst, dw as int, dh as int, x, y, src, sw as int, sh as int) == dst,
{
    let b = blitted(dst, dw as int, dh as int, x, y, src, sw as int, sh as int);
    assert forall|i: int| 0 <= i < b.len() implies b[i] == dst[i] by {
        if i < dw * dh * 4 {
            lemma_byte_row_bound(i, dw as int, dh as int);
            lemma_byte_split(i, dw as int);
        }
    }
    assert(b =~= dst);
}

/// A pixel blended onto a fully transparent one keeps its straight-alpha colour
/// and its alpha, whatever that alpha is.
pub proof fn law_over_transparent_keeps_source(s: Seq<u8>, d: Seq<u8>, c: int)
    requires
        s.len() == 4,
        d.len() == 4,
        d[3] == 0,
        s[3] > 0,
        0 <= c < 4,
    ensures
        over_byte(s, d, c) == s[c],
{
    let a = s[3] as int;
    let sc = s[c] as int;
    if a < 255 {
        let out_a = a * 255 + 0 * (255 - a);
        assert(0 * (255 - a) == 0) by (nonlinear_arith);
        if c == 3 {
            assert((a * 255 + 127) / 255 == a);
        } else {
            let dc = d[c] as int;
            assert(dc * 0 * (255 - a) == 0) by (nonlinear_arith);
            assert(sc * a * 255 == sc * (a * 255)) by (nonlinear_arith);
            vstd::arithmetic::div_mod::lemma_div_by_multiple(sc, a * 255);
        }
    }
}

/// Blending onto an opaque pixel leaves it opaque.
pub proof fn law_over_opaque_stays_opaque(s: Seq<u8>, d: Seq<u8>)
    requires
        s.len() == 4,
        d.len() == 4,
        d[3] == 255,
    ensures
        over_byte(s, d, 3) == 255,
{
    let a = s[3] as int;
    assert(255 * (255 - a) == 65025 - 255 * a);
}

/// A fully transparent source pixel leaves the canvas pixel as it is, and an
/// opaque one replaces it.
pub proof fn law_over_extremes(s: Seq<u8>, d: Seq<u8>, c: int)
    requires
        s.len() == 4,
        d.len() == 4,
        0 <= c < 4,
    ensures
        s[3] == 0 ==> over_byte(s, d, c) == d[c],
        s[3] == 255 ==> over_byte(s, d, c) == s[c],
{
}

/// A weighted mean of two bytes, rounded down, lies between them.
proof fn lemma_mean_between(p: int, q: int, u: int, v: int)
    requires
        0 <= u,
        0 <= v,
        0 < u + v,
    ensures
        p <= q ==> p <= (p * u + q * v) / (u + v) <= q,
        q <= p ==> q <= (p * u + q * v) / (u + v) <= p,
{
    let n = p * u + q * v;
    let m = u + v;
    let r = n / m;
    vstd::arithmetic::div_mod::lemma_fundamental_div_mod(n, m);
    vstd::arithmetic::div_mod::lemma_mod_bound(n, m);
    if p <= q {
        assert(p * m <= n <= q * m) by (nonlinear_arith)
            requires
                n == p * u + q * v,
                m == u + v,
                p <= q,
                0 <= u,
                0 <= v,
        ;
        assert(p <= r <= q) by (nonlinear_arith)
            requires
                p * m <= n <= q * m,
                n == m * r + n % m,
                0 <= n % m < m,
        ;
    }
    if q <= p {
        assert(q * m <= n <= p * m) by (nonlinear_arith)
            requires
                n == p * u + q * v,
                m == u + v,
                q <= p,
                0 <= u,
                0 <= v,
        ;
        assert(q <= r <= p) by (nonlinear_arith)
            requires
                q * m <= n <= p * m,
                n == m * r + n % m,
                0 <= n % m < m,
        ;
    }
}

/// Each colour channel is mixed with the same channel below it: it lies between
/// the two, so blending a colour over itself keeps it.
pub proof fn law_over_mixes_each_channel(s: Seq<u8>, d: Seq<u8>, c: int)
    requires
        s.len() == 4,
        d.len() == 4,
        0 <= c < 3,
    ensures
        s[c] <= d[c] ==> s[c] <= over_byte(s, d, c) <= d[c],
        d[c] <= s[c] ==> d[c] <= over_byte(s, d, c) <= s[c],
{
    let a = s[3] as int;
    let da = d[3] as int;
    let sc = s[c] as int;
    let dc = d[c] as int;
    if 0 < a < 255 {
        assert(da * (255 - a) >= 0) by (nonlinear_arith)
            requires
                0 <= da,
                a < 255,
        ;
        assert(sc * a * 255 == sc * (a * 255)) by (nonlinear_arith);
        assert(dc * da * (255 - a) == dc * (da * (255 - a))) by (nonlinear_arith);
        lemma_mean_between(sc, dc, a * 255, da * (255 - a));
    }
}

/// No channel depends on another one: what comes out of a channel is decided by
/// that channel and the alphas alone.
pub proof fn law_over_channels_are_independent(
    s: Seq<u8>,
    d: Seq<u8>,
    s2: Seq<u8>,
    d2: Seq<u8>,
    c: int,
)
    requires
        s.len() == 4,
        d.len() == 4,
        s2.len() == 4,
        d2.len() == 4,
        0 <= c < 4,
        s[3] == s2[3],
        d[3] == d2[3],
        s[c] == s2[c],
        d[c] == d2[c],
    ensures
        over_byte(s, d, c) == over_byte(s2, d2, c),
{
}

/// Over an opaque pixel, the share of the source is its alpha: the result is the
/// mean of the two channels with the weights `a` and `255 - a`, rounded down.
pub proof fn law_over_opaque_is_the_weighted_mean(s: Seq<u8>, d: Seq<u8>, c: int)
    requires
        s.len() == 4,
        d.len() == 4,
        0 <= c < 3,
        d[3] == 255,
    ensures
        255 * over_byte(s, d, c) <= s[c] * s[3] + d[c] * (255 - s[3]) < 255 * over_byte(s, d, c)
            + 255,
{
    let a = s[3] as int;
    let sc = s[c] as int;
    let dc = d[c] as int;
    let t = sc * a + dc * (255 - a);
    if a == 0 {
        assert(t == 255 * dc) by (nonlinear_arith)
            requires
                t == sc * a + dc * (255 - a),
                a == 0,
        ;
    } else if a == 255 {
        assert(t == 255 * sc) by (nonlinear_arith)
            requires
                t == sc * a + dc * (255 - a),
                a == 255,
        ;
    } else {
        assert(255 * (255 - a) == 65025 - 255 * a);
        assert(sc * a * 255 + dc * 255 * (255 - a) == 255 * t) by (nonlinear_arith)
            requires
                t == sc * a + dc * (255 - a),
        ;
        let r = over_byte(s, d, c);
        assert(r == (255 * t) / 65025);
        vstd::arithmetic::div_mod::lemma_fundamental_div_mod(255 * t, 65025);
        vstd::arithmetic::div_mod::lemma_mod_bound(255 * t, 65025);
    }
}

/// Colours weighed by their coverage add up: that of the result is that of the
/// source plus what the source lets through of the destination, up to one step
/// of rounding.
pub proof fn law_over_adds_weighted_colours(s: Seq<u8>, d: Seq<u8>, c: int)
    requires
        s.len() == 4,
        d.len() == 4,
        0 <= c < 3,
        0 < s[3] < 255,
    ensures
        ({
            let coverage = 65025 - (255 - s[3]) * (255 - d[3]);
            let colour = 255 * (s[3] * s[c]) + (255 - s[3]) * (d[3] * d[c]);
            coverage * over_byte(s, d, c) <= colour < coverage * (over_byte(s, d, c) + 1)
        }),
{
    let a = s[3] as int;
    let da = d[3] as int;
    let sc = s[c] as int;
    let dc = d[c] as int;
    let out_a = a * 255 + da * (255 - a);
    assert(out_a == 65025 - (255 - a) * (255 - da)) by (nonlinear_arith)
        requires
            out_a == a * 255 + da * (255 - a),
    ;
    assert(da * (255 - a) >= 0) by (nonlinear_arith)
        requires
            0 <= da,
            a < 255,
    ;
    let num = sc * a * 255 + dc * da * (255 - a);
    assert(num == 255 * (a * sc) + (255 - a) * (da * dc)) by (nonlinear_arith)
        requires
            num == sc * a * 255 + dc * da * (255 - a),
    ;
    vstd::arithmetic::div_mod::lemma_fundamental_div_mod(num, out_a);
    vstd::arithmetic::div_mod::lemma_mod_bound(num, out_a);
    let r = num / out_a;
    assert(out_a * r <= num < out_a * (r + 1)) by (nonlinear_arith)
        requires
            num == out_a * r + num % out_a,
            0 <= num % out_a < out_a,
    ;
}

/// What shows through two layers is what shows through one times what shows
/// through the other, up to half a step of rounding.
pub proof fn law_over_multiplies_transparency(s: Seq<u8>, d: Seq<u8>)
    requires
        s.len() == 4,
        d.len() == 4,
    ensures
        -127 <= 255 * (255 - over_byte(s, d, 3)) - (255 - s[3]) * (255 - d[3]) <= 127,
{
    let a = s[3] as int;
    let da = d[3] as int;
    let out_a = a * 255 + da * (255 - a);
    assert(out_a == 65025 - (255 - a) * (255 - da)) by (nonlinear_arith)
        requires
            out_a == a * 255 + da * (255 - a),
    ;
    if a == 0 {
        assert((255 - a) * (255 - da) == 255 * (255 - da)) by (nonlinear_arith)
            requires
                a == 0,
        ;
    } else if a == 255 {
        assert((255 - a) * (255 - da) == 0) by (nonlinear_arith)
            requires
                a == 255,
        ;
    }
}

/// The bytes of a pixel inside an image lie inside its buffer.
proof fn lemma_pixel_inside(x: int, y: int, width: int, height: int)
    requires
        0 <= x < width,
        0 <= y < height,
    ensures
        0 <= (y * width + x) * 4,
        (y * width + x) * 4 + 4 <= width * height * 4,
{
    assert(0 <= y * width && y * width + x + 1 <= width * height) by (nonlinear_arith)
        requires
            0 <= x < width,
            0 <= y < height,
    ;
}

/// A converted image has, in the place of each pixel, its red, green and blue in
/// this order, read from the row at the stride, and its alpha or full opacity.
pub proof fn law_pixels_are_converted_in_place(
    src: Seq<u8>,
    width: nat,
    height: nat,
    stride: nat,
    format: ShmFormat,
    x: int,
    y: int,
)
    requires
        0 <= x < width,
        0 <= y < height,
        y * stride + width * 4 <= src.len(),
    ensures
        ({
            let image = rgba_image(src, width as int, height as int, stride as int, format);
            let from = y * stride + 4 * x;
            let to = 4 * (y * width + x);
            &&& image.len() == width * height * 4
            &&& image[to] == src[from + 2]
            &&& image[to + 1] == src[from + 1]
            &&& image[to + 2] == src[from]
            &&& format == ShmFormat::Argb8888 ==> image[to + 3] == src[from + 3]
            &&& format == ShmFormat::Xrgb8888 ==> image[to + 3] == 255
        }),
{
    lemma_pixel_inside(x, y, width as int, height as int);
    lemma_byte_at(x, y, 0, width as int);
    lemma_byte_at(x, y, 1, width as int);
    lemma_byte_at(x, y, 2, width as int);
    lemma_byte_at(x, y, 3, width as int);
}

/// Rows that the source does not hold in full stay zero.
pub proof fn law_missing_rows_are_zero(
    src: Seq<u8>,
    width: nat,
    height: nat,
    stride: nat,
    format: ShmFormat,
    x: int,
    y: int,
    c: int,
)
    requires
        0 <= x < width,
        0 <= y < height,
        0 <= c < 4,
        y * stride + width * 4 > src.len(),
    ensures
        rgba_image(src, width as int, height as int, stride as int, format)[4 * (y * width + x) + c]
            == 0,
{
    lemma_pixel_inside(x, y, width as int, height as int);
    lemma_byte_at(x, y, c, width as int);
}

/// Converting a rectangle changes the pixels inside it, to what converting the
/// whole image would give, and no others.
pub proof fn law_rectangle_is_converted_alone(
    dst: Seq<u8>,
    src: Seq<u8>,
    width: nat,
    height: nat,
    stride: nat,
    format: ShmFormat,
    rect: (int, int, int, int),
    x: int,
    y: int,
    c: int,
)
    requires
        0 <= x < width,
        0 <= y < height,
        0 <= c < 4,
        dst.len() == width * height * 4,
        y * stride + width * 4 <= src.len(),
    ensures
        ({
            let r = rect_converted(
                dst,
                src,
                width as int,
                height as int,
                stride as int,
                format,
                rect,
            );
            let i = 4 * (y * width + x) + c;
            &&& r.len() == dst.len()
            &&& rect.0 <= x < rect.0 + rect.2 && rect.1 <= y < rect.1 + rect.3 ==> r[i]
                == rgba_image(src, width as int, height as int, stride as int, format)[i]
            &&& !(rect.0 <= x < rect.0 + rect.2 && rect.1 <= y < rect.1 + rect.3) ==> r[i]
                == dst[i]
        }),
{
    lemma_pixel_inside(x, y, width as int, height as int);
    lemma_byte_at(x, y, c, width as int);
}

/// An image is placed with its top-left corner at `(x, y)`: an opaque pixel of it
/// replaces the canvas pixel that far to the right and down, a translucent one is
/// blended onto it.
pub proof fn law_blit_places_the_image(
    dst: Seq<u8>,
    dw: nat,
    dh: nat,
    x: int,
    y: int,
    src: Seq<u8>,
    sw: nat,
    sh: nat,
    col: int,
    row: int,
    c: int,
)
    requires
        dst.len() == dw * dh * 4,
        src.len() == sw * sh * 4,
        0 <= col < sw,
        0 <= row < sh,
        0 <= x + col < dw,
        0 <= y + row < dh,
        0 <= c < 4,
    ensures
        ({
            let r = blitted(dst, dw as int, dh as int, x, y, src, sw as int, sh as int);
            let from = 4 * (row * sw + col);
            let to = 4 * ((y + row) * dw + (x + col));
            &&& r.len() == dst.len()
            &&& src[from + 3] == 255 ==> r[to + c] == src[from + c]
            &&& src[from + 3] == 0 ==> r[to + c] == dst[to + c]
            &&& r[to + c] == over_byte(
                seq![src[from], src[from + 1], src[from + 2], src[from + 3]],
                seq![dst[to], dst[to + 1], dst[to + 2], dst[to + 3]],
                c,
            )
        }),
{
    lemma_pixel_inside(col, row, sw as int, sh as int);
    lemma_pixel_inside(x + col, y + row, dw as int, dh as int);
    lemma_byte_at(x + col, y + row, c, dw as int);
    let from = 4 * (row * sw + col);
    let to = 4 * ((y + row) * dw + (x + col));
    let s = seq![src[from], src[from + 1], src[from + 2], src[from + 3]];
    let d = seq![dst[to], dst[to + 1], dst[to + 2], dst[to + 3]];
    assert(src.subrange(from, from + 4) =~= s);
    assert(dst.subrange(to, to + 4) =~= d);
    lemma_over_byte_bound(s, d, c);
    assert(byte_at(col, row, 0, sw as int) == from);
}

/// A canvas pixel that the image does not cover stays as it is.
pub proof fn law_blit_leaves_the_rest(
    dst: Seq<u8>,
    dw: nat,
    dh: nat,
    x: int,
    y: int,
    src: Seq<u8>,
    sw: nat,
    sh: nat,
    px: int,
    py: int,
    c: int,
)
    requires
        dst.len() == dw * dh * 4,
        0 <= px < dw,
        0 <= py < dh,
        0 <= c < 4,
        !(x <= px < x + sw && y <= py < y + sh),
    ensures
        blitted(dst, dw as int, dh as int, x, y, src, sw as int, sh as int)[4 * (py * dw + px) + c]
            == dst[4 * (py * dw + px) + c],
{
    lemma_pixel_inside(px, py, dw as int, dh as int);
    lemma_byte_at(px, py, c, dw as int);
}

/// A row of the rectangle that ends inside the source is converted from its own
/// bytes, even where the rest of the row is missing; one that does not is left.
pub proof fn law_rectangle_rows_need_their_own_bytes(
    dst: Seq<u8>,
    src: Seq<u8>,
    width: nat,
    height: nat,
    stride: nat,
    format: ShmFormat,
    rect: (int, int, int, int),
    end: int,
    x: int,
    y: int,
    c: int,
)
    requires
        0 <= x < width,
        0 <= y < height,
        0 <= c < 4,
        dst.len() == width * height * 4,
        rect.0 <= x < rect.0 + rect.2,
        rect.1 <= y < rect.1 + rect.3,
        end == if rect.0 + rect.2 <= width {
            rect.0 + rect.2
        } else {
            width as int
        },
    ensures
        ({
            let r = rect_converted(
                dst,
                src,
                width as int,
                height as int,
                stride as int,
                format,
                rect,
            );
            let to = 4 * (y * width + x);
            let from = y * stride + 4 * x;
            &&& y * stride + 4 * end > src.len() ==> r[to + c] == dst[to + c]
            &&& y * stride + 4 * end <= src.len() ==> {
                &&& r[to] == src[from + 2]
                &&& r[to + 1] == src[from + 1]
                &&& r[to + 2] == src[from]
                &&& format == ShmFormat::Argb8888 ==> r[to + 3] == src[from + 3]
                &&& format == ShmFormat::Xrgb8888 ==> r[to + 3] == 255
            }
        }),
{
    lemma_pixel_inside(x, y, width as int, height as int);
    lemma_byte_at(x, y, c, width as int);
    lemma_byte_at(x, y, 0, width as int);
    lemma_byte_at(x, y, 1, width as int);
    lemma_byte_at(x, y, 2, width as int);
    lemma_byte_at(x, y, 3, width as int);
}

} // verus!
