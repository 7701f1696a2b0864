//! Floating window frames: placing, clamping, resizing, snapping and
//! hit-testing.
//!
//! All lengths are in 1/256 of a logical pixel, in the coordinates of the
//! content area (the host window right of the sidebar).

use vstd::prelude::*;

verus! {

/// One logical pixel.
pub const PX: i64 = 256;

/// Height of the server-side decoration title bar (30 px).
pub const TITLE_BAR_H: i64 = 30 * 256;

/// Width of the sidebar, in whole logical px. The client content area is
/// everything to its right.
pub const SIDEBAR_W: i32 = 252;

/// Smallest width a floating window frame may be shrunk to (200 px).
pub const MIN_WIN_W: i64 = 200 * 256;

/// Smallest height a floating window frame may be shrunk to (120 px).
pub const MIN_WIN_H: i64 = 120 * 256;

/// How much of a frame stays on screen (80 px).
pub const KEEP: i64 = 80 * 256;

/// Height of a sidebar row with its gap (64 px).
pub const ROW_PITCH: i64 = 64 * 256;

/// No length is larger than this, so that sums stay within 64 bits.
pub const LIMIT: i64 = 0x1_0000_0000_0000;

/// A floating window's frame rectangle.
#[derive(Debug, Clone, Copy, PartialEq, Eq, Structural)]
pub struct WinGeom {
    pub x: i64,
    pub y: i64,
    pub w: i64,
    pub h: i64,
}

/// Bounds of a frame's size; a maximum of `None` is no maximum.
#[derive(Debug, Clone, Copy, PartialEq, Eq)]
pub struct Bounds {
    pub min_w: i64,
    pub min_h: i64,
    pub max_w: Option<i64>,
    pub max_h: Option<i64>,
}

/// The larger of two lengths.
pub open spec fn larger(a: int, b: int) -> int {
    if a >= b {
        a
    } else {
        b
    }
}

/// The smaller of two lengths.
pub open spec fn smaller(a: int, b: int) -> int {
    if a <= b {
        a
    } else {
        b
    }
}

/// Executable form of [`larger`].
fn max(a: i64, b: i64) -> (r: i64)
    ensures
        r == larger(a as int, b as int),
{
    if a >= b {
        a
    } else {
        b
    }
}

/// Executable form of [`smaller`].
fn min(a: i64, b: i64) -> (r: i64)
    ensures
        r == smaller(a as int, b as int),
{
    if a <= b {
        a
    } else {
        b
    }
}

/// `v` no larger than `cap`, where there is one.
pub open spec fn capped(v: int, cap: Option<i64>) -> int {
    match cap {
        Some(c) => smaller(v, c as int),
        None => v,
    }
}

/// `v` within the bounds.
pub open spec fn bounded(v: int, lo: int, hi: Option<i64>) -> int {
    capped(larger(v, lo), hi)
}

/// Executable form of [`capped`].
fn cap(v: i64, limit: Option<i64>) -> (r: i64)
    ensures
        r == capped(v as int, limit),
{
    match limit {
        Some(c) => min(v, c),
        None => v,
    }
}

/// The title bar's share of a frame's height.
pub open spec fn bar(decorated: bool) -> int {
    if decorated {
        TITLE_BAR_H as int
    } else {
        0
    }
}

/// Executable form of [`bar`].
fn bar_height(decorated: bool) -> (r: i64)
    ensures
        r == bar(decorated),
        0 <= r <= TITLE_BAR_H,
{
    if decorated {
        TITLE_BAR_H
    } else {
        0
    }
}

/// Whether the lengths of a frame are within the limits.
pub open spec fn geom_ok(g: WinGeom) -> bool {
    -LIMIT <= g.x <= LIMIT && -LIMIT <= g.y <= LIMIT && 0 <= g.w <= LIMIT && 0 <= g.h <= LIMIT
}

/// A length rounded to whole pixels, halves away from zero.
pub open spec fn whole(v: int) -> int {
    if v >= 0 {
        (v + 128) / 256
    } else {
        -((-v + 128) / 256)
    }
}

/// As far as 32 bits can hold it.
pub open spec fn fit32(v: int) -> int {
    if v > i32::MAX {
        i32::MAX as int
    } else if v < i32::MIN {
        i32::MIN as int
    } else {
        v
    }
}

/// A length in whole pixels.
fn whole_px(v: i64) -> (r: i32)
    requires
        -2 * LIMIT <= v <= 2 * LIMIT,
    ensures
        r == fit32(whole(v as int)),
{
    let n: i64 = if v >= 0 {
        (v + 128) / 256
    } else {
        -((-v + 128) / 256)
    };
    if n > 0x7fff_ffff {
        i32::MAX
    } else if n < -0x8000_0000 {
        i32::MIN
    } else {
        n as i32
    }
}

// ---------------------------------------------------------------------------
// Size hints
// ---------------------------------------------------------------------------

/// The bounds of a frame from the client's content hints (0 = unset) plus the
/// title bar. Never below the global minimum, and the maximum is kept at or
/// above the minimum.
pub open spec fn frame_limits(
    decorated: bool,
    min_w: i32,
    min_h: i32,
    max_w: i32,
    max_h: i32,
) -> Bounds {
    let lo_w = larger(min_w * PX, MIN_WIN_W as int);
    let lo_h = larger(
        if min_h > 0 {
            min_h * PX + bar(decorated)
        } else {
            0
        },
        MIN_WIN_H as int,
    );
    Bounds {
        min_w: lo_w as i64,
        min_h: lo_h as i64,
        max_w: if max_w > 0 {
            Some(larger(max_w * PX, lo_w) as i64)
        } else {
            None
        },
        max_h: if max_h > 0 {
            Some(larger(max_h * PX + bar(decorated), lo_h) as i64)
        } else {
            None
        },
    }
}

/// Frame-size bounds from the client's content hints plus the title bar.
pub fn frame_bounds(decorated: bool, min_w: i32, min_h: i32, max_w: i32, max_h: i32) -> (r: Bounds)
    ensures
        r == frame_limits(decorated, min_w, min_h, max_w, max_h),
{
    let extra: i64 = bar_height(decorated);
    let lo_w: i64 = max(min_w as i64 * PX, MIN_WIN_W);
    let lo_h: i64 = max(if min_h > 0 { min_h as i64 * PX + extra } else { 0 }, MIN_WIN_H);
    let hi_w: Option<i64> = if max_w > 0 { Some(max(max_w as i64 * PX, lo_w)) } else { None };
    let hi_h: Option<i64> = if max_h > 0 {
        Some(max(max_h as i64 * PX + extra, lo_h))
    } else {
        None
    };
    Bounds { min_w: lo_w, min_h: lo_h, max_w: hi_w, max_h: hi_h }
}

/// A frame's size within the client's own content hints, without a global floor.
pub open spec fn hinted(
    g: WinGeom,
    decorated: bool,
    min_w: i32,
    min_h: i32,
    max_w: i32,
    max_h: i32,
) -> WinGeom {
    let lo_w = if min_w > 0 {
        min_w * PX
    } else {
        0
    };
    let lo_h = if min_h > 0 {
        min_h * PX + bar(decorated)
    } else {
        0
    };
    let hi_w = if max_w > 0 {
        Some(larger(max_w * PX, lo_w) as i64)
    } else {
        None
    };
    let hi_h = if max_h > 0 {
        Some(larger(max_h * PX + bar(decorated), lo_h) as i64)
    } else {
        None
    };
    WinGeom {
        w: bounded(g.w as int, lo_w, hi_w) as i64,
        h: bounded(g.h as int, lo_h, hi_h) as i64,
        ..g
    }
}

/// Clamp a frame's size to the client's own min/max *content*-size hints (0 =
/// unset on that axis), adding the title bar to the height bounds when
/// decorated; the position is left unchanged. Unlike [`frame_bounds`] this
/// applies no global floor, so a client that declares a small fixed size is
/// honored.
pub fn clamp_to_client_hints(
    geom: WinGeom,
    decorated: bool,
    min_w: i32,
    min_h: i32,
    max_w: i32,
    max_h: i32,
) -> (r: WinGeom)
    ensures
        r == hinted(geom, decorated, min_w, min_h, max_w, max_h),
{
    let extra: i64 = bar_height(decorated);
    let lo_w: i64 = if min_w > 0 { min_w as i64 * PX } else { 0 };
    let lo_h: i64 = if min_h > 0 { min_h as i64 * PX + extra } else { 0 };
    let hi_w: Option<i64> = if max_w > 0 { Some(max(max_w as i64 * PX, lo_w)) } else { None };
    let hi_h: Option<i64> = if max_h > 0 {
        Some(max(max_h as i64 * PX + extra, lo_h))
    } else {
        None
    };
    WinGeom {
        x: geom.x,
        y: geom.y,
        w: cap(max(geom.w, lo_w), hi_w),
        h: cap(max(geom.h, lo_h), hi_h),
    }
}

// ---------------------------------------------------------------------------
// Frames
// ---------------------------------------------------------------------------

impl WinGeom {
    /// The client surface size below the title bar: the content the Wayland
    /// client should render into, in whole logical px.
    pub fn content_size(&self, decorated: bool) -> (r: (i32, i32))
        requires
            geom_ok(*self),
        ensures
            r.0 == fit32(whole(self.w as int)),
            r.1 == fit32(whole(self.h - bar(decorated))),
    {
        let extra: i64 = bar_height(decorated);
        (whole_px(self.w), whole_px(self.h - extra))
    }

    /// The frame with its top-left clamped so that the title bar stays
    /// grab-able within a `cw`x`ch` content area: its top is never above the area,
    /// and at least [`KEEP`] of it lies inside on each axis, as far as the area is
    /// that large.
    pub open spec fn kept(self, cw: int, ch: int) -> WinGeom {
        let lo = KEEP - self.w;
        let hi = larger(cw - KEEP, 0);
        let low = larger(ch - KEEP, 0);
        WinGeom {
            x: smaller(larger(self.x as int, lo), hi) as i64,
            y: smaller(larger(self.y as int, 0), low) as i64,
            ..self
        }
    }

    /// Clamp the top-left so the title bar stays grab-able within a `cw`x`ch`
    /// content area (keep at least [`KEEP`] of the frame on each axis
    /// on-screen). The area is wide enough to hold that much of the frame.
    pub fn clamp_pos(&mut self, cw: i64, ch: i64)
        requires
            geom_ok(*old(self)),
            -LIMIT <= cw <= LIMIT,
            -LIMIT <= ch <= LIMIT,
            KEEP - old(self).w <= larger(cw - KEEP, 0),
        ensures
            *final(self) == old(self).kept(cw as int, ch as int),
            geom_ok(*final(self)),
    {
        let lo: i64 = KEEP - self.w;
        let hi: i64 = max(cw - KEEP, 0);
        let low: i64 = max(ch - KEEP, 0);
        self.x = min(max(self.x, lo), hi);
        self.y = min(max(self.y, 0), low);
    }

    /// The frame after dragging `edges` (1=left 2=right 4=top 8=bottom) by
    /// `(dx, dy)`, within the bounds. The edge opposite to a dragged left or top
    /// edge stays where it is.
    pub open spec fn resized(self, edges: Edges, dx: int, dy: int, b: Bounds) -> WinGeom {
        let w1 = if edges.right {
            bounded(self.w + dx, b.min_w as int, b.max_w)
        } else {
            self.w as int
        };
        let w2 = if edges.left {
            bounded(w1 - dx, b.min_w as int, b.max_w)
        } else {
            w1
        };
        let h1 = if edges.bottom {
            bounded(self.h + dy, b.min_h as int, b.max_h)
        } else {
            self.h as int
        };
        let h2 = if edges.top {
            bounded(h1 - dy, b.min_h as int, b.max_h)
        } else {
            h1
        };
        WinGeom {
            x: (self.x + (w1 - w2)) as i64,
            y: (self.y + (h1 - h2)) as i64,
            w: w2 as i64,
            h: h2 as i64,
        }
    }

    /// Resize the frame by dragging `edges` by `(dx, dy)`, clamped to the
    /// bounds. Dragging the left/top edge keeps the opposite edge anchored by
    /// moving the origin to match the clamped size.
    pub fn resize_by(&mut self, edges: Edges, dx: i64, dy: i64, bounds: Bounds)
        requires
            geom_ok(*old(self)),
            -LIMIT <= dx <= LIMIT,
            -LIMIT <= dy <= LIMIT,
            bounds_ok(bounds),
        ensures
            *final(self) == old(self).resized(edges, dx as int, dy as int, bounds),
    {
        if edges.right {
            self.w = cap(max(self.w + dx, bounds.min_w), bounds.max_w);
        }
        if edges.left {
            let new_w: i64 = cap(max(self.w - dx, bounds.min_w), bounds.max_w);
            self.x = self.x + (self.w - new_w);
            self.w = new_w;
        }
        if edges.bottom {
            self.h = cap(max(self.h + dy, bounds.min_h), bounds.max_h);
        }
        if edges.top {
            let new_h: i64 = cap(max(self.h - dy, bounds.min_h), bounds.max_h);
            self.y = self.y + (self.h - new_h);
            self.h = new_h;
        }
    }
}

/// Whether bounds are usable: not negative, within the limits, and no maximum
/// below its minimum.
pub open spec fn bounds_ok(b: Bounds) -> bool {
    &&& 0 <= b.min_w <= LIMIT
    &&& 0 <= b.min_h <= LIMIT
    &&& match b.max_w {
        Some(m) => b.min_w <= m <= LIMIT,
        None => true,
    }
    &&& match b.max_h {
        Some(m) => b.min_h <= m <= LIMIT,
        None => true,
    }
}

/// The edges that a resize drags.
#[derive(Debug, Clone, Copy, PartialEq, Eq, Structural)]
pub struct Edges {
    pub left: bool,
    pub right: bool,
    pub top: bool,
    pub bottom: bool,
}

impl Edges {
    /// The edges of a bitmask (1=left 2=right 4=top 8=bottom).
    pub fn from_mask(mask: u32) -> (r: Edges)
        ensures
            r.left == ((mask as int) % 2 == 1),
            r.right == ((mask as int / 2) % 2 == 1),
            r.top == ((mask as int / 4) % 2 == 1),
            r.bottom == ((mask as int / 8) % 2 == 1),
    {
        Edges {
            left: mask % 2 == 1,
            right: (mask / 2) % 2 == 1,
            top: (mask / 4) % 2 == 1,
            bottom: (mask / 8) % 2 == 1,
        }
    }
}

/// The frame of a snap zone.
pub open spec fn snapped(zone: i32, cw: int, ch: int) -> WinGeom {
    let hw = (cw / 2) as i64;
    let hh = (ch / 2) as i64;
    let w = cw as i64;
    let h = ch as i64;
    if zone == 1 {
        WinGeom { x: 0, y: 0, w: hw, h }
    } else if zone == 2 {
        WinGeom { x: hw, y: 0, w: hw, h }
    } else if zone == 4 {
        WinGeom { x: 0, y: 0, w: hw, h: hh }
    } else if zone == 5 {
        WinGeom { x: hw, y: 0, w: hw, h: hh }
    } else if zone == 6 {
        WinGeom { x: 0, y: hh, w: hw, h: hh }
    } else if zone == 7 {
        WinGeom { x: hw, y: hh, w: hw, h: hh }
    } else {
        WinGeom { x: 0, y: 0, w, h }
    }
}

/// The frame for snapping a window into `zone` of a `cw`x`ch` content area:
/// 1=left half, 2=right half, 4..7=corner quarters, anything else=maximize (the
/// whole area). The result is not yet clamped to the client's size hints.
pub fn snap_geom(zone: i32, cw: i64, ch: i64) -> (r: WinGeom)
    requires
        0 <= cw,
        0 <= ch,
    ensures
        r == snapped(zone, cw as int, ch as int),
{
    let hw: i64 = cw / 2;
    let hh: i64 = ch / 2;
    match zone {
        1 => WinGeom { x: 0, y: 0, w: hw, h: ch },
        2 => WinGeom { x: hw, y: 0, w: hw, h: ch },
        4 => WinGeom { x: 0, y: 0, w: hw, h: hh },
        5 => WinGeom { x: hw, y: 0, w: hw, h: hh },
        6 => WinGeom { x: 0, y: hh, w: hw, h: hh },
        7 => WinGeom { x: hw, y: hh, w: hw, h: hh },
        _ => WinGeom { x: 0, y: 0, w: cw, h: ch },
    }
}

/// Where a point falls within a window's content, if it does.
pub open spec fn hit(g: WinGeom, decorated: bool, gx: int, gy: int) -> Option<(int, int)> {
    let cx = g.x as int;
    let cy = g.y + bar(decorated);
    if cx <= gx < cx + g.w && cy <= gy < cy + (g.h - bar(decorated)) {
        Some((gx - cx, gy - cy))
    } else {
        None
    }
}

/// If `(gx, gy)` (content-area coords) falls within a window's *content* region
/// (the frame minus the title bar when decorated), the surface-local coordinates
/// within it, else `None`. Used to hit-test drag-and-drop targets.
pub fn content_hit(geom: WinGeom, decorated: bool, gx: i64, gy: i64) -> (r: Option<(i64, i64)>)
    requires
        geom_ok(geom),
        -LIMIT <= gx <= LIMIT,
        -LIMIT <= gy <= LIMIT,
    ensures
        match r {
            Some((lx, ly)) => hit(geom, decorated, gx as int, gy as int) == Some(
                (lx as int, ly as int),
            ),
            None => hit(geom, decorated, gx as int, gy as int) is None,
        },
{
    let extra: i64 = bar_height(decorated);
    let cx: i64 = geom.x;
    let cy: i64 = geom.y + extra;
    if gx >= cx && gx < cx + geom.w && gy >= cy && gy < cy + (geom.h - extra) {
        Some((gx - cx, gy - cy))
    } else {
        None
    }
}

/// The frame of a maximized window.
pub open spec fn maximized(cw: int, ch: int, max_w: Option<i64>, max_h: Option<i64>) -> WinGeom {
    let w = capped(cw, max_w);
    let h = capped(ch, max_h);
    WinGeom { x: ((cw - w) / 2) as i64, y: ((ch - h) / 2) as i64, w: w as i64, h: h as i64 }
}

/// The frame for a maximized window in a `cw`x`ch` content area, capped at the
/// client's `max_w`/`max_h` (so a non-resizable client doesn't get a frame
/// bigger than it renders into) and centred within the area.
pub fn maximized_geom(cw: i64, ch: i64, max_w: Option<i64>, max_h: Option<i64>) -> (r: WinGeom)
    requires
        0 <= cw <= LIMIT,
        0 <= ch <= LIMIT,
        max_w is Some ==> max_w->0 >= 0,
        max_h is Some ==> max_h->0 >= 0,
    ensures
        r == maximized(cw as int, ch as int, max_w, max_h),
{
    let w: i64 = cap(cw, max_w);
    let h: i64 = cap(ch, max_h);
    WinGeom { x: (cw - w) / 2, y: (ch - h) / 2, w, h }
}

/// The size of a fresh window on one axis: 72% of the area, but at least the
/// minimum and, where the area allows, 20 px less than the area.
pub open spec fn fresh_extent(area: int, minimum: int) -> int {
    smaller(larger(area * 72 / 100, minimum), larger(area - 20 * PX, minimum))
}

/// The frame of a fresh window, before it is kept on screen.
pub open spec fn fresh_frame(id: u64, cw: int, ch: int) -> WinGeom {
    let off = (id % 6) * 28 * PX;
    WinGeom {
        x: (20 * PX + off) as i64,
        y: (16 * PX + off) as i64,
        w: fresh_extent(cw, MIN_WIN_W as int) as i64,
        h: fresh_extent(ch, MIN_WIN_H as int) as i64,
    }
}

/// A default frame for a freshly mapped window: ~72% of the content area, nudged
/// by a small per-window cascade so successive windows don't perfectly overlap.
pub fn default_geom(id: u64, cw: i64, ch: i64) -> (r: WinGeom)
    requires
        0 <= cw <= LIMIT,
        0 <= ch <= LIMIT,
    ensures
        r == fresh_frame(id, cw as int, ch as int).kept(cw as int, ch as int),
        geom_ok(r),
{
    let w: i64 = min(max(cw * 72 / 100, MIN_WIN_W), max(cw - 20 * PX, MIN_WIN_W));
    let h: i64 = min(max(ch * 72 / 100, MIN_WIN_H), max(ch - 20 * PX, MIN_WIN_H));
    let off: i64 = (id % 6) as i64 * 28 * PX;
    let mut geom = WinGeom { x: 20 * PX + off, y: 16 * PX + off, w, h };
    geom.clamp_pos(cw, ch);
    geom
}

/// Number of slots for a drag distance: the nearest one, halves away from zero.
pub open spec fn slots(dy: int) -> int {
    if dy >= 0 {
        (dy + ROW_PITCH / 2) / (ROW_PITCH as int)
    } else {
        -((-dy + ROW_PITCH / 2) / (ROW_PITCH as int))
    }
}

/// Number of slots to move a dragged sidebar task, from its vertical drag
/// distance.
pub fn reorder_delta(dy: i64) -> (r: i64)
    requires
        -LIMIT <= dy <= LIMIT,
    ensures
        r == slots(dy as int),
{
    if dy >= 0 {
        (dy + ROW_PITCH / 2) / ROW_PITCH
    } else {
        -((-dy + ROW_PITCH / 2) / ROW_PITCH)
    }
}

/// Where a popup's top-left goes on one axis.
pub open spec fn slid(at: int, len: int, area: int) -> int {
    larger(smaller(at, area - len), 0)
}

/// Slide a popup's top-left so a `w`x`h` popup stays inside the content area.
/// Oversized popups pin to the top/left edge.
pub fn clamp_popup(x: i64, y: i64, w: i64, h: i64, area: (i64, i64)) -> (r: (i64, i64))
    requires
        0 <= w <= LIMIT,
        0 <= h <= LIMIT,
        -LIMIT <= area.0 <= LIMIT,
        -LIMIT <= area.1 <= LIMIT,
    ensures
        r.0 == slid(x as int, w as int, area.0 as int),
        r.1 == slid(y as int, h as int, area.1 as int),
{
    (max(min(x, area.0 - w), 0), max(min(y, area.1 - h), 0))
}

/// Where a popup's parent stands: a window at its frame's top-left, dropped
/// below the title bar when decorated; a popup at its own position; anything
/// else at the content origin.
pub fn popup_origin(window: Option<(WinGeom, bool)>, popup: Option<(i64, i64)>) -> (r: (i64, i64))
    requires
        match window {
            Some((g, _)) => geom_ok(g),
            None => true,
        },
    ensures
        match (window, popup) {
            (Some((g, decorated)), _) => r.0 == g.x && r.1 == g.y + bar(decorated) && (decorated
                ==> r.1 == g.y + 30 * 256) && (!decorated ==> r.1 == g.y),
            (None, Some(at)) => r == at,
            (None, None) => r.0 == 0 && r.1 == 0,
        },
{
    match window {
        Some((g, decorated)) => (g.x, g.y + bar_height(decorated)),
        None => match popup {
            Some(at) => at,
            None => (0, 0),
        },
    }
}

/// The content area of a host window, in whole logical px: everything right of
/// the sidebar, at least one pixel each way.
pub fn content_area(logical_w: i32, logical_h: i32) -> (r: (i32, i32))
    requires
        logical_w >= i32::MIN + SIDEBAR_W,
    ensures
        r.0 == larger(logical_w - SIDEBAR_W, 1),
        r.1 == larger(logical_h as int, 1),
        logical_w > 252 ==> r.0 + 252 == logical_w,
        logical_w <= 252 ==> r.0 == 1,
        logical_h > 0 ==> r.1 == logical_h,
        logical_h <= 0 ==> r.1 == 1,
{
    let w: i32 = logical_w - SIDEBAR_W;
    (if w > 1 { w } else { 1 }, if logical_h > 1 { logical_h } else { 1 })
}

// ---------------------------------------------------------------------------
// Laws
// ---------------------------------------------------------------------------

/// The bounds made from size hints can always be used to clamp.
pub proof fn law_frame_bounds_are_usable(
    decorated: bool,
    min_w: i32,
    min_h: i32,
    max_w: i32,
    max_h: i32,
)
    ensures
        bounds_ok(frame_limits(decorated, min_w, min_h, max_w, max_h)),
        frame_limits(decorated, min_w, min_h, max_w, max_h).min_w >= MIN_WIN_W,
        frame_limits(decorated, min_w, min_h, max_w, max_h).min_h >= MIN_WIN_H,
{
}

/// Resizing stays within the bounds, and the edge opposite to a dragged edge
/// does not move.
pub proof fn law_resize_anchors_the_opposite_edge(
    g: WinGeom,
    edges: Edges,
    dx: int,
    dy: int,
    b: Bounds,
)
    requires
        geom_ok(g),
        bounds_ok(b),
        -LIMIT <= dx <= LIMIT,
        -LIMIT <= dy <= LIMIT,
    ensures
        ({
            let r = g.resized(edges, dx, dy, b);
            &&& edges.left && !edges.right ==> r.x + r.w == g.x + g.w
            &&& edges.right && !edges.left ==> r.x == g.x
            &&& edges.top && !edges.bottom ==> r.y + r.h == g.y + g.h
            &&& edges.bottom && !edges.top ==> r.y == g.y
            &&& edges.left || edges.right ==> b.min_w <= r.w && (b.max_w is Some ==> r.w
                <= b.max_w->0)
            &&& edges.top || edges.bottom ==> b.min_h <= r.h && (b.max_h is Some ==> r.h
                <= b.max_h->0)
        }),
{
}

/// A frame that was kept on screen stays where it is when kept again, its title
/// bar is inside the area, and enough of it can be grabbed.
pub proof fn law_kept_frame_is_reachable(g: WinGeom, cw: int, ch: int)
    requires
        geom_ok(g),
        0 <= cw <= LIMIT,
        0 <= ch <= LIMIT,
        KEEP - g.w <= larger(cw - KEEP, 0),
    ensures
        g.kept(cw, ch).kept(cw, ch) == g.kept(cw, ch),
        g.kept(cw, ch).x + g.w >= KEEP,
        g.kept(cw, ch).x <= larger(cw - KEEP, 0),
        0 <= g.kept(cw, ch).y <= larger(ch - KEEP, 0),
{
}

/// A point in a window's content maps back to where it came from.
pub proof fn law_hit_maps_back(g: WinGeom, decorated: bool, gx: int, gy: int)
    requires
        geom_ok(g),
    ensures
        match hit(g, decorated, gx, gy) {
            Some((lx, ly)) => {
                &&& gx == g.x + lx
                &&& gy == g.y + bar(decorated) + ly
                &&& 0 <= lx < g.w
                &&& 0 <= ly < g.h - bar(decorated)
            },
            None => true,
        },
{
}

/// A popup that fits is inside the content area, and one that was inside
/// already does not move.
pub proof fn law_popup_is_inside(at: int, len: int, area: int)
    requires
        0 <= len <= area,
    ensures
        0 <= slid(at, len, area) <= area - len,
        0 <= at <= area - len ==> slid(at, len, area) == at,
{
}

/// A fresh window lies inside the content area, wherever the cascade puts it, in
/// an area of 572 px or more each way.
pub proof fn law_default_frame_fits(id: u64, cw: int, ch: int)
    requires
        572 * PX <= cw <= LIMIT,
        572 * PX <= ch <= LIMIT,
    ensures
        ({
            let g = fresh_frame(id, cw, ch).kept(cw, ch);
            &&& 0 <= g.x && g.x + g.w <= cw
            &&& 0 <= g.y && g.y + g.h <= ch
            &&& g.w >= MIN_WIN_W && g.h >= MIN_WIN_H
        }),
{
}

/// The two halves of a snapped area cover it side by side, and four quarters do
/// so too, when its size is even.
pub proof fn law_snap_zones_tile(cw: int, ch: int)
    requires
        0 <= cw <= LIMIT,
        0 <= ch <= LIMIT,
        cw % 2 == 0,
        ch % 2 == 0,
    ensures
        snapped(1, cw, ch).w + snapped(2, cw, ch).w == cw,
        snapped(2, cw, ch).x == snapped(1, cw, ch).x + snapped(1, cw, ch).w,
        snapped(4, cw, ch).h + snapped(6, cw, ch).h == ch,
        snapped(7, cw, ch).x == snapped(6, cw, ch).x + snapped(6, cw, ch).w,
        snapped(7, cw, ch).y == snapped(5, cw, ch).y + snapped(5, cw, ch).h,
{
}

/// A dragged edge follows the pointer both ways: where the bounds allow it, it
/// moves by exactly the dragged distance and the opposite edge stays; otherwise
/// the extent is the bound that was passed. Movement along the other axis has no
/// effect.
pub proof fn law_dragged_edge_follows_the_pointer(g: WinGeom, b: Bounds, d: int, other: int)
    requires
        geom_ok(g),
        bounds_ok(b),
        -LIMIT <= d <= LIMIT,
    ensures
        ({
            let none = Edges { left: false, right: false, top: false, bottom: false };
            let l = g.resized(Edges { left: true, ..none }, d, other, b);
            let r = g.resized(Edges { right: true, ..none }, d, other, b);
            let t = g.resized(Edges { top: true, ..none }, other, d, b);
            let m = g.resized(Edges { bottom: true, ..none }, other, d, b);
            &&& l.y == g.y && l.h == g.h && r.y == g.y && r.h == g.h
            &&& t.x == g.x && t.w == g.w && m.x == g.x && m.w == g.w
            &&& b.min_w <= g.w - d && (b.max_w matches Some(hi) ==> g.w - d <= hi) ==> l.x == g.x
                + d && l.w == g.w - d
            &&& b.min_w <= g.w + d && (b.max_w matches Some(hi) ==> g.w + d <= hi) ==> r.x == g.x
                && r.w == g.w + d
            &&& b.min_h <= g.h - d && (b.max_h matches Some(hi) ==> g.h - d <= hi) ==> t.y == g.y
                + d && t.h == g.h - d
            &&& b.min_h <= g.h + d && (b.max_h matches Some(hi) ==> g.h + d <= hi) ==> m.y == g.y
                && m.h == g.h + d
            &&& g.w - d < b.min_w ==> l.w == b.min_w && l.x + l.w == g.x + g.w
            &&& g.w + d < b.min_w ==> r.w == b.min_w && r.x == g.x
            &&& g.h - d < b.min_h ==> t.h == b.min_h && t.y + t.h == g.y + g.h
            &&& g.h + d < b.min_h ==> m.h == b.min_h && m.y == g.y
            &&& (b.max_w matches Some(hi) && g.w - d > hi) ==> Some(l.w) == b.max_w && l.x + l.w
                == g.x + g.w
            &&& (b.max_w matches Some(hi) && g.w + d > hi) ==> Some(r.w) == b.max_w && r.x == g.x
            &&& (b.max_h matches Some(hi) && g.h - d > hi) ==> Some(t.h) == b.max_h && t.y + t.h
                == g.y + g.h
            &&& (b.max_h matches Some(hi) && g.h + d > hi) ==> Some(m.h) == b.max_h && m.y == g.y
        }),
{
}

/// A corner is both of its edges: what happens along one axis depends on the
/// edges and the distance of that axis alone. Without an edge nothing moves.
pub proof fn law_corner_moves_both_edges(g: WinGeom, e: Edges, dx: int, dy: int, b: Bounds)
    requires
        geom_ok(g),
        bounds_ok(b),
        -LIMIT <= dx <= LIMIT,
        -LIMIT <= dy <= LIMIT,
    ensures
        ({
            let r = g.resized(e, dx, dy, b);
            let across = g.resized(Edges { top: false, bottom: false, ..e }, dx, 0, b);
            let down = g.resized(Edges { left: false, right: false, ..e }, 0, dy, b);
            &&& r.x == across.x && r.w == across.w
            &&& r.y == down.y && r.h == down.h
            &&& !e.left && !e.right ==> r.x == g.x && r.w == g.w
            &&& !e.top && !e.bottom ==> r.y == g.y && r.h == g.h
        }),
{
}

/// The content is the frame less its title bar of 30 px, to the nearest pixel;
/// halves are rounded away from zero.
pub proof fn law_content_is_the_frame_less_the_bar(g: WinGeom, decorated: bool)
    requires
        geom_ok(g),
        g.w < 256 * i32::MAX,
        g.h < 256 * i32::MAX,
    ensures
        ({
            let w = fit32(whole(g.w as int));
            let h = fit32(whole(g.h - bar(decorated)));
            let rest = if decorated {
                g.h - 30 * 256
            } else {
                g.h as int
            };
            &&& g.w - 128 < 256 * w <= g.w + 128
            &&& rest >= 0 ==> rest - 128 < 256 * h <= rest + 128
            &&& rest < 0 ==> rest - 128 <= 256 * h < rest + 128
        }),
{
}

/// A frame that is still reachable stays where it is; another one moves just as
/// far as needed. Its size never changes.
pub proof fn law_kept_moves_no_further_than_needed(g: WinGeom, cw: int, ch: int)
    requires
        geom_ok(g),
        0 <= cw <= LIMIT,
        0 <= ch <= LIMIT,
        80 * 256 - g.w <= 0 || 160 * 256 - g.w <= cw,
    ensures
        ({
            let r = g.kept(cw, ch);
            &&& r.w == g.w && r.h == g.h
            &&& g.x + g.w < 80 * 256 ==> r.x + r.w == 80 * 256
            &&& g.x + g.w >= 80 * 256 && (g.x + 80 * 256 <= cw || g.x <= 0) ==> r.x == g.x
            &&& g.x > 0 && g.x + 80 * 256 > cw && cw >= 80 * 256 ==> r.x + 80 * 256 == cw
            &&& g.x > 0 && cw < 80 * 256 ==> r.x == 0
            &&& g.y < 0 ==> r.y == 0
            &&& g.y >= 0 && (g.y + 80 * 256 <= ch || g.y == 0) ==> r.y == g.y
            &&& g.y > 0 && g.y + 80 * 256 > ch && ch >= 80 * 256 ==> r.y + 80 * 256 == ch
            &&& g.y > 0 && ch < 80 * 256 ==> r.y == 0
        }),
{
}

/// A frame is at least 200 by 120 px and at least as large as the client asks,
/// with room for the title bar; it is limited where the client says so, and a
/// limit never falls below the least size.
pub proof fn law_frame_bounds_meet_the_hints(
    decorated: bool,
    min_w: i32,
    min_h: i32,
    max_w: i32,
    max_h: i32,
)
    ensures
        ({
            let b = frame_limits(decorated, min_w, min_h, max_w, max_h);
            let extra: int = if decorated {
                30
            } else {
                0
            };
            &&& min_w <= 200 ==> b.min_w == 200 * 256
            &&& min_w >= 200 ==> b.min_w == 256 * min_w
            &&& min_h > 0 && min_h + extra >= 120 ==> b.min_h == 256 * (min_h + extra)
            &&& min_h <= 0 || min_h + extra <= 120 ==> b.min_h == 120 * 256
            &&& b.max_w is None <==> max_w <= 0
            &&& b.max_h is None <==> max_h <= 0
            &&& b.max_w matches Some(m) ==> m >= b.min_w && (256 * max_w >= b.min_w ==> m == 256
                * max_w) && (256 * max_w < b.min_w ==> m == b.min_w)
            &&& b.max_h matches Some(m) ==> m >= b.min_h && (256 * (max_h + extra) >= b.min_h ==> m
                == 256 * (max_h + extra)) && (256 * (max_h + extra) < b.min_h ==> m == b.min_h)
        }),
{
}

/// A frame within the client's hints stays as it is; one that is too small or too
/// large takes the hinted size, the title bar on top. The position stays.
pub proof fn law_hints_limit_the_size(
    g: WinGeom,
    decorated: bool,
    min_w: i32,
    min_h: i32,
    max_w: i32,
    max_h: i32,
)
    requires
        geom_ok(g),
    ensures
        ({
            let r = hinted(g, decorated, min_w, min_h, max_w, max_h);
            let extra: int = if decorated {
                30
            } else {
                0
            };
            &&& r.x == g.x && r.y == g.y
            &&& min_w > 0 && g.w < 256 * min_w ==> r.w == 256 * min_w
            &&& min_h > 0 && g.h < 256 * (min_h + extra) ==> r.h == 256 * (min_h + extra)
            &&& max_w > 0 && g.w > 256 * max_w && min_w <= max_w ==> r.w == 256 * max_w
            &&& max_h > 0 && g.h > 256 * (max_h + extra) && min_h <= max_h ==> r.h == 256 * (max_h
                + extra)
            &&& (min_w <= 0 || g.w >= 256 * min_w) && (max_w <= 0 || g.w <= 256 * max_w) ==> r.w
                == g.w
            &&& (min_h <= 0 || g.h >= 256 * (min_h + extra)) && (max_h <= 0 || g.h <= 256 * (max_h
                + extra)) ==> r.h == g.h
        }),
{
}

/// Each snap zone fills its part of the content area: 1, 4 and 6 the left half,
/// 2, 5 and 7 the right one; 4 and 5 the upper, 6 and 7 the lower; every other
/// zone the whole.
pub proof fn law_snap_zone_fills_its_part(zone: i32, cw: int, ch: int)
    requires
        0 <= cw <= LIMIT,
        0 <= ch <= LIMIT,
    ensures
        ({
            let g = snapped(zone, cw, ch);
            let left = zone == 1 || zone == 4 || zone == 6;
            let right = zone == 2 || zone == 5 || zone == 7;
            let upper = zone == 4 || zone == 5;
            let lower = zone == 6 || zone == 7;
            &&& left || right ==> cw - 1 <= 2 * g.w <= cw
            &&& upper || lower ==> ch - 1 <= 2 * g.h <= ch
            &&& right ==> g.x == g.w
            &&& !right ==> g.x == 0
            &&& lower ==> g.y == g.h
            &&& !lower ==> g.y == 0
            &&& !left && !right ==> g.w == cw
            &&& !upper && !lower ==> g.h == ch
        }),
{
}

/// The pointer is on a window's content exactly when it is inside the frame and
/// below the title bar; the position in the content counts from there.
pub proof fn law_hit_is_inside_the_content(g: WinGeom, decorated: bool, gx: int, gy: int)
    ensures
        ({
            let top = if decorated {
                g.y + 30 * 256
            } else {
                g.y as int
            };
            &&& hit(g, decorated, gx, gy) is Some <==> g.x <= gx < g.x + g.w && top <= gy < g.y
                + g.h
            &&& hit(g, decorated, gx, gy) matches Some((lx, ly)) ==> lx == gx - g.x && ly == gy
                - top
        }),
{
}

/// A maximized window fills the content area as far as its limits allow, and is
/// centred in what is left.
pub proof fn law_maximized_is_centred(cw: int, ch: int, max_w: Option<i64>, max_h: Option<i64>)
    requires
        0 <= cw <= LIMIT,
        0 <= ch <= LIMIT,
        max_w matches Some(m) ==> m >= 0,
        max_h matches Some(m) ==> m >= 0,
    ensures
        ({
            let g = maximized(cw, ch, max_w, max_h);
            &&& max_w is None || max_w->0 >= cw ==> g.x == 0 && g.w == cw
            &&& max_h is None || max_h->0 >= ch ==> g.y == 0 && g.h == ch
            &&& max_w matches Some(m) ==> m <= cw ==> g.w == m
            &&& max_h matches Some(m) ==> m <= ch ==> g.h == m
            &&& 0 <= cw - g.w - 2 * g.x <= 1
            &&& 0 <= ch - g.h - 2 * g.y <= 1
        }),
{
}

/// A new window takes 72 % of the content area and stands 28 px further right and
/// down than the window before it, starting over after six. This holds from
/// 572 px each way.
pub proof fn law_default_frames_cascade(id: u64, cw: int, ch: int)
    requires
        572 * 256 <= cw <= LIMIT,
        572 * 256 <= ch <= LIMIT,
    ensures
        ({
            let g = fresh_frame(id, cw, ch).kept(cw, ch);
            &&& g.x == 256 * (20 + 28 * (id as int % 6))
            &&& g.y == 256 * (16 + 28 * (id as int % 6))
            &&& 0 <= 72 * cw - 100 * g.w < 100
            &&& 0 <= 72 * ch - 100 * g.h < 100
        }),
{
}

/// In a small content area a new window has at least its least size of 200 by
/// 120 px, and otherwise leaves 20 px free.
pub proof fn law_default_frame_in_a_small_area(id: u64, cw: int, ch: int)
    requires
        0 <= cw <= LIMIT,
        0 <= ch <= LIMIT,
    ensures
        ({
            let g = fresh_frame(id, cw, ch).kept(cw, ch);
            &&& g.w >= 200 * 256 && g.h >= 120 * 256
            &&& cw <= 220 * 256 ==> g.w == 200 * 256
            &&& ch <= 140 * 256 ==> g.h == 120 * 256
            &&& g.w > 200 * 256 ==> 100 * g.w <= 72 * cw && g.w + 20 * 256 <= cw
            &&& g.h > 120 * 256 ==> 100 * g.h <= 72 * ch && g.h + 20 * 256 <= ch
        }),
{
}

/// A drag in the sidebar moves a task by the nearest number of rows of 64 px,
/// alike in both directions.
pub proof fn law_drag_moves_by_the_nearest_rows(dy: int)
    ensures
        dy >= 0 ==> dy - 32 * 256 < 64 * 256 * slots(dy) <= dy + 32 * 256,
        slots(-dy) == -slots(dy),
{
    if dy >= 0 {
        let n = slots(dy);
        assert(n == (dy + 8192) / 16384);
        assert(dy - 8192 < 16384 * n <= dy + 8192);
        assert(64 * 256 * n == 16384 * n);
    }
}

/// A popup moves only where it would stick out: back to the far edge, but never
/// over the near one.
pub proof fn law_popup_slides_into_the_area(at: int, len: int, area: int)
    requires
        0 <= len,
    ensures
        at < 0 ==> slid(at, len, area) == 0,
        at >= 0 && at + len <= area ==> slid(at, len, area) == at,
        at >= 0 && at + len > area && len <= area ==> slid(at, len, area) + len == area,
        len > area ==> slid(at, len, area) == 0,
{
}

} // verus!
