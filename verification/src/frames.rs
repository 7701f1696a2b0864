//! What the shell keeps per window: its frame, where to restore it to, and the
//! client's size hints.

use vstd::prelude::*;

use crate::engine::SizeHints;
use crate::geom;
use crate::geom::{Bounds, Edges, WinGeom};

verus! {

/// A window's frame with what shapes it.
#[derive(Debug, Clone, Copy, PartialEq, Eq)]
pub struct WinMeta {
    /// Whether the compositor should draw a server-side decoration title bar.
    pub decorated: bool,
    /// Floating frame geometry: the title bar is the top of it.
    pub geom: WinGeom,
    /// Geometry to restore to when unmaximizing/unsnapping (the frame from just
    /// before the last maximize/snap), if any.
    pub restore: Option<WinGeom>,
    /// Client size hints for the content surface (0 = unset). Resizing clamps
    /// the frame so the content stays within these.
    pub hints: SizeHints,
}

impl Default for WinMeta {
    fn default() -> (r: Self)
        ensures
            r == blank_meta(),
    {
        WinMeta {
            decorated: false,
            geom: WinGeom { x: 0, y: 0, w: 0, h: 0 },
            restore: None,
            hints: SizeHints { min_w: 0, min_h: 0, max_w: 0, max_h: 0 },
        }
    }
}

/// What is known of a window before it is mapped.
pub open spec fn blank_meta() -> WinMeta {
    WinMeta {
        decorated: false,
        geom: WinGeom { x: 0, y: 0, w: 0, h: 0 },
        restore: None,
        hints: SizeHints { min_w: 0, min_h: 0, max_w: 0, max_h: 0 },
    }
}

/// The size of a window's content in whole logical px.
pub open spec fn content_of(g: WinGeom, decorated: bool) -> (int, int) {
    (
        geom::fit32(geom::whole(g.w as int)),
        geom::fit32(geom::whole(g.h - geom::bar(decorated))),
    )
}

/// Whether the content area can hold the grab-able part of a frame this wide.
pub open spec fn area_holds(w: int, cw: int) -> bool {
    geom::KEEP - w <= geom::larger(cw - geom::KEEP, 0)
}

/// Whether a content area is one that frames can be placed in.
pub open spec fn area_ok(cw: int, ch: int) -> bool {
    0 <= cw <= geom::LIMIT && 0 <= ch <= geom::LIMIT
}

/// The distance between two lengths.
pub open spec fn apart(a: int, b: int) -> int {
    if a >= b {
        a - b
    } else {
        b - a
    }
}

impl WinMeta {
    /// The frame bounds from the size hints and the title bar.
    pub open spec fn limits(self) -> Bounds {
        geom::frame_limits(
            self.decorated,
            self.hints.min_w,
            self.hints.min_h,
            self.hints.max_w,
            self.hints.max_h,
        )
    }

    /// Frame-size bounds from the client's content hints plus the title bar.
    /// Never below the global minimum, and the maximum is kept at or above the
    /// minimum.
    pub fn frame_bounds(&self) -> (r: Bounds)
        ensures
            r == self.limits(),
            geom::bounds_ok(r),
    {
        proof {
            geom::law_frame_bounds_are_usable(
                self.decorated,
                self.hints.min_w,
                self.hints.min_h,
                self.hints.max_w,
                self.hints.max_h,
            );
        }
        geom::frame_bounds(
            self.decorated,
            self.hints.min_w,
            self.hints.min_h,
            self.hints.max_w,
            self.hints.max_h,
        )
    }

    /// A window was mapped: give it a floating frame. Returns the size of its
    /// content.
    pub fn place(&mut self, id: u64, cw: i64, ch: i64) -> (r: (i32, i32))
        requires
            area_ok(cw as int, ch as int),
        ensures
            *final(self) == (WinMeta {
                geom: geom::fresh_frame(id, cw as int, ch as int).kept(cw as int, ch as int),
                ..*old(self)
            }),
            content_of(final(self).geom, final(self).decorated) == (r.0 as int, r.1 as int),
            geom::geom_ok(final(self).geom),
    {
        self.geom = geom::default_geom(id, cw, ch);
        self.geom.content_size(self.decorated)
    }

    /// The user dragged the title bar: add the delta to the frame position, and
    /// keep the title bar reachable.
    pub fn drag(&mut self, dx: i64, dy: i64, cw: i64, ch: i64)
        requires
            geom::geom_ok(old(self).geom),
            -geom::LIMIT <= old(self).geom.x + dx <= geom::LIMIT,
            -geom::LIMIT <= old(self).geom.y + dy <= geom::LIMIT,
            area_ok(cw as int, ch as int),
            area_holds(old(self).geom.w as int, cw as int),
        ensures
            *final(self) == (WinMeta {
                geom: (WinGeom {
                    x: (old(self).geom.x + dx) as i64,
                    y: (old(self).geom.y + dy) as i64,
                    ..old(self).geom
                }).kept(cw as int, ch as int),
                ..*old(self)
            }),
            geom::geom_ok(final(self).geom),
            ({
                let x = old(self).geom.x + dx;
                let y = old(self).geom.y + dy;
                &&& 0 <= x && x + 80 * 256 <= cw && old(self).geom.w >= 80 * 256
                    ==> final(self).geom.x == x
                &&& 0 <= y && y + 80 * 256 <= ch ==> final(self).geom.y == y
                &&& final(self).geom.w == old(self).geom.w
                &&& final(self).geom.h == old(self).geom.h
            }),
    {
        let mut g = self.geom;
        g.x = g.x + dx;
        g.y = g.y + dy;
        g.clamp_pos(cw, ch);
        self.geom = g;
    }

    /// The user dragged a resize grip. The window is no longer maximized or
    /// snapped, so what it would be restored to is forgotten. Returns the size
    /// of its content.
    pub fn resize(&mut self, edges: Edges, dx: i64, dy: i64) -> (r: (i32, i32))
        requires
            geom::geom_ok(old(self).geom),
            -0x4000_0000_0000 <= old(self).geom.x <= 0x4000_0000_0000,
            -0x4000_0000_0000 <= old(self).geom.y <= 0x4000_0000_0000,
            old(self).geom.w <= 0x4000_0000_0000,
            old(self).geom.h <= 0x4000_0000_0000,
            -0x1000_0000_0000 <= dx <= 0x1000_0000_0000,
            -0x1000_0000_0000 <= dy <= 0x1000_0000_0000,
        ensures
            *final(self) == (WinMeta {
                restore: None,
                geom: old(self).geom.resized(edges, dx as int, dy as int, old(self).limits()),
                ..*old(self)
            }),
            content_of(final(self).geom, final(self).decorated) == (r.0 as int, r.1 as int),
            geom::geom_ok(final(self).geom),
    {
        self.restore = None;
        let bounds = self.frame_bounds();
        let mut g = self.geom;
        g.resize_by(edges, dx, dy, bounds);
        self.geom = g;
        g.content_size(self.decorated)
    }

    /// The window filling a content area, as far as its maximum size lets it.
    pub open spec fn maximized_in(self, cw: int, ch: int) -> WinMeta {
        WinMeta {
            restore: Some(self.geom),
            geom: geom::maximized(cw, ch, self.limits().max_w, self.limits().max_h),
            ..self
        }
    }

    /// The window back in the frame it was maximized or snapped from.
    pub open spec fn restored(self) -> WinMeta {
        WinMeta {
            restore: None,
            geom: match self.restore {
                Some(g) => g,
                None => self.geom,
            },
            ..self
        }
    }

    /// The window was maximized (the current frame is kept to restore later) or
    /// restored. A client with a maximum size is sized to it and centred.
    /// Returns the size of its content.
    pub fn set_maximized(&mut self, maximized: bool, cw: i64, ch: i64) -> (r: (i32, i32))
        requires
            geom::geom_ok(old(self).geom),
            old(self).restore is Some ==> geom::geom_ok(old(self).restore->0),
            area_ok(cw as int, ch as int),
        ensures
            *final(self) == if maximized {
                old(self).maximized_in(cw as int, ch as int)
            } else {
                old(self).restored()
            },
            content_of(final(self).geom, final(self).decorated) == (r.0 as int, r.1 as int),
            geom::geom_ok(final(self).geom),
    {
        if maximized {
            let bounds = self.frame_bounds();
            self.restore = Some(self.geom);
            self.geom = geom::maximized_geom(cw, ch, bounds.max_w, bounds.max_h);
        } else {
            if let Some(g) = self.restore {
                self.geom = g;
            }
            self.restore = None;
        }
        self.geom.content_size(self.decorated)
    }

    /// The window was snapped into a zone of the content area, no larger than
    /// its maximum size. The frame from before the first snap is kept to restore
    /// later. Returns the size of its content.
    pub fn snap(&mut self, zone: i32, cw: i64, ch: i64) -> (r: (i32, i32))
        requires
            area_ok(cw as int, ch as int),
        ensures
            ({
                let limits = old(self).limits();
                let g = geom::snapped(zone, cw as int, ch as int);
                *final(self) == WinMeta {
                    restore: match old(self).restore {
                        Some(s) => Some(s),
                        None => Some(old(self).geom),
                    },
                    geom: WinGeom {
                        w: geom::capped(g.w as int, limits.max_w) as i64,
                        h: geom::capped(g.h as int, limits.max_h) as i64,
                        ..g
                    },
                    ..*old(self)
                }
            }),
            content_of(final(self).geom, final(self).decorated) == (r.0 as int, r.1 as int),
            geom::geom_ok(final(self).geom),
            old(self).restore is Some ==> final(self).restore == old(self).restore,
            old(self).restore is None ==> final(self).restore == Some(old(self).geom),
            2 * final(self).geom.w <= cw || !(1 <= zone <= 7) || zone == 3,
            old(self).hints.max_w <= 0 && !(1 <= zone <= 7 && zone != 3) ==> final(self).geom.w
                == cw,
    {
        let bounds = self.frame_bounds();
        if self.restore.is_none() {
            self.restore = Some(self.geom);
        }
        let mut g = geom::snap_geom(zone, cw, ch);
        if let Some(m) = bounds.max_w {
            if m < g.w {
                g.w = m;
            }
        }
        if let Some(m) = bounds.max_h {
            if m < g.h {
                g.h = m;
            }
        }
        self.geom = g;
        g.content_size(self.decorated)
    }

    /// The decoration mode was settled. A change alters the height of the
    /// content; its new size is returned then.
    pub fn decorate(&mut self, decorated: bool) -> (r: Option<(i32, i32)>)
        requires
            geom::geom_ok(old(self).geom),
        ensures
            *final(self) == (WinMeta { decorated, ..*old(self) }),
            match r {
                Some((w, h)) => old(self).decorated != decorated && content_of(
                    old(self).geom,
                    decorated,
                ) == (w as int, h as int),
                None => old(self).decorated == decorated,
            },
            final(self).geom == old(self).geom,
            final(self).decorated == decorated,
    {
        if self.decorated == decorated {
            return None;
        }
        self.decorated = decorated;
        Some(self.geom.content_size(decorated))
    }

    /// The frame within the client's hints.
    pub open spec fn within_hints(self, decorated: bool, hints: SizeHints) -> WinGeom {
        geom::hinted(
            self.geom,
            decorated,
            hints.min_w,
            hints.min_h,
            hints.max_w,
            hints.max_h,
        )
    }

    /// Whether the hints change the frame's size by more than half a pixel.
    pub open spec fn outgrown(self, decorated: bool, hints: SizeHints) -> bool {
        let want = self.within_hints(decorated, hints);
        apart(want.w as int, self.geom.w as int) > 128 || apart(
            want.h as int,
            self.geom.h as int,
        ) > 128
    }

    /// The frame as the client's hints want it.
    pub open spec fn settled(self, decorated: bool, hints: SizeHints, cw: int, ch: int) -> WinGeom {
        if self.outgrown(decorated, hints) {
            self.within_hints(decorated, hints).kept(cw, ch)
        } else {
            self.geom
        }
    }

    /// A window committed a frame with its hints and decoration mode. The frame
    /// follows the client's own bounds, so that the window tracks what the
    /// client draws. Returns the size of the content to tell the client, where
    /// the mode or the frame changed.
    pub fn committed(&mut self, decorated: bool, hints: SizeHints, cw: i64, ch: i64) -> (r: Option<
        (i32, i32),
    >)
        requires
            geom::geom_ok(old(self).geom),
            area_ok(cw as int, ch as int),
            old(self).outgrown(decorated, hints) ==> area_holds(
                old(self).within_hints(decorated, hints).w as int,
                cw as int,
            ),
        ensures
            *final(self) == (WinMeta {
                decorated,
                hints,
                geom: old(self).settled(decorated, hints, cw as int, ch as int),
                ..*old(self)
            }),
            geom::geom_ok(final(self).geom),
            r is Some <==> old(self).decorated != decorated || old(self).outgrown(
                decorated,
                hints,
            ),
            match r {
                Some((w, h)) => content_of(final(self).geom, decorated) == (w as int, h as int),
                None => true,
            },
    {
        let g0 = self.geom;
        let changed: bool = self.decorated != decorated;
        self.hints = hints;
        self.decorated = decorated;
        let want = geom::clamp_to_client_hints(
            g0,
            decorated,
            hints.min_w,
            hints.min_h,
            hints.max_w,
            hints.max_h,
        );
        let dw: i64 = if want.w >= g0.w { want.w - g0.w } else { g0.w - want.w };
        let dh: i64 = if want.h >= g0.h { want.h - g0.h } else { g0.h - want.h };
        let moved: bool = dw > 128 || dh > 128;
        if moved {
            let mut g = WinGeom { x: g0.x, y: g0.y, w: want.w, h: want.h };
            g.clamp_pos(cw, ch);
            self.geom = g;
        }
        if changed || moved {
            Some(self.geom.content_size(decorated))
        } else {
            None
        }
    }
}

// ---------------------------------------------------------------------------
// Laws
// ---------------------------------------------------------------------------

/// Maximizing and restoring brings back the frame from before.
pub proof fn law_restore_undoes_maximize(m: WinMeta, cw: int, ch: int)
    ensures
        m.maximized_in(cw, ch).restored() == (WinMeta { restore: None, ..m }),
{
}

/// A maximized frame never exceeds the content area and is centred in it.
pub proof fn law_maximized_frame_is_inside(m: WinMeta, cw: int, ch: int)
    requires
        area_ok(cw, ch),
    ensures
        ({
            let g = m.maximized_in(cw, ch).geom;
            &&& 0 <= g.x && g.x + g.w <= cw
            &&& 0 <= g.y && g.y + g.h <= ch
            &&& 0 <= (cw - g.w) - 2 * g.x <= 1
            &&& 0 <= (ch - g.h) - 2 * g.y <= 1
        }),
{
    geom::law_frame_bounds_are_usable(
        m.decorated,
        m.hints.min_w,
        m.hints.min_h,
        m.hints.max_w,
        m.hints.max_h,
    );
}

/// The content of a frame is what is left below the title bar of 30 px, to the
/// nearest pixel.
pub proof fn law_content_fits_the_frame(g: WinGeom, decorated: bool)
    requires
        geom::geom_ok(g),
        g.w < 256 * i32::MAX,
        g.h < 256 * i32::MAX,
        decorated ==> g.h >= 30 * 256,
    ensures
        ({
            let (w, h) = content_of(g, decorated);
            &&& g.w - 128 < 256 * w <= g.w + 128
            &&& decorated ==> g.h - 128 < 256 * (h + 30) <= g.h + 128
            &&& !decorated ==> g.h - 128 < 256 * h <= g.h + 128
        }),
{
    geom::law_content_is_the_frame_less_the_bar(g, decorated);
}

/// Maximizing remembers the frame and fills the content area, as far as the
/// client's largest size allows; restoring gives the frame back, and without one
/// to give back changes nothing.
pub proof fn law_maximize_fills_the_area(m: WinMeta, cw: int, ch: int)
    requires
        area_ok(cw, ch),
    ensures
        ({
            let r = m.maximized_in(cw, ch);
            &&& r.restore == Some(m.geom)
            &&& r.decorated == m.decorated
            &&& r.hints == m.hints
            &&& m.hints.max_w <= 0 || 256 * m.hints.max_w >= cw ==> r.geom.x == 0 && r.geom.w == cw
            &&& m.hints.max_h <= 0 || 256 * m.hints.max_h >= ch ==> r.geom.y == 0 && r.geom.h == ch
            &&& 0 < m.hints.max_w && 256 * m.hints.max_w <= cw && m.hints.max_w >= 200
                && m.hints.max_w >= m.hints.min_w ==> r.geom.w == 256 * m.hints.max_w
        }),
        m.restore matches Some(g) ==> m.restored().geom == g,
        m.restore is None ==> m.restored() == m,
        m.restored().restore is None,
{
}

/// A frame that meets the client's hints, to half a pixel, is left alone; another
/// one takes the hinted size, in reach of the content area.
pub proof fn law_frame_settles_within_the_hints(
    m: WinMeta,
    decorated: bool,
    hints: SizeHints,
    cw: int,
    ch: int,
)
    requires
        geom::geom_ok(m.geom),
        area_ok(cw, ch),
    ensures
        ({
            let want = m.within_hints(decorated, hints);
            let r = m.settled(decorated, hints, cw, ch);
            let near = -128 <= want.w - m.geom.w <= 128 && -128 <= want.h - m.geom.h <= 128;
            &&& near ==> r == m.geom
            &&& near <==> !m.outgrown(decorated, hints)
            &&& !near ==> r.w == want.w && r.h == want.h
            &&& !near && 0 <= m.geom.x && m.geom.x + 80 * 256 <= cw && 0 <= m.geom.y && m.geom.y
                + 80 * 256 <= ch && want.w >= 80 * 256 ==> r.x == m.geom.x && r.y == m.geom.y
            &&& want.x == m.geom.x && want.y == m.geom.y
            &&& hints.min_w > 0 ==> want.w >= 256 * hints.min_w
            &&& hints.max_w > 0 && hints.max_w >= hints.min_w ==> want.w <= 256 * hints.max_w
        }),
{
}

/// The bounds of a window come from its own hints and decoration.
pub proof fn law_bounds_come_from_the_hints(m: WinMeta)
    ensures
        m.hints.min_w >= 200 ==> m.limits().min_w == 256 * m.hints.min_w,
        m.hints.min_w < 200 ==> m.limits().min_w == 200 * 256,
        !m.decorated && m.hints.min_h >= 120 ==> m.limits().min_h == 256 * m.hints.min_h,
        m.decorated && m.hints.min_h >= 120 ==> m.limits().min_h == 256 * (m.hints.min_h + 30),
        m.limits().max_w is None <==> m.hints.max_w <= 0,
        m.limits().max_h is None <==> m.hints.max_h <= 0,
{
}

/// The distance between two lengths does not depend on their order.
pub proof fn law_distance_is_symmetric(a: int, b: int)
    ensures
        apart(a, b) == apart(b, a),
        apart(a, b) >= 0,
        apart(a, b) == a - b || apart(a, b) == b - a,
{
}

} // verus!
