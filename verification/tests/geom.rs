use focuswm::engine::SizeHints;
use focuswm::frames::WinMeta;
use focuswm::geom::{
    clamp_popup, clamp_to_client_hints, content_area, content_hit, default_geom, maximized_geom,
    popup_origin, reorder_delta, snap_geom, Bounds, Edges, WinGeom, MIN_WIN_H, MIN_WIN_W, PX,
    TITLE_BAR_H,
};

// Whole logical px.
fn px(v: i64) -> i64 {
    v * PX
}

fn geom(x: i64, y: i64, w: i64, h: i64) -> WinGeom {
    WinGeom { x: px(x), y: px(y), w: px(w), h: px(h) }
}

#[test]
fn popup_clamped_inside_content() {
    let area = (px(1000), px(700));
    let clamp = |x, y, w, h| clamp_popup(px(x), px(y), px(w), px(h), area);
    // Fits: untouched.
    assert_eq!(clamp(100, 100, 200, 150), (px(100), px(100)));
    // Overflows right/bottom: slides back in.
    assert_eq!(clamp(950, 650, 200, 150), (px(800), px(550)));
    // Negative: pins to the origin.
    assert_eq!(clamp(-30, -10, 200, 150), (0, 0));
    // Bigger than the area: pins to the top-left rather than going negative.
    assert_eq!(clamp(50, 50, 1200, 800), (0, 0));
}

#[test]
fn reorder_delta_rounds_to_nearest_slot() {
    assert_eq!(reorder_delta(px(0)), 0);
    assert_eq!(reorder_delta(px(20)), 0); // less than half a row → stay
    assert_eq!(reorder_delta(px(40)), 1); // past the midpoint → down one
    assert_eq!(reorder_delta(px(64)), 1);
    assert_eq!(reorder_delta(px(130)), 2);
    assert_eq!(reorder_delta(px(-40)), -1); // up one
    assert_eq!(reorder_delta(px(-130)), -2);
}

#[test]
fn win_geom_content_size_accounts_for_title_bar() {
    let g = geom(0, 0, 800, 600);
    // Decorated: the client area is the frame minus the title bar.
    assert_eq!(g.content_size(true), (800, 600 - (TITLE_BAR_H / PX) as i32));
    // Undecorated: the whole frame is client area.
    assert_eq!(g.content_size(false), (800, 600));
}

#[test]
fn win_geom_clamp_keeps_title_bar_reachable() {
    let (cw, ch) = (px(1000), px(700));
    // Dragged far off the bottom-right: clamped back into reach.
    let mut g = geom(5000, 5000, 400, 300);
    g.clamp_pos(cw, ch);
    assert!(g.x <= cw && g.y >= 0 && g.y <= ch - TITLE_BAR_H);
    // Dragged far off the top-left: still keeps part of the frame on-screen.
    let mut g = geom(-5000, -5000, 400, 300);
    g.clamp_pos(cw, ch);
    assert!(g.x + g.w >= 0 && g.y >= 0);
}

#[test]
fn default_geom_fits_inside_content_and_cascades() {
    let (cw, ch) = (px(1040), px(800));
    let a = default_geom(0, cw, ch);
    let b = default_geom(1, cw, ch);
    // Inside the content area and at least the minimum size.
    assert!(a.w >= MIN_WIN_W && a.h >= MIN_WIN_H);
    assert!(a.x >= 0 && a.y >= 0 && a.x + a.w <= cw && a.y + a.h <= ch);
    // Successive windows cascade so they don't perfectly overlap.
    assert!(b.x > a.x && b.y > a.y);
}

// A WinMeta with the given content size hints (0 = unset), decorated.
fn meta_with_hints(min_w: i32, min_h: i32, max_w: i32, max_h: i32) -> WinMeta {
    WinMeta {
        decorated: true,
        hints: SizeHints { min_w, min_h, max_w, max_h },
        ..WinMeta::default()
    }
}

#[test]
fn frame_bounds_unset_hints_are_floor_and_infinite() {
    // No client hints: min is the global floor, max is unbounded.
    let b = meta_with_hints(0, 0, 0, 0).frame_bounds();
    assert_eq!((b.min_w, b.min_h), (MIN_WIN_W, MIN_WIN_H));
    assert!(b.max_w.is_none() && b.max_h.is_none());
}

#[test]
fn frame_bounds_adds_title_bar_to_height_only() {
    // A 400×300 content min/max becomes a frame min/max with the title bar
    // added to the *height* axis only (width has no horizontal decoration).
    let b = meta_with_hints(400, 300, 400, 300).frame_bounds();
    assert_eq!(b.min_w, px(400));
    assert_eq!(b.max_w, Some(px(400)));
    assert_eq!(b.min_h, px(300) + TITLE_BAR_H);
    assert_eq!(b.max_h, Some(px(300) + TITLE_BAR_H));
}

#[test]
fn frame_bounds_undecorated_has_no_title_bar() {
    let mut m = meta_with_hints(400, 300, 0, 0);
    m.decorated = false;
    assert_eq!(m.frame_bounds().min_h, px(300)); // no title bar added
}

#[test]
fn frame_bounds_keeps_max_at_least_min() {
    // A client whose max is below the global floor still yields max ≥ min,
    // so callers can clamp(min, max) without panicking.
    let b = meta_with_hints(0, 0, 50, 40).frame_bounds();
    assert_eq!((b.max_w, b.max_h), (Some(b.min_w), Some(b.min_h)));
    assert!(b.max_w.unwrap() >= b.min_w && b.max_h.unwrap() >= b.min_h);
}

#[test]
fn resize_right_and_bottom_keep_origin() {
    let bounds = Bounds { min_w: MIN_WIN_W, min_h: MIN_WIN_H, max_w: None, max_h: None };
    let mut g = geom(100, 50, 400, 300);
    g.resize_by(Edges::from_mask(2 | 8), px(60), px(40), bounds); // drag right + bottom edges out
    assert_eq!((g.x, g.y), (px(100), px(50))); // origin unmoved
    assert_eq!((g.w, g.h), (px(460), px(340)));
}

#[test]
fn resize_left_and_top_anchor_opposite_edge() {
    let bounds = Bounds { min_w: MIN_WIN_W, min_h: MIN_WIN_H, max_w: None, max_h: None };
    let mut g = geom(100, 50, 400, 300);
    let (right, bottom) = (g.x + g.w, g.y + g.h);
    g.resize_by(Edges::from_mask(1 | 4), px(40), px(30), bounds); // drag left + top edges inward
    assert_eq!((g.w, g.h), (px(360), px(270)));
    // The right/bottom edges stay put; the origin moved.
    assert_eq!(g.x + g.w, right);
    assert_eq!(g.y + g.h, bottom);
}

#[test]
fn resize_clamps_to_min_and_max_hints() {
    let bounds = Bounds {
        min_w: px(200),
        min_h: px(150),
        max_w: Some(px(600)),
        max_h: Some(px(500)),
    };
    // Shrinking past the minimum is clamped to the minimum.
    let mut g = geom(0, 0, 300, 250);
    g.resize_by(Edges::from_mask(2 | 8), px(-1000), px(-1000), bounds);
    assert_eq!((g.w, g.h), (px(200), px(150)));
    // Growing past the maximum is clamped to the maximum.
    let mut g = geom(0, 0, 300, 250);
    g.resize_by(Edges::from_mask(2 | 8), px(1000), px(1000), bounds);
    assert_eq!((g.w, g.h), (px(600), px(500)));
}

#[test]
fn snap_geom_covers_halves_quarters_and_maximize() {
    let (cw, ch) = (px(1000), px(800));
    assert_eq!(snap_geom(1, cw, ch), geom(0, 0, 500, 800));
    assert_eq!(snap_geom(2, cw, ch), geom(500, 0, 500, 800));
    assert_eq!(snap_geom(7, cw, ch), geom(500, 400, 500, 400));
    // Zone 3 (and any unknown zone) maximizes to the full area.
    assert_eq!(snap_geom(3, cw, ch), geom(0, 0, 1000, 800));
}

#[test]
fn clamp_to_client_hints_grows_shrinks_and_ignores_unset() {
    let g = geom(10, 20, 300, 300);
    // No hints: unchanged (no global floor applied here).
    assert_eq!(clamp_to_client_hints(g, true, 0, 0, 0, 0), g);
    // A raised minimum grows the frame; the title bar is added to height.
    let grown = clamp_to_client_hints(g, true, 500, 400, 0, 0);
    assert_eq!(grown.w, px(500));
    assert_eq!(grown.h, px(400) + TITLE_BAR_H);
    // Position is left untouched.
    assert_eq!((grown.x, grown.y), (px(10), px(20)));
    // A maximum below the current size shrinks the frame (fixed-size dialog).
    let shrunk = clamp_to_client_hints(g, true, 0, 0, 150, 150);
    assert_eq!(shrunk.w, px(150));
    assert_eq!(shrunk.h, px(150) + TITLE_BAR_H);
    // Undecorated: no title bar added to the height bound.
    let u = clamp_to_client_hints(g, false, 0, 400, 0, 0);
    assert_eq!(u.h, px(400));
}

#[test]
fn content_hit_excludes_title_bar_and_returns_local_coords() {
    let g = geom(100, 50, 400, 300);
    // Decorated: the title bar (top TITLE_BAR_H) is not part of the content.
    assert_eq!(content_hit(g, true, px(110), px(55)), None); // over the title bar
    // Just below the title bar maps to surface-local (10, 0).
    assert_eq!(content_hit(g, true, px(110), px(50) + TITLE_BAR_H), Some((px(10), 0)));
    // A point well inside the content maps relative to the content origin.
    assert_eq!(
        content_hit(g, true, px(300), px(200)),
        Some((px(200), px(200) - px(50) - TITLE_BAR_H))
    );
    // Outside the frame entirely.
    assert_eq!(content_hit(g, true, px(600), px(200)), None);
    // Undecorated: the whole frame is content, so the top-left is (0, 0).
    assert_eq!(content_hit(g, false, px(100), px(50)), Some((0, 0)));
}

#[test]
fn maximized_geom_fills_or_centres_within_max() {
    let (cw, ch) = (px(1000), px(800));
    // A resizable client fills the whole area, top-left anchored.
    let g = maximized_geom(cw, ch, None, None);
    assert_eq!(g, geom(0, 0, 1000, 800));
    // A capped client is sized to its max and centred.
    let g = maximized_geom(cw, ch, Some(px(600)), Some(px(400)));
    assert_eq!(g, geom(200, 200, 600, 400));
}

#[test]
fn maximizing_and_restoring_brings_the_frame_back() {
    let mut m = meta_with_hints(0, 0, 0, 0);
    m.geom = geom(10, 20, 300, 200);
    assert_eq!(m.set_maximized(true, px(1000), px(800)), (1000, 770));
    assert_eq!(m.geom, geom(0, 0, 1000, 800));
    assert_eq!(m.set_maximized(false, px(1000), px(800)), (300, 170));
    assert_eq!(m.geom, geom(10, 20, 300, 200));
    assert_eq!(m.restore, None);
    // Restoring without anything to restore keeps the frame.
    m.set_maximized(false, px(1000), px(800));
    assert_eq!(m.geom, geom(10, 20, 300, 200));
}

#[test]
fn snapping_keeps_the_first_frame_and_the_maximum() {
    let mut m = meta_with_hints(0, 0, 400, 0);
    m.geom = geom(10, 20, 300, 200);
    m.snap(1, px(1000), px(800));
    assert_eq!(m.geom, geom(0, 0, 400, 800));
    m.snap(7, px(1000), px(800));
    assert_eq!(m.geom, geom(500, 400, 400, 400));
    assert_eq!(m.restore, Some(geom(10, 20, 300, 200)));
    // A manual resize forgets it.
    m.resize(Edges::from_mask(2), px(-50), 0);
    assert_eq!(m.restore, None);
    assert_eq!(m.geom.w, px(350));
}

#[test]
fn a_placed_window_moves_within_reach() {
    let mut m = WinMeta::default();
    assert_eq!(m.place(0, px(1000), px(800)), (720, 576));
    assert_eq!((m.geom.x, m.geom.y), (px(20), px(16)));
    m.drag(px(5), px(-100), px(1000), px(800));
    assert_eq!((m.geom.x, m.geom.y), (px(25), 0));
}

#[test]
fn commits_follow_the_clients_hints() {
    let mut m = WinMeta::default();
    m.geom = geom(0, 0, 300, 200);
    let none = SizeHints { min_w: 0, min_h: 0, max_w: 0, max_h: 0 };
    assert_eq!(m.committed(false, none, px(1000), px(800)), None);
    // The title bar takes its share of the height.
    assert_eq!(m.committed(true, none, px(1000), px(800)), Some((300, 170)));
    let raised = SizeHints { min_w: 400, min_h: 0, max_w: 0, max_h: 0 };
    assert_eq!(m.committed(true, raised, px(1000), px(800)), Some((400, 170)));
    assert_eq!(m.committed(true, raised, px(1000), px(800)), None);
    assert_eq!(m.decorate(true), None);
    assert_eq!(m.decorate(false), Some((400, 200)));
}

#[test]
fn popups_hang_from_their_parents() {
    assert_eq!(popup_origin(None, None), (0, 0));
    assert_eq!(popup_origin(Some((geom(5, 6, 10, 10), true)), None), (px(5), px(36)));
    assert_eq!(popup_origin(Some((geom(5, 6, 10, 10), false)), None), (px(5), px(6)));
    assert_eq!(popup_origin(None, Some((7, 8))), (7, 8));
    assert_eq!(content_area(1280, 800), (1028, 800));
    assert_eq!(content_area(100, -5), (1, 1));
}

#[test]
fn part_of_a_frame_stays_on_screen_on_each_axis() {
    let (cw, ch) = (px(1000), px(700));
    let mut g = geom(5000, 5000, 400, 300);
    g.clamp_pos(cw, ch);
    assert_eq!((g.x, g.y), (px(920), px(620)));
    let mut g = geom(-5000, -5000, 400, 300);
    g.clamp_pos(cw, ch);
    assert_eq!((g.x, g.y), (px(-320), px(0)));
    // One that is in reach stays where it is.
    let mut g = geom(100, 600, 400, 300);
    g.clamp_pos(cw, ch);
    assert_eq!((g.x, g.y), (px(100), px(600)));
}
