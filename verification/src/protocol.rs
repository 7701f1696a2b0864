//! Small decisions of the protocol handlers that need no state: edge masks,
//! cursor codes, where layer surfaces stand and how large they are.

use vstd::prelude::*;

use crate::frame::Rect;

verus! {

/// The edge or corner that an interactive resize pulls.
#[derive(Debug, Clone, Copy, PartialEq, Eq, Structural)]
pub enum ResizeEdge {
    /// No edge at all.
    Unset,
    Top,
    Bottom,
    Left,
    TopLeft,
    BottomLeft,
    Right,
    TopRight,
    BottomRight,
}

impl ResizeEdge {
    /// Whether the left edge is pulled.
    pub open spec fn left(self) -> bool {
        self == ResizeEdge::Left || self == ResizeEdge::TopLeft || self == ResizeEdge::BottomLeft
    }

    /// Whether the right edge is pulled.
    pub open spec fn right(self) -> bool {
        self == ResizeEdge::Right || self == ResizeEdge::TopRight || self
            == ResizeEdge::BottomRight
    }

    /// Whether the top edge is pulled.
    pub open spec fn top(self) -> bool {
        self == ResizeEdge::Top || self == ResizeEdge::TopLeft || self == ResizeEdge::TopRight
    }

    /// Whether the bottom edge is pulled.
    pub open spec fn bottom(self) -> bool {
        self == ResizeEdge::Bottom || self == ResizeEdge::BottomLeft || self
            == ResizeEdge::BottomRight
    }
}

/// The weight of a set bit.
pub open spec fn bit(on: bool, weight: int) -> int {
    if on {
        weight
    } else {
        0
    }
}

/// The edges pulled, one bit each: 1=left, 2=right, 4=top, 8=bottom.
pub open spec fn edge_bits(e: ResizeEdge) -> int {
    bit(e.left(), 1) + bit(e.right(), 2) + bit(e.top(), 4) + bit(e.bottom(), 8)
}

/// Map a resize edge to the UI's edge bitmask (1=left, 2=right, 4=top, 8=bottom,
/// the same encoding as the resize grips).
pub fn resize_edges_mask(edges: ResizeEdge) -> (r: u32)
    ensures
        r == edge_bits(edges),
{
    match edges {
        ResizeEdge::Unset => 0,
        ResizeEdge::Left => 1,
        ResizeEdge::Right => 2,
        ResizeEdge::Top => 4,
        ResizeEdge::Bottom => 8,
        ResizeEdge::TopLeft => 5,
        ResizeEdge::TopRight => 6,
        ResizeEdge::BottomLeft => 9,
        ResizeEdge::BottomRight => 10,
    }
}

/// The named cursor shapes of the cursor-shape protocol.
#[derive(Debug, Clone, Copy, PartialEq, Eq, Structural)]
pub enum CursorIcon {
    Default,
    ContextMenu,
    Help,
    Pointer,
    Progress,
    Wait,
    Cell,
    Crosshair,
    Text,
    VerticalText,
    Alias,
    Copy,
    Move,
    NoDrop,
    NotAllowed,
    Grab,
    Grabbing,
    EResize,
    NResize,
    NeResize,
    NwResize,
    SResize,
    SeResize,
    SwResize,
    WResize,
    EwResize,
    NsResize,
    NeswResize,
    NwseResize,
    ColResize,
    RowResize,
    AllScroll,
    ZoomIn,
    ZoomOut,
}

/// What a client asks the cursor to look like.
#[derive(Debug, Clone, Copy, PartialEq, Eq, Structural)]
pub enum CursorImageStatus {
    Hidden,
    Named(CursorIcon),
    /// A bitmap of the client's own.
    Surface,
}

/// The code of a named shape; 0 is the default arrow.
pub open spec fn icon_code(icon: CursorIcon) -> u32 {
    match icon {
        CursorIcon::Pointer => 2,
        CursorIcon::Text => 3,
        CursorIcon::VerticalText => 3,
        CursorIcon::Crosshair => 4,
        CursorIcon::Move => 5,
        CursorIcon::AllScroll => 5,
        CursorIcon::Wait => 6,
        CursorIcon::Progress => 7,
        CursorIcon::Help => 8,
        CursorIcon::NotAllowed => 9,
        CursorIcon::Grab => 10,
        CursorIcon::Grabbing => 11,
        CursorIcon::ColResize => 12,
        CursorIcon::RowResize => 13,
        CursorIcon::EwResize => 14,
        CursorIcon::EResize => 14,
        CursorIcon::WResize => 14,
        CursorIcon::NsResize => 15,
        CursorIcon::NResize => 15,
        CursorIcon::SResize => 15,
        CursorIcon::NeswResize => 16,
        CursorIcon::NeResize => 16,
        CursorIcon::SwResize => 16,
        CursorIcon::NwseResize => 17,
        CursorIcon::NwResize => 17,
        CursorIcon::SeResize => 17,
        CursorIcon::Alias => 18,
        CursorIcon::Copy => 19,
        CursorIcon::NoDrop => 20,
        _ => 0,
    }
}

/// Map a cursor request to a small stable code shared with the UI. 0 = default
/// arrow, which also stands in for bitmap cursors; 1 = hidden.
pub fn cursor_shape_code(status: &CursorImageStatus) -> (r: u32)
    ensures
        r == match *status {
            CursorImageStatus::Hidden => 1,
            CursorImageStatus::Named(icon) => icon_code(icon),
            CursorImageStatus::Surface => 0,
        },
{
    match status {
        CursorImageStatus::Hidden => 1,
        CursorImageStatus::Named(icon) => match icon {
            CursorIcon::Pointer => 2,
            CursorIcon::Text | CursorIcon::VerticalText => 3,
            CursorIcon::Crosshair => 4,
            CursorIcon::Move | CursorIcon::AllScroll => 5,
            CursorIcon::Wait => 6,
            CursorIcon::Progress => 7,
            CursorIcon::Help => 8,
            CursorIcon::NotAllowed => 9,
            CursorIcon::Grab => 10,
            CursorIcon::Grabbing => 11,
            CursorIcon::ColResize => 12,
            CursorIcon::RowResize => 13,
            CursorIcon::EwResize | CursorIcon::EResize | CursorIcon::WResize => 14,
            CursorIcon::NsResize | CursorIcon::NResize | CursorIcon::SResize => 15,
            CursorIcon::NeswResize | CursorIcon::NeResize | CursorIcon::SwResize => 16,
            CursorIcon::NwseResize | CursorIcon::NwResize | CursorIcon::SeResize => 17,
            CursorIcon::Alias => 18,
            CursorIcon::Copy => 19,
            CursorIcon::NoDrop => 20,
            _ => 0,
        },
        CursorImageStatus::Surface => 0,
    }
}

/// The layers of the layer shell, back to front.
#[derive(Debug, Clone, Copy, PartialEq, Eq, Structural)]
pub enum Layer {
    Background,
    Bottom,
    Top,
    Overlay,
}

/// The number of a layer: 0=background, 1=bottom, 2=top, 3=overlay.
pub open spec fn layer_number(layer: Layer) -> u8 {
    match layer {
        Layer::Background => 0,
        Layer::Bottom => 1,
        Layer::Top => 2,
        Layer::Overlay => 3,
    }
}

/// The number of a layer.
pub fn layer_to_u8(layer: Layer) -> (r: u8)
    ensures
        r == layer_number(layer),
{
    match layer {
        Layer::Background => 0,
        Layer::Bottom => 1,
        Layer::Top => 2,
        Layer::Overlay => 3,
    }
}

/// The output edges that a layer surface is anchored to.
#[derive(Debug, Clone, Copy, PartialEq, Eq, Structural)]
pub struct Anchor {
    pub top: bool,
    pub bottom: bool,
    pub left: bool,
    pub right: bool,
}

/// The distances that a layer surface keeps from the output edges.
#[derive(Debug, Clone, Copy, PartialEq, Eq, Structural)]
pub struct Margins {
    pub top: i32,
    pub right: i32,
    pub bottom: i32,
    pub left: i32,
}

/// `v` as far as 32 bits can hold it.
pub open spec fn saturated(v: int) -> int {
    if v < i32::MIN {
        i32::MIN as int
    } else if v > i32::MAX {
        i32::MAX as int
    } else {
        v
    }
}

/// Executable form of [`saturated`].
fn saturate(v: i64) -> (r: i32)
    ensures
        r == saturated(v as int),
{
    if v < -0x8000_0000 {
        i32::MIN
    } else if v > 0x7fff_ffff {
        i32::MAX
    } else {
        v as i32
    }
}

/// Where a layer surface of size `w`x`h` stands: at the near edge plus its
/// margin, unless it is anchored to the far edge alone.
pub open spec fn layer_place(
    output: (i32, i32),
    anchor: Anchor,
    margin: Margins,
    w: int,
    h: int,
) -> (int, int) {
    (
        if anchor.right && !anchor.left {
            saturated(output.0 - w - margin.right)
        } else {
            margin.left as int
        },
        if anchor.bottom && !anchor.top {
            saturated(output.1 - h - margin.bottom)
        } else {
            margin.top as int
        },
    )
}

/// Position a layer surface against the output edges per its anchors + margins.
pub fn layer_position(
    output: (i32, i32),
    anchor: Anchor,
    margin: Margins,
    w: u32,
    h: u32,
) -> (r: (i32, i32))
    ensures
        layer_place(output, anchor, margin, w as int, h as int) == (r.0 as int, r.1 as int),
{
    let x: i32 = if anchor.right && !anchor.left {
        saturate(output.0 as i64 - w as i64 - margin.right as i64)
    } else {
        margin.left
    };
    let y: i32 = if anchor.bottom && !anchor.top {
        saturate(output.1 as i64 - h as i64 - margin.bottom as i64)
    } else {
        margin.top
    };
    (x, y)
}

/// The size a layer surface is told: what it asked for, with the output's size
/// on an axis that it left open.
pub open spec fn layer_extent(desired: (i32, i32), output: (i32, i32)) -> (i32, i32) {
    (
        if desired.0 > 0 {
            desired.0
        } else {
            output.0
        },
        if desired.1 > 0 {
            desired.1
        } else {
            output.1
        },
    )
}

/// The size a layer surface is told.
pub fn layer_size(desired: (i32, i32), output: (i32, i32)) -> (r: (i32, i32))
    ensures
        r == layer_extent(desired, output),
{
    (
        if desired.0 > 0 { desired.0 } else { output.0 },
        if desired.1 > 0 { desired.1 } else { output.1 },
    )
}

/// A size that is at least one pixel each way.
pub open spec fn at_least_one(w: i32, h: i32) -> (i32, i32) {
    (
        if w > 1 {
            w
        } else {
            1
        },
        if h > 1 {
            h
        } else {
            1
        },
    )
}

/// A size that is at least one pixel each way.
pub fn size_floor(w: i32, h: i32) -> (r: (i32, i32))
    ensures
        r == at_least_one(w, h),
{
    (if w > 1 { w } else { 1 }, if h > 1 { h } else { 1 })
}

/// A length on the X11 wire read as a signed number: the upper half of its range
/// stands for negative ones.
pub open spec fn as_signed(v: u32) -> int {
    if v <= 0x7fff_ffff {
        v as int
    } else {
        v - 0x1_0000_0000
    }
}

fn signed(v: u32) -> (r: i32)
    ensures
        r == as_signed(v),
{
    proof {
        assert(v <= 0x7fff_ffff ==> v as i32 == v) by (bit_vector);
        assert(v > 0x7fff_ffff ==> v as i32 == v - 0x1_0000_0000) by (bit_vector);
    }
    #[verifier::truncate]
    (v as i32)
}

/// The geometry an X11 window gets when it asks to be configured: its current
/// one with whatever it asked to change.
pub fn x11_configure(
    geo: Rect,
    x: Option<i32>,
    y: Option<i32>,
    w: Option<u32>,
    h: Option<u32>,
) -> (r: Rect)
    ensures
        r.x == match x {
            Some(v) => v,
            None => geo.x,
        },
        r.y == match y {
            Some(v) => v,
            None => geo.y,
        },
        r.w == match w {
            Some(v) => as_signed(v),
            None => geo.w as int,
        },
        r.h == match h {
            Some(v) => as_signed(v),
            None => geo.h as int,
        },
{
    let mut out = geo;
    if let Some(v) = x {
        out.x = v;
    }
    if let Some(v) = y {
        out.y = v;
    }
    if let Some(v) = w {
        out.w = signed(v);
    }
    if let Some(v) = h {
        out.h = signed(v);
    }
    out
}

/// A mask names opposite edges never together, and nothing is pulled exactly for
/// no edge.
pub proof fn law_edge_masks(e: ResizeEdge)
    ensures
        0 <= edge_bits(e) <= 10,
        !(e.left() && e.right()),
        !(e.top() && e.bottom()),
        edge_bits(e) == 0 <==> e == ResizeEdge::Unset,
{
}

/// The mask has a bit for each edge that is dragged, a corner has those of both
/// its edges: left 1, right 2, top 4, bottom 8.
pub proof fn law_edge_mask_bits(e: ResizeEdge)
    ensures
        edge_bits(e) % 2 == 1 <==> e == ResizeEdge::Left || e == ResizeEdge::TopLeft || e
            == ResizeEdge::BottomLeft,
        (edge_bits(e) / 2) % 2 == 1 <==> e == ResizeEdge::Right || e == ResizeEdge::TopRight || e
            == ResizeEdge::BottomRight,
        (edge_bits(e) / 4) % 2 == 1 <==> e == ResizeEdge::Top || e == ResizeEdge::TopLeft || e
            == ResizeEdge::TopRight,
        (edge_bits(e) / 8) % 2 == 1 <==> e == ResizeEdge::Bottom || e == ResizeEdge::BottomLeft || e
            == ResizeEdge::BottomRight,
        edge_bits(e) < 16,
{
}

/// The cursor shapes are numbered in this order from 2 on.
pub proof fn law_cursor_codes_are_numbered(i: int)
    requires
        0 <= i < 19,
    ensures
        icon_code(
            seq![
                CursorIcon::Pointer,
                CursorIcon::Text,
                CursorIcon::Crosshair,
                CursorIcon::Move,
                CursorIcon::Wait,
                CursorIcon::Progress,
                CursorIcon::Help,
                CursorIcon::NotAllowed,
                CursorIcon::Grab,
                CursorIcon::Grabbing,
                CursorIcon::ColResize,
                CursorIcon::RowResize,
                CursorIcon::EwResize,
                CursorIcon::NsResize,
                CursorIcon::NeswResize,
                CursorIcon::NwseResize,
                CursorIcon::Alias,
                CursorIcon::Copy,
                CursorIcon::NoDrop,
            ][i],
        ) == 2 + i,
{
}

/// Shapes that look alike share a code: an edge has that of its axis, and what has
/// no shape of its own is the default arrow.
pub proof fn law_cursor_codes_are_shared()
    ensures
        icon_code(CursorIcon::EResize) == icon_code(CursorIcon::EwResize),
        icon_code(CursorIcon::WResize) == icon_code(CursorIcon::EwResize),
        icon_code(CursorIcon::NResize) == icon_code(CursorIcon::NsResize),
        icon_code(CursorIcon::SResize) == icon_code(CursorIcon::NsResize),
        icon_code(CursorIcon::NeResize) == icon_code(CursorIcon::NeswResize),
        icon_code(CursorIcon::SwResize) == icon_code(CursorIcon::NeswResize),
        icon_code(CursorIcon::NwResize) == icon_code(CursorIcon::NwseResize),
        icon_code(CursorIcon::SeResize) == icon_code(CursorIcon::NwseResize),
        icon_code(CursorIcon::VerticalText) == icon_code(CursorIcon::Text),
        icon_code(CursorIcon::AllScroll) == icon_code(CursorIcon::Move),
        icon_code(CursorIcon::Default) == 0,
        icon_code(CursorIcon::ContextMenu) == 0,
        icon_code(CursorIcon::Cell) == 0,
        icon_code(CursorIcon::ZoomIn) == 0,
        icon_code(CursorIcon::ZoomOut) == 0,
{
}

/// Layers are numbered from the back to the front.
pub proof fn law_layers_are_numbered_back_to_front()
    ensures
        layer_number(Layer::Background) == 0,
        layer_number(Layer::Bottom) == layer_number(Layer::Background) + 1,
        layer_number(Layer::Top) == layer_number(Layer::Bottom) + 1,
        layer_number(Layer::Overlay) == layer_number(Layer::Top) + 1,
{
}

/// A layer surface keeps its margin from the edge it is anchored to: from the
/// right or bottom one where it is anchored there alone, and otherwise from the
/// left and top. Positions that 32 bits cannot hold stop at their ends.
pub proof fn law_layer_keeps_its_margin(
    output: (i32, i32),
    anchor: Anchor,
    margin: Margins,
    w: int,
    h: int,
)
    ensures
        ({
            let (x, y) = layer_place(output, anchor, margin, w, h);
            let far_x = output.0 - w - margin.right;
            let far_y = output.1 - h - margin.bottom;
            &&& anchor.left || !anchor.right ==> x == margin.left
            &&& anchor.top || !anchor.bottom ==> y == margin.top
            &&& anchor.right && !anchor.left && i32::MIN <= far_x <= i32::MAX ==> x + w
                + margin.right == output.0
            &&& anchor.bottom && !anchor.top && i32::MIN <= far_y <= i32::MAX ==> y + h
                + margin.bottom == output.1
            &&& anchor.right && !anchor.left && far_x > i32::MAX ==> x == i32::MAX
            &&& anchor.right && !anchor.left && far_x < i32::MIN ==> x == i32::MIN
            &&& anchor.bottom && !anchor.top && far_y > i32::MAX ==> y == i32::MAX
            &&& anchor.bottom && !anchor.top && far_y < i32::MIN ==> y == i32::MIN
        }),
{
}

/// A layer surface has the size it asks for on each axis, and that of the output
/// where it asks for none.
pub proof fn law_layer_fills_what_it_leaves_open(desired: (i32, i32), output: (i32, i32))
    ensures
        desired.0 > 0 ==> layer_extent(desired, output).0 == desired.0,
        desired.1 > 0 ==> layer_extent(desired, output).1 == desired.1,
        desired.0 <= 0 ==> layer_extent(desired, output).0 == output.0,
        desired.1 <= 0 ==> layer_extent(desired, output).1 == output.1,
{
}

/// A size is never empty, and otherwise stays as it is.
pub proof fn law_sizes_are_never_empty(w: i32, h: i32)
    ensures
        w >= 1 ==> at_least_one(w, h).0 == w,
        h >= 1 ==> at_least_one(w, h).1 == h,
        w < 1 ==> at_least_one(w, h).0 == 1,
        h < 1 ==> at_least_one(w, h).1 == 1,
{
}

/// Reading 32 bits with a sign keeps the bits.
pub proof fn law_signed_reading_keeps_the_bits(v: u32)
    ensures
        i32::MIN <= as_signed(v) <= i32::MAX,
        (as_signed(v) - v) % 0x1_0000_0000 == 0,
        v <= i32::MAX ==> as_signed(v) == v,
{
}

} // verus!
