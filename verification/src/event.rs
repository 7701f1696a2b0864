//! The messages between the compositor engine and the shell.
//!
//! State updates flow out to the shell as [`Event`]s; the shell drives input and
//! window management back with [`Command`]s.

use vstd::prelude::*;

use crate::model::WindowId;
use crate::scan;
use crate::text;

verus! {

/// Default output size (logical px) when starting nested.
pub const OUTPUT_W: i32 = 1280;

pub const OUTPUT_H: i32 = 800;

/// One plane of a dmabuf: a file descriptor plus its offset and stride.
#[derive(Debug, PartialEq, Eq)]
pub struct DmabufPlane {
    pub fd: i32,
    pub offset: u32,
    pub stride: u32,
}

/// Events emitted by the compositor thread for the UI thread to consume.
#[derive(Debug, PartialEq, Eq)]
#[allow(inconsistent_fields)]
pub enum Event {
    /// The compositor is up and accepting clients on `socket_name`.
    Ready {
        socket_name: String,
        /// Directory holding the socket; launched apps need it as their
        /// `XDG_RUNTIME_DIR` to connect.
        runtime_dir: String,
        width: i32,
        height: i32,
    },
    WindowAdded(WindowId),
    WindowRemoved(WindowId),
    /// A window asked to be moved interactively (the client dragged its own
    /// client-side title bar). The UI then drives the floating move from the
    /// ongoing pointer drag.
    MoveRequested(WindowId),
    /// A window asked to be resized interactively from the given edges (1=left,
    /// 2=right, 4=top, 8=bottom).
    ResizeRequested { id: WindowId, edges: u32 },
    /// A window asked to be maximized or restored.
    MaximizeRequested { id: WindowId, maximized: bool },
    /// A window asked to be minimized.
    MinimizeRequested(WindowId),
    /// The window's decoration mode changed (true = compositor draws SSD).
    WindowDecorated { id: WindowId, decorated: bool },
    /// A window committed a new frame: tightly-packed RGBA8 of `width`x`height`,
    /// plus its current title, app-id and whether it wants server-side
    /// decorations.
    WindowBuffer {
        id: WindowId,
        width: u32,
        height: u32,
        pixels: Vec<u8>,
        title: String,
        app_id: String,
        decorated: bool,
        /// Client size hints in surface (content) logical px; 0 = unset, i.e.
        /// no minimum / no maximum on that axis.
        min_w: i32,
        min_h: i32,
        max_w: i32,
        max_h: i32,
    },
    /// A popup committed a frame, drawn at offset `(ox, oy)` from `parent`.
    PopupBuffer {
        id: WindowId,
        parent: Option<WindowId>,
        ox: i32,
        oy: i32,
        width: u32,
        height: u32,
        pixels: Vec<u8>,
    },
    PopupRemoved(WindowId),
    /// A layer-shell surface committed a frame, drawn at `(x, y)`. `layer` is
    /// 0=background, 1=bottom, 2=top, 3=overlay.
    LayerBuffer {
        id: WindowId,
        layer: u8,
        x: i32,
        y: i32,
        width: u32,
        height: u32,
        pixels: Vec<u8>,
    },
    LayerRemoved(WindowId),
    /// A client requested activation/attention (xdg-activation) for this window.
    ActivationRequested(WindowId),
    /// A client started (true) or stopped (false) inhibiting idle, e.g. a video
    /// player; the shell should suppress its idle lock while true.
    IdleInhibited(bool),
    /// XWayland is up; X11 apps should be launched with `DISPLAY=:{display}`.
    XwaylandReady { display: u32 },
    /// A window committed a GPU (dmabuf) buffer. The planes carry file
    /// descriptors for the UI thread to import as a GL texture.
    WindowDmabuf {
        id: WindowId,
        width: u32,
        height: u32,
        /// DRM FourCC format code.
        fourcc: u32,
        /// DRM format modifier.
        modifier: u64,
        planes: Vec<DmabufPlane>,
    },
    /// The output was resized (echoed back after a `Command::ResizeOutput`).
    OutputResized { width: i32, height: i32 },
    /// A client started an interactive drag-and-drop. The UI should route
    /// pointer motion globally (to whichever window is under the cursor) until
    /// the matching `DragEnded`, so the drag can cross between applications.
    DragStarted,
    /// The drag-and-drop ended (drop or cancel); stop global routing and hide
    /// the drag icon.
    DragEnded,
    /// The drag icon committed a frame: tightly-packed RGBA8 of `width`x`height`,
    /// to be drawn following the cursor. `hot_x`/`hot_y` is the cursor hotspot
    /// within the image (logical px).
    DragIcon { width: u32, height: u32, pixels: Vec<u8>, hot_x: i32, hot_y: i32 },
    /// The focused client asked for a cursor shape.
    CursorShape(u32),
}

/// Commands sent from the UI thread to the compositor. Positions and scroll
/// distances are in 1/256 of a pixel.
#[derive(Debug, PartialEq, Eq)]
pub enum Command {
    /// Ask a window to close (sends `xdg_toplevel.close`).
    CloseWindow(WindowId),
    /// Give keyboard focus to a window.
    FocusWindow(WindowId),
    /// Pointer moved to surface-local `(x, y)` over the given window.
    PointerMotion { id: WindowId, x: i32, y: i32 },
    /// Pointer button (evdev code) pressed/released over the given window.
    PointerButton { id: WindowId, button: u32, pressed: bool },
    /// Pointer left all client windows.
    PointerLeave,
    /// Scroll over the given window.
    PointerAxis { id: WindowId, dx: i32, dy: i32 },
    /// A key (evdev keycode) pressed/released for the focused window.
    Key { keycode: u32, pressed: bool },
    /// Type already-composed Unicode text into the focused window. Used for
    /// printable input (letters, digits, symbols, accents, AltGr layers,
    /// dead-key results) so it is independent of the compositor's keymap and of
    /// the host keyboard layout.
    TypeText(String),
    /// Resize a window to the given size (sends an xdg configure).
    ResizeWindow { id: WindowId, width: i32, height: i32 },
    /// Tell a window whether it is maximized (sets the xdg `Maximized` state and
    /// sizes it to the output).
    SetMaximized { id: WindowId, maximized: bool },
    /// The output (host window) was resized.
    ResizeOutput { width: i32, height: i32 },
    /// Dismiss all open popups (e.g. a click landed outside them).
    DismissPopups,
}

// ---------------------------------------------------------------------------
// Log text
// ---------------------------------------------------------------------------

/// A string as it is quoted for debugging.
pub uninterp spec fn debug_quoted(s: Seq<char>) -> Seq<char>;

/// `<str as Debug>::fmt` through `format!`: the string in double quotes with
/// what needs escaping escaped. What exactly is escaped is left to the name.
#[verifier::external_body]
fn quote(s: &str) -> (r: String)
    ensures
        r@ == debug_quoted(s@),
{
    format!("{:?}", s)
}

/// An integer in decimal, with a minus sign where it is negative.
pub open spec fn int_text(n: int) -> Seq<char> {
    if n < 0 {
        "-"@ + scan::decimal((-n) as nat)
    } else {
        scan::decimal(n as nat)
    }
}

/// `true` or `false`.
pub open spec fn bool_text(b: bool) -> Seq<char> {
    if b {
        "true"@
    } else {
        "false"@
    }
}

/// A window id.
pub open spec fn window_text(id: WindowId) -> Seq<char> {
    "WindowId("@ + scan::decimal(id.0 as nat) + ")"@
}

/// An optional window id.
pub open spec fn parent_text(id: Option<WindowId>) -> Seq<char> {
    match id {
        Some(w) => "Some("@ + window_text(w) + ")"@,
        None => "None"@,
    }
}

/// A named field.
pub open spec fn field_text(name: Seq<char>, value: Seq<char>) -> Seq<char> {
    name + ": "@ + value
}

/// A name with its fields; `open` where there are more that are not shown.
pub open spec fn struct_text(name: Seq<char>, fields: Seq<Seq<char>>, open: bool) -> Seq<char> {
    if fields.len() == 0 && !open {
        name
    } else {
        name + " { "@ + text::joined(
            if open {
                fields.push(".."@)
            } else {
                fields
            },
            ", "@,
        ) + " }"@
    }
}

/// A name with one value in brackets.
pub open spec fn tuple_text(name: Seq<char>, value: Seq<char>) -> Seq<char> {
    name + "("@ + value + ")"@
}

/// The fields of an event that its log text shows.
pub open spec fn event_fields(e: Event) -> Seq<Seq<char>> {
    match e {
        Event::Ready { socket_name, runtime_dir, width, height } => seq![
                field_text("socket_name"@, debug_quoted(socket_name@)),
                field_text("runtime_dir"@, debug_quoted(runtime_dir@)),
                field_text("width"@, int_text(width as int)),
                field_text("height"@, int_text(height as int)),
            ],
        Event::ResizeRequested { id, edges } => seq![
                field_text("id"@, window_text(id)),
                field_text("edges"@, int_text(edges as int)),
            ],
        Event::MaximizeRequested { id, maximized } => seq![
                field_text("id"@, window_text(id)),
                field_text("maximized"@, bool_text(maximized)),
            ],
        Event::WindowDecorated { id, decorated } => seq![
                field_text("id"@, window_text(id)),
                field_text("decorated"@, bool_text(decorated)),
            ],
        Event::WindowBuffer { id, width, height, title, app_id, decorated, .. } => seq![
                field_text("id"@, window_text(id)),
                field_text("width"@, int_text(width as int)),
                field_text("height"@, int_text(height as int)),
                field_text("title"@, debug_quoted(title@)),
                field_text("app_id"@, debug_quoted(app_id@)),
                field_text("decorated"@, bool_text(decorated)),
            ],
        Event::PopupBuffer { id, parent, width, height, .. } => seq![
                field_text("id"@, window_text(id)),
                field_text("parent"@, parent_text(parent)),
                field_text("width"@, int_text(width as int)),
                field_text("height"@, int_text(height as int)),
            ],
        Event::LayerBuffer { id, layer, x, y, width, height, .. } => seq![
                field_text("id"@, window_text(id)),
                field_text("layer"@, int_text(layer as int)),
                field_text("x"@, int_text(x as int)),
                field_text("y"@, int_text(y as int)),
                field_text("width"@, int_text(width as int)),
                field_text("height"@, int_text(height as int)),
            ],
        Event::XwaylandReady { display } => seq![field_text("display"@, int_text(display as int))],
        Event::WindowDmabuf { id, width, height, .. } => seq![
                field_text("id"@, window_text(id)),
                field_text("width"@, int_text(width as int)),
                field_text("height"@, int_text(height as int)),
            ],
        Event::OutputResized { width, height } => seq![
                field_text("width"@, int_text(width as int)),
                field_text("height"@, int_text(height as int)),
            ],
        Event::DragIcon { width, height, hot_x, hot_y, .. } => seq![
                field_text("width"@, int_text(width as int)),
                field_text("height"@, int_text(height as int)),
                field_text("hot_x"@, int_text(hot_x as int)),
                field_text("hot_y"@, int_text(hot_y as int)),
            ],
        _ => Seq::empty(),
    }
}

/// The log text of an event. Pixels and planes are left out.
pub open spec fn event_text(e: Event) -> Seq<char> {
    match e {
        Event::Ready { .. } => struct_text("Ready"@, event_fields(e), false),
        Event::WindowAdded(id) => tuple_text("WindowAdded"@, window_text(id)),
        Event::WindowRemoved(id) => tuple_text("WindowRemoved"@, window_text(id)),
        Event::MoveRequested(id) => tuple_text("MoveRequested"@, window_text(id)),
        Event::ResizeRequested { .. } => struct_text("ResizeRequested"@, event_fields(e), false),
        Event::MaximizeRequested { .. } => struct_text("MaximizeRequested"@, event_fields(e), false),
        Event::MinimizeRequested(id) => tuple_text("MinimizeRequested"@, window_text(id)),
        Event::WindowDecorated { .. } => struct_text("WindowDecorated"@, event_fields(e), false),
        Event::WindowBuffer { .. } => struct_text("WindowBuffer"@, event_fields(e), true),
        Event::PopupBuffer { .. } => struct_text("PopupBuffer"@, event_fields(e), true),
        Event::PopupRemoved(id) => tuple_text("PopupRemoved"@, window_text(id)),
        Event::LayerBuffer { .. } => struct_text("LayerBuffer"@, event_fields(e), true),
        Event::LayerRemoved(id) => tuple_text("LayerRemoved"@, window_text(id)),
        Event::ActivationRequested(id) => tuple_text("ActivationRequested"@, window_text(id)),
        Event::IdleInhibited(on) => tuple_text("IdleInhibited"@, bool_text(on)),
        Event::XwaylandReady { .. } => struct_text("XwaylandReady"@, event_fields(e), false),
        Event::WindowDmabuf { .. } => struct_text("WindowDmabuf"@, event_fields(e), true),
        Event::OutputResized { .. } => struct_text("OutputResized"@, event_fields(e), false),
        Event::DragStarted => struct_text("DragStarted"@, Seq::empty(), false),
        Event::DragEnded => struct_text("DragEnded"@, Seq::empty(), false),
        Event::DragIcon { .. } => struct_text("DragIcon"@, event_fields(e), true),
        Event::CursorShape(code) => tuple_text("CursorShape"@, int_text(code as int)),
    }
}

/// An integer in decimal.
pub fn int_string(n: i64) -> (r: String)
    requires
        n > i64::MIN,
    ensures
        r@ == int_text(n as int),
{
    if n < 0 {
        let mut out = text::copy_text("-");
        let digits = scan::decimal_chars((-n) as u64);
        text::append(&mut out, text::text_of(&digits).as_str());
        out
    } else {
        let digits = scan::decimal_chars(n as u64);
        text::text_of(&digits)
    }
}

/// `true` or `false`.
fn bool_string(b: bool) -> (r: String)
    ensures
        r@ == bool_text(b),
{
    if b {
        text::copy_text("true")
    } else {
        text::copy_text("false")
    }
}

/// A window id.
fn window_string(id: WindowId) -> (r: String)
    ensures
        r@ == window_text(id),
{
    let digits = scan::decimal_chars(id.0);
    text::concat3("WindowId(", text::text_of(&digits).as_str(), ")")
}

/// An optional window id.
fn parent_string(id: Option<WindowId>) -> (r: String)
    ensures
        r@ == parent_text(id),
{
    match id {
        Some(w) => text::concat3("Some(", window_string(w).as_str(), ")"),
        None => text::copy_text("None"),
    }
}

/// Appends a named field.
fn push_field(fields: &mut Vec<String>, name: &str, value: String)
    ensures
        text::views(final(fields)@) == text::views(old(fields)@).push(field_text(name@, value@)),
{
    let ghost before = fields@;
    fields.push(text::concat3(name, ": ", value.as_str()));
    assert(text::views(fields@) =~= text::views(before).push(field_text(name@, value@)));
}

/// Appends the fields of a size.
fn push_size(fields: &mut Vec<String>, width: i64, height: i64)
    requires
        width > i64::MIN,
        height > i64::MIN,
    ensures
        text::views(final(fields)@) == text::views(old(fields)@).push(
            field_text("width"@, int_text(width as int)),
        ).push(field_text("height"@, int_text(height as int))),
{
    push_field(fields, "width", int_string(width));
    push_field(fields, "height", int_string(height));
}

/// A name with its fields.
fn struct_string(name: &str, fields: Vec<String>, open: bool) -> (r: String)
    ensures
        r@ == struct_text(name@, text::views(fields@), open),
{
    let ghost vs = text::views(fields@);
    let mut all = fields;
    if all.len() == 0 && !open {
        return text::copy_text(name);
    }
    if open {
        all.push(text::copy_text(".."));
        assert(text::views(all@) =~= vs.push(".."@));
    }
    let inner = text::join(&all, ", ");
    let mut out = text::concat3(name, " { ", inner.as_str());
    text::append(&mut out, " }");
    out
}

/// A name with one value in brackets.
fn tuple_string(name: &str, value: String) -> (r: String)
    ensures
        r@ == tuple_text(name@, value@),
{
    let mut out = text::concat3(name, "(", value.as_str());
    text::append(&mut out, ")");
    out
}

impl Event {
    /// The event as it appears in the log: its name and its fields, without the
    /// pixels and planes.
    pub fn describe(&self) -> (r: String)
        ensures
            r@ == event_text(*self),
    {
        let mut f: Vec<String> = Vec::new();
        assert(text::views(f@) =~= Seq::<Seq<char>>::empty());
        match self {
            Event::Ready { socket_name, runtime_dir, width, height } => {
                push_field(&mut f, "socket_name", quote(socket_name.as_str()));
                push_field(&mut f, "runtime_dir", quote(runtime_dir.as_str()));
                push_size(&mut f, *width as i64, *height as i64);
                assert(text::views(f@) =~= event_fields(*self));
                struct_string("Ready", f, false)
            },
            Event::WindowAdded(id) => tuple_string("WindowAdded", window_string(*id)),
            Event::WindowRemoved(id) => tuple_string("WindowRemoved", window_string(*id)),
            Event::MoveRequested(id) => tuple_string("MoveRequested", window_string(*id)),
            Event::ResizeRequested { id, edges } => {
                push_field(&mut f, "id", window_string(*id));
                push_field(&mut f, "edges", int_string(*edges as i64));
                assert(text::views(f@) =~= event_fields(*self));
                struct_string("ResizeRequested", f, false)
            },
            Event::MaximizeRequested { id, maximized } => {
                push_field(&mut f, "id", window_string(*id));
                push_field(&mut f, "maximized", bool_string(*maximized));
                assert(text::views(f@) =~= event_fields(*self));
                struct_string("MaximizeRequested", f, false)
            },
            Event::MinimizeRequested(id) => tuple_string("MinimizeRequested", window_string(*id)),
            Event::WindowDecorated { id, decorated } => {
                push_field(&mut f, "id", window_string(*id));
                push_field(&mut f, "decorated", bool_string(*decorated));
                assert(text::views(f@) =~= event_fields(*self));
                struct_string("WindowDecorated", f, false)
            },
            Event::WindowBuffer { id, width, height, title, app_id, decorated, .. } => {
                push_field(&mut f, "id", window_string(*id));
                push_size(&mut f, *width as i64, *height as i64);
                push_field(&mut f, "title", quote(title.as_str()));
                push_field(&mut f, "app_id", quote(app_id.as_str()));
                push_field(&mut f, "decorated", bool_string(*decorated));
                assert(text::views(f@) =~= event_fields(*self));
                struct_string("WindowBuffer", f, true)
            },
            Event::PopupBuffer { id, parent, width, height, .. } => {
                push_field(&mut f, "id", window_string(*id));
                push_field(&mut f, "parent", parent_string(*parent));
                push_size(&mut f, *width as i64, *height as i64);
                assert(text::views(f@) =~= event_fields(*self));
                struct_string("PopupBuffer", f, true)
            },
            Event::PopupRemoved(id) => tuple_string("PopupRemoved", window_string(*id)),
            Event::LayerBuffer { id, layer, x, y, width, height, .. } => {
                push_field(&mut f, "id", window_string(*id));
                push_field(&mut f, "layer", int_string(*layer as i64));
                push_field(&mut f, "x", int_string(*x as i64));
                push_field(&mut f, "y", int_string(*y as i64));
                push_size(&mut f, *width as i64, *height as i64);
                assert(text::views(f@) =~= event_fields(*self));
                struct_string("LayerBuffer", f, true)
            },
            Event::LayerRemoved(id) => tuple_string("LayerRemoved", window_string(*id)),
            Event::ActivationRequested(id) => tuple_string(
                "ActivationRequested",
                window_string(*id),
            ),
            Event::IdleInhibited(on) => tuple_string("IdleInhibited", bool_string(*on)),
            Event::XwaylandReady { display } => {
                push_field(&mut f, "display", int_string(*display as i64));
                assert(text::views(f@) =~= event_fields(*self));
                struct_string("XwaylandReady", f, false)
            },
            Event::WindowDmabuf { id, width, height, .. } => {
                push_field(&mut f, "id", window_string(*id));
                push_size(&mut f, *width as i64, *height as i64);
                assert(text::views(f@) =~= event_fields(*self));
                struct_string("WindowDmabuf", f, true)
            },
            Event::OutputResized { width, height } => {
                push_size(&mut f, *width as i64, *height as i64);
                assert(text::views(f@) =~= event_fields(*self));
                struct_string("OutputResized", f, false)
            },
            Event::DragStarted => struct_string("DragStarted", f, false),
            Event::DragEnded => struct_string("DragEnded", f, false),
            Event::DragIcon { width, height, hot_x, hot_y, .. } => {
                push_size(&mut f, *width as i64, *height as i64);
                push_field(&mut f, "hot_x", int_string(*hot_x as i64));
                push_field(&mut f, "hot_y", int_string(*hot_y as i64));
                assert(text::views(f@) =~= event_fields(*self));
                struct_string("DragIcon", f, true)
            },
            Event::CursorShape(code) => tuple_string("CursorShape", int_string(*code as i64)),
        }
    }
}

// ---------------------------------------------------------------------------
// Laws
// ---------------------------------------------------------------------------

/// Numbers are written in decimal with a sign where they are negative, truth
/// values and windows as the language writes them.
pub proof fn law_values_are_written_out(n: nat, id: WindowId)
    ensures
        int_text(n as int) == scan::decimal(n),
        n > 0 ==> int_text(-n) == seq!['-'] + scan::decimal(n),
        bool_text(true) == "true"@,
        bool_text(false) == "false"@,
        window_text(id) == "WindowId("@ + scan::decimal(id.0 as nat) + seq![')'],
        parent_text(None) == "None"@,
        parent_text(Some(id)) == "Some("@ + window_text(id) + seq![')'],
{
    reveal_strlit("-");
    reveal_strlit(")");
    assert("-"@ =~= seq!['-']);
    assert(")"@ =~= seq![')']);
}

/// A field is its name, a colon and its value.
proof fn lemma_field(name: Seq<char>, value: Seq<char>, lead: Seq<char>)
    requires
        lead == name + seq![':', ' '],
    ensures
        field_text(name, value) == lead + value,
{
    reveal_strlit(": ");
    assert(field_text(name, value) =~= lead + value);
}

/// The description of an event lists its fields under their own names: all of
/// them, or, with a frame in it, those that fit on a line.
pub proof fn law_events_list_their_fields(e: Event)
    ensures
        match e {
            Event::Ready { socket_name, runtime_dir, width, height } => event_fields(e) == seq![
                "socket_name: "@ + debug_quoted(socket_name@),
                "runtime_dir: "@ + debug_quoted(runtime_dir@),
                "width: "@ + int_text(width as int),
                "height: "@ + int_text(height as int),
            ],
            Event::ResizeRequested { id, edges } => event_fields(e) == seq![
                "id: "@ + window_text(id),
                "edges: "@ + int_text(edges as int),
            ],
            Event::MaximizeRequested { id, maximized } => event_fields(e) == seq![
                "id: "@ + window_text(id),
                "maximized: "@ + bool_text(maximized),
            ],
            Event::WindowDecorated { id, decorated } => event_fields(e) == seq![
                "id: "@ + window_text(id),
                "decorated: "@ + bool_text(decorated),
            ],
            Event::WindowBuffer { id, width, height, title, app_id, decorated, .. } => event_fields(e) == seq![
                "id: "@ + window_text(id),
                "width: "@ + int_text(width as int),
                "height: "@ + int_text(height as int),
                "title: "@ + debug_quoted(title@),
                "app_id: "@ + debug_quoted(app_id@),
                "decorated: "@ + bool_text(decorated),
            ],
            Event::PopupBuffer { id, parent, width, height, .. } => event_fields(e) == seq![
                "id: "@ + window_text(id),
                "parent: "@ + parent_text(parent),
                "width: "@ + int_text(width as int),
                "height: "@ + int_text(height as int),
            ],
            Event::LayerBuffer { id, layer, x, y, width, height, .. } => event_fields(e) == seq![
                "id: "@ + window_text(id),
                "layer: "@ + int_text(layer as int),
                "x: "@ + int_text(x as int),
                "y: "@ + int_text(y as int),
                "width: "@ + int_text(width as int),
                "height: "@ + int_text(height as int),
            ],
            Event::XwaylandReady { display } => event_fields(e) == seq![
                "display: "@ + int_text(display as int),
            ],
            Event::WindowDmabuf { id, width, height, .. } => event_fields(e) == seq![
                "id: "@ + window_text(id),
                "width: "@ + int_text(width as int),
                "height: "@ + int_text(height as int),
            ],
            Event::OutputResized { width, height } => event_fields(e) == seq![
                "width: "@ + int_text(width as int),
                "height: "@ + int_text(height as int),
            ],
            Event::DragIcon { width, height, hot_x, hot_y, .. } => event_fields(e) == seq![
                "width: "@ + int_text(width as int),
                "height: "@ + int_text(height as int),
                "hot_x: "@ + int_text(hot_x as int),
                "hot_y: "@ + int_text(hot_y as int),
            ],
            _ => event_fields(e).len() == 0,
        },
{
    reveal_strlit("app_id");
    reveal_strlit("app_id: ");
    assert("app_id: "@ =~= "app_id"@ + seq![':', ' ']);
    reveal_strlit("decorated");
    reveal_strlit("decorated: ");
    assert("decorated: "@ =~= "decorated"@ + seq![':', ' ']);
    reveal_strlit("display");
    reveal_strlit("display: ");
    assert("display: "@ =~= "display"@ + seq![':', ' ']);
    reveal_strlit("edges");
    reveal_strlit("edges: ");
    assert("edges: "@ =~= "edges"@ + seq![':', ' ']);
    reveal_strlit("height");
    reveal_strlit("height: ");
    assert("height: "@ =~= "height"@ + seq![':', ' ']);
    reveal_strlit("hot_x");
    reveal_strlit("hot_x: ");
    assert("hot_x: "@ =~= "hot_x"@ + seq![':', ' ']);
    reveal_strlit("hot_y");
    reveal_strlit("hot_y: ");
    assert("hot_y: "@ =~= "hot_y"@ + seq![':', ' ']);
    reveal_strlit("id");
    reveal_strlit("id: ");
    assert("id: "@ =~= "id"@ + seq![':', ' ']);
    reveal_strlit("layer");
    reveal_strlit("layer: ");
    assert("layer: "@ =~= "layer"@ + seq![':', ' ']);
    reveal_strlit("maximized");
    reveal_strlit("maximized: ");
    assert("maximized: "@ =~= "maximized"@ + seq![':', ' ']);
    reveal_strlit("parent");
    reveal_strlit("parent: ");
    assert("parent: "@ =~= "parent"@ + seq![':', ' ']);
    reveal_strlit("runtime_dir");
    reveal_strlit("runtime_dir: ");
    assert("runtime_dir: "@ =~= "runtime_dir"@ + seq![':', ' ']);
    reveal_strlit("socket_name");
    reveal_strlit("socket_name: ");
    assert("socket_name: "@ =~= "socket_name"@ + seq![':', ' ']);
    reveal_strlit("title");
    reveal_strlit("title: ");
    assert("title: "@ =~= "title"@ + seq![':', ' ']);
    reveal_strlit("width");
    reveal_strlit("width: ");
    assert("width: "@ =~= "width"@ + seq![':', ' ']);
    reveal_strlit("x");
    reveal_strlit("x: ");
    assert("x: "@ =~= "x"@ + seq![':', ' ']);
    reveal_strlit("y");
    reveal_strlit("y: ");
    assert("y: "@ =~= "y"@ + seq![':', ' ']);
    match e {
        Event::Ready { socket_name, runtime_dir, width, height } => {
            lemma_field("socket_name"@, debug_quoted(socket_name@), "socket_name: "@);
            lemma_field("runtime_dir"@, debug_quoted(runtime_dir@), "runtime_dir: "@);
            lemma_field("width"@, int_text(width as int), "width: "@);
            lemma_field("height"@, int_text(height as int), "height: "@);
        },
        Event::ResizeRequested { id, edges } => {
            lemma_field("id"@, window_text(id), "id: "@);
            lemma_field("edges"@, int_text(edges as int), "edges: "@);
        },
        Event::MaximizeRequested { id, maximized } => {
            lemma_field("id"@, window_text(id), "id: "@);
            lemma_field("maximized"@, bool_text(maximized), "maximized: "@);
        },
        Event::WindowDecorated { id, decorated } => {
            lemma_field("id"@, window_text(id), "id: "@);
            lemma_field("decorated"@, bool_text(decorated), "decorated: "@);
        },
        Event::WindowBuffer { id, width, height, title, app_id, decorated, .. } => {
            lemma_field("id"@, window_text(id), "id: "@);
            lemma_field("width"@, int_text(width as int), "width: "@);
            lemma_field("height"@, int_text(height as int), "height: "@);
            lemma_field("title"@, debug_quoted(title@), "title: "@);
            lemma_field("app_id"@, debug_quoted(app_id@), "app_id: "@);
            lemma_field("decorated"@, bool_text(decorated), "decorated: "@);
        },
        Event::PopupBuffer { id, parent, width, height, .. } => {
            lemma_field("id"@, window_text(id), "id: "@);
            lemma_field("parent"@, parent_text(parent), "parent: "@);
            lemma_field("width"@, int_text(width as int), "width: "@);
            lemma_field("height"@, int_text(height as int), "height: "@);
        },
        Event::LayerBuffer { id, layer, x, y, width, height, .. } => {
            lemma_field("id"@, window_text(id), "id: "@);
            lemma_field("layer"@, int_text(layer as int), "layer: "@);
            lemma_field("x"@, int_text(x as int), "x: "@);
            lemma_field("y"@, int_text(y as int), "y: "@);
            lemma_field("width"@, int_text(width as int), "width: "@);
            lemma_field("height"@, int_text(height as int), "height: "@);
        },
        Event::XwaylandReady { display } => {
            lemma_field("display"@, int_text(display as int), "display: "@);
        },
        Event::WindowDmabuf { id, width, height, .. } => {
            lemma_field("id"@, window_text(id), "id: "@);
            lemma_field("width"@, int_text(width as int), "width: "@);
            lemma_field("height"@, int_text(height as int), "height: "@);
        },
        Event::OutputResized { width, height } => {
            lemma_field("width"@, int_text(width as int), "width: "@);
            lemma_field("height"@, int_text(height as int), "height: "@);
        },
        Event::DragIcon { width, height, hot_x, hot_y, .. } => {
            lemma_field("width"@, int_text(width as int), "width: "@);
            lemma_field("height"@, int_text(height as int), "height: "@);
            lemma_field("hot_x"@, int_text(hot_x as int), "hot_x: "@);
            lemma_field("hot_y"@, int_text(hot_y as int), "hot_y: "@);
        },
        _ => {},
    }
}

/// An event is described by its name with its fields in braces, two dots standing
/// for a frame, or with its one value in brackets, or by its name alone.
pub proof fn law_events_are_described_by_name(e: Event)
    ensures
        ({
            let all = text::joined(event_fields(e), ", "@);
            let some = text::joined(event_fields(e).push(".."@), ", "@);
            match e {
                Event::Ready { .. } => event_text(e) == "Ready"@ + " { "@ + all + " }"@,
                Event::ResizeRequested { .. } => event_text(e) == "ResizeRequested"@ + " { "@ + all + " }"@,
                Event::MaximizeRequested { .. } => event_text(e) == "MaximizeRequested"@ + " { "@ + all + " }"@,
                Event::WindowDecorated { .. } => event_text(e) == "WindowDecorated"@ + " { "@ + all + " }"@,
                Event::WindowBuffer { .. } => event_text(e) == "WindowBuffer"@ + " { "@ + some + " }"@,
                Event::PopupBuffer { .. } => event_text(e) == "PopupBuffer"@ + " { "@ + some + " }"@,
                Event::LayerBuffer { .. } => event_text(e) == "LayerBuffer"@ + " { "@ + some + " }"@,
                Event::XwaylandReady { .. } => event_text(e) == "XwaylandReady"@ + " { "@ + all + " }"@,
                Event::WindowDmabuf { .. } => event_text(e) == "WindowDmabuf"@ + " { "@ + some + " }"@,
                Event::OutputResized { .. } => event_text(e) == "OutputResized"@ + " { "@ + all + " }"@,
                Event::DragIcon { .. } => event_text(e) == "DragIcon"@ + " { "@ + some + " }"@,
                Event::WindowAdded(x) => event_text(e) == "WindowAdded"@ + "("@ + window_text(x) + ")"@,
                Event::WindowRemoved(x) => event_text(e) == "WindowRemoved"@ + "("@ + window_text(x) + ")"@,
                Event::MoveRequested(x) => event_text(e) == "MoveRequested"@ + "("@ + window_text(x) + ")"@,
                Event::MinimizeRequested(x) => event_text(e) == "MinimizeRequested"@ + "("@ + window_text(x) + ")"@,
                Event::PopupRemoved(x) => event_text(e) == "PopupRemoved"@ + "("@ + window_text(x) + ")"@,
                Event::LayerRemoved(x) => event_text(e) == "LayerRemoved"@ + "("@ + window_text(x) + ")"@,
                Event::ActivationRequested(x) => event_text(e) == "ActivationRequested"@ + "("@ + window_text(x) + ")"@,
                Event::IdleInhibited(x) => event_text(e) == "IdleInhibited"@ + "("@ + bool_text(x) + ")"@,
                Event::CursorShape(x) => event_text(e) == "CursorShape"@ + "("@ + int_text(x as int) + ")"@,
                Event::DragStarted => event_text(e) == "DragStarted"@,
                Event::DragEnded => event_text(e) == "DragEnded"@,
            }
        }),
{
}

} // verus!
