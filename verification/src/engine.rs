//! The state of the compositor engine: which surfaces are windows, popups,
//! layers or X11 windows, and what happens when clients commit and ask.
//!
//! Surfaces are numbered by the host; a surface has one role at a time. Events
//! for the shell are returned, and requests to clients are returned as
//! [`Action`]s for the host to carry out.

use std::collections::{HashMap, HashSet};

use vstd::prelude::*;

use crate::event::{Command, DmabufPlane, Event, OUTPUT_H, OUTPUT_W};
use crate::frame;
use crate::frame::{CachedFrame, CachedView, Rect, SurfaceNode};
use crate::model::WindowId;
use crate::protocol;
use crate::protocol::{Anchor, Layer, Margins, ResizeEdge};

verus! {

broadcast use vstd::std_specs::hash::group_hash_axioms;

/// What a surface is.
#[derive(Debug, Clone, Copy, PartialEq, Eq)]
pub enum Role {
    /// A toplevel window. `(ox, oy)` is where its declared geometry starts within
    /// the surface.
    Toplevel { decorated: bool, ox: i32, oy: i32 },
    /// A menu, dropdown or tooltip, at `(ox, oy)` of its parent.
    Popup { parent: Option<WindowId>, ox: i32, oy: i32 },
    /// A bar, wallpaper or notification.
    Layer(Layer),
    /// An X11 window, with its X11 id.
    X11(u32),
}

/// A surface with a role.
#[derive(Debug, Clone, Copy, PartialEq, Eq)]
pub struct Entry {
    pub surface: u64,
    pub id: WindowId,
    pub role: Role,
}

/// The Wayland-protocol engine.
pub struct FocusState {
    /// Surfaces with a role, in the order in which they appeared.
    entries: Vec<Entry>,
    /// Last-known pixels per surface.
    surface_pixels: HashMap<u64, CachedFrame>,
    /// The icon of the drag-and-drop in flight.
    dnd_icon: Option<u64>,
    /// Surfaces that keep the session from going idle.
    idle_inhibitors: HashSet<u64>,
    next_window_id: u64,
    current_output_size: (i32, i32),
    /// Whether GPU buffers are handed to the UI thread.
    dmabuf_enabled: bool,
}

/// What a [`FocusState`] holds.
#[verifier::ext_equal]
pub struct EngineView {
    pub entries: Seq<Entry>,
    pub pixels: Map<u64, CachedView>,
    pub dnd_icon: Option<u64>,
    pub inhibitors: Set<u64>,
    pub next_id: u64,
    pub output: (i32, i32),
    pub dmabuf_enabled: bool,
}

/// Position of the entry for a surface, or the number of entries.
pub open spec fn surface_index(entries: Seq<Entry>, surface: u64) -> int
    decreases entries.len(),
{
    if entries.len() == 0 || entries[0].surface == surface {
        0
    } else {
        1 + surface_index(entries.drop_first(), surface)
    }
}

/// Position of the entry with an id, or the number of entries.
pub open spec fn id_index(entries: Seq<Entry>, id: WindowId) -> int
    decreases entries.len(),
{
    if entries.len() == 0 || entries[0].id == id {
        0
    } else {
        1 + id_index(entries.drop_first(), id)
    }
}

/// The entry found is for the surface, and none before it is.
pub proof fn lemma_surface_index(entries: Seq<Entry>, surface: u64)
    ensures
        0 <= surface_index(entries, surface) <= entries.len(),
        surface_index(entries, surface) < entries.len() ==> entries[surface_index(
            entries,
            surface,
        )].surface == surface,
        forall|j: int|
            0 <= j < surface_index(entries, surface) ==> (#[trigger] entries[j]).surface
                != surface,
    decreases entries.len(),
{
    if entries.len() > 0 && entries[0].surface != surface {
        let d = entries.drop_first();
        lemma_surface_index(d, surface);
        assert forall|j: int| 0 <= j < surface_index(entries, surface) implies (
        #[trigger] entries[j]).surface != surface by {
            if j > 0 {
                assert(d[j - 1] == entries[j]);
            }
        }
    }
}

/// The entry found has the id, and none before it has.
pub proof fn lemma_id_index(entries: Seq<Entry>, id: WindowId)
    ensures
        0 <= id_index(entries, id) <= entries.len(),
        id_index(entries, id) < entries.len() ==> entries[id_index(entries, id)].id == id,
        forall|j: int|
            0 <= j < id_index(entries, id) ==> (#[trigger] entries[j]).id != id,
    decreases entries.len(),
{
    if entries.len() > 0 && entries[0].id != id {
        let d = entries.drop_first();
        lemma_id_index(d, id);
        assert forall|j: int| 0 <= j < id_index(entries, id) implies (#[trigger] entries[j]).id
            != id by {
            if j > 0 {
                assert(d[j - 1] == entries[j]);
            }
        }
    }
}

proof fn lemma_surface_index_unique(entries: Seq<Entry>, surface: u64, k: int)
    requires
        0 <= k <= entries.len(),
        k < entries.len() ==> entries[k].surface == surface,
        forall|j: int| 0 <= j < k ==> (#[trigger] entries[j]).surface != surface,
    ensures
        surface_index(entries, surface) == k,
{
    lemma_surface_index(entries, surface);
    let f = surface_index(entries, surface);
    if f < k {
        assert(entries[f].surface != surface);
    }
}

proof fn lemma_id_index_unique(entries: Seq<Entry>, id: WindowId, k: int)
    requires
        0 <= k <= entries.len(),
        k < entries.len() ==> entries[k].id == id,
        forall|j: int| 0 <= j < k ==> (#[trigger] entries[j]).id != id,
    ensures
        id_index(entries, id) == k,
{
    lemma_id_index(entries, id);
    let f = id_index(entries, id);
    if f < k {
        assert(entries[f].id != id);
    }
}

impl EngineView {
    /// The engine as it starts: nothing mapped, the default output size.
    pub open spec fn initial(dmabuf_enabled: bool) -> EngineView {
        EngineView {
            entries: Seq::empty(),
            pixels: Map::empty(),
            dnd_icon: None,
            inhibitors: Set::empty(),
            next_id: 0,
            output: (OUTPUT_W, OUTPUT_H),
            dmabuf_enabled,
        }
    }

    /// Surfaces and ids are distinct, ids lie below the next one, and cached
    /// frames have pixels of their size.
    pub open spec fn wf(self) -> bool {
        &&& forall|i: int, j: int|
            0 <= i < j < self.entries.len() ==> (#[trigger] self.entries[i]).surface != (
            #[trigger] self.entries[j]).surface && self.entries[i].id != self.entries[j].id
        &&& forall|i: int|
            0 <= i < self.entries.len() ==> (#[trigger] self.entries[i]).id.0 < self.next_id
        &&& frame::cache_ok(self.pixels)
    }

    /// The entry of a surface.
    pub open spec fn entry(self, surface: u64) -> Option<Entry> {
        let k = surface_index(self.entries, surface);
        if k < self.entries.len() {
            Some(self.entries[k])
        } else {
            None
        }
    }

    /// The entry with an id.
    pub open spec fn by_id(self, id: WindowId) -> Option<Entry> {
        let k = id_index(self.entries, id);
        if k < self.entries.len() {
            Some(self.entries[k])
        } else {
            None
        }
    }

    /// The engine after a surface took a role, with the next id. A surface that
    /// had a role before gives it up.
    pub open spec fn with_role(self, surface: u64, role: Role) -> EngineView {
        let k = surface_index(self.entries, surface);
        let rest = if k < self.entries.len() {
            self.entries.remove(k)
        } else {
            self.entries
        };
        EngineView {
            entries: rest.push(Entry { surface, id: WindowId(self.next_id), role }),
            next_id: (self.next_id + 1) as u64,
            ..self
        }
    }

    /// The engine after a surface gave up its role.
    pub open spec fn without(self, surface: u64) -> EngineView {
        let k = surface_index(self.entries, surface);
        if k < self.entries.len() {
            EngineView { entries: self.entries.remove(k), ..self }
        } else {
            self
        }
    }

    /// The engine with the role of a surface changed.
    pub open spec fn with_changed(self, surface: u64, role: Role) -> EngineView {
        let k = surface_index(self.entries, surface);
        if k < self.entries.len() {
            EngineView {
                entries: self.entries.update(k, Entry { role, ..self.entries[k] }),
                ..self
            }
        } else {
            self
        }
    }
}

/// Giving up a role keeps the engine well-formed, and only that surface loses
/// its entry.
pub proof fn lemma_without_wf(e: EngineView, surface: u64)
    requires
        e.wf(),
    ensures
        e.without(surface).wf(),
        e.without(surface).entry(surface) is None,
        forall|s: u64| s != surface ==> #[trigger] e.without(surface).entry(s) == e.entry(s),
{
    let k = surface_index(e.entries, surface);
    lemma_surface_index(e.entries, surface);
    let m = e.without(surface);
    if k < e.entries.len() {
        assert forall|i: int| 0 <= i < m.entries.len() implies #[trigger] m.entries[i]
            == e.entries[if i < k {
            i
        } else {
            i + 1
        }] by {}
        assert forall|i: int, j: int| 0 <= i < j < m.entries.len() implies (
        #[trigger] m.entries[i]).surface != (#[trigger] m.entries[j]).surface && m.entries[i].id
            != m.entries[j].id by {
            let x = if i < k {
                i
            } else {
                i + 1
            };
            let y = if j < k {
                j
            } else {
                j + 1
            };
            assert(e.entries[x].surface != e.entries[y].surface && e.entries[x].id
                != e.entries[y].id);
        }
        assert forall|i: int| 0 <= i < m.entries.len() implies (#[trigger] m.entries[i]).id.0
            < m.next_id by {
            let x = if i < k {
                i
            } else {
                i + 1
            };
            assert(e.entries[x].id.0 < e.next_id);
        }
        lemma_surface_index(m.entries, surface);
        let f = surface_index(m.entries, surface);
        if f < m.entries.len() {
            let x = if f < k {
                f
            } else {
                f + 1
            };
            assert(m.entries[f] == e.entries[x]);
            if x < k {
                assert(e.entries[x].surface != e.entries[k].surface);
            } else {
                assert(e.entries[k].surface != e.entries[x].surface);
            }
        }
        assert forall|s: u64| s != surface implies #[trigger] m.entry(s) == e.entry(s) by {
            lemma_surface_index(e.entries, s);
            let g = surface_index(e.entries, s);
            let t = if g < k {
                g
            } else {
                g - 1
            };
            if g < e.entries.len() {
                assert(g != k);
            }
            assert forall|j: int| 0 <= j < t implies (#[trigger] m.entries[j]).surface != s by {
                let x = if j < k {
                    j
                } else {
                    j + 1
                };
                assert(m.entries[j] == e.entries[x]);
                assert(e.entries[x].surface != s);
            }
            lemma_surface_index_unique(m.entries, s, t);
        }
    }
}

/// Taking a role keeps the engine well-formed; the new id was not in use.
pub proof fn lemma_with_role_wf(e: EngineView, surface: u64, role: Role)
    requires
        e.wf(),
        e.next_id < u64::MAX,
    ensures
        e.with_role(surface, role).wf(),
        e.with_role(surface, role).entry(surface) == Some(
            Entry { surface, id: WindowId(e.next_id), role },
        ),
        forall|s: u64|
            s != surface ==> #[trigger] e.with_role(surface, role).entry(s) == e.entry(s),
        e.by_id(WindowId(e.next_id)) is None,
{
    let rest = e.without(surface);
    lemma_without_wf(e, surface);
    let m = e.with_role(surface, role);
    let n = rest.entries.len() as int;
    lemma_surface_index(rest.entries, surface);
    lemma_id_index(e.entries, WindowId(e.next_id));
    assert(m.entries =~= rest.entries.push(Entry { surface, id: WindowId(e.next_id), role }));
    assert forall|i: int| 0 <= i < n implies (#[trigger] m.entries[i]).surface != surface by {
        assert(m.entries[i] == rest.entries[i]);
        assert(surface_index(rest.entries, surface) == n);
    }
    lemma_surface_index_unique(m.entries, surface, n);
    assert forall|s: u64| s != surface implies #[trigger] m.entry(s) == e.entry(s) by {
        assert(rest.entry(s) == e.entry(s));
        lemma_surface_index(rest.entries, s);
        let g = surface_index(rest.entries, s);
        if g < n {
            assert forall|j: int| 0 <= j < g implies (#[trigger] m.entries[j]).surface != s by {
                assert(m.entries[j] == rest.entries[j]);
            }
            lemma_surface_index_unique(m.entries, s, g);
        } else {
            assert forall|j: int| 0 <= j < n + 1 implies (#[trigger] m.entries[j]).surface != s by {
                if j < n {
                    assert(m.entries[j] == rest.entries[j]);
                }
            }
            lemma_surface_index_unique(m.entries, s, n + 1);
        }
    }
    assert forall|i: int, j: int| 0 <= i < j < m.entries.len() implies (
    #[trigger] m.entries[i]).surface != (#[trigger] m.entries[j]).surface && m.entries[i].id
        != m.entries[j].id by {
        assert(m.entries[i] == rest.entries[i]);
        assert(rest.entries[i].id.0 < rest.next_id);
        if j < n {
            assert(m.entries[j] == rest.entries[j]);
        }
    }
    assert forall|i: int| 0 <= i < m.entries.len() implies (#[trigger] m.entries[i]).id.0
        < m.next_id by {
        if i < n {
            assert(m.entries[i] == rest.entries[i]);
            assert(rest.entries[i].id.0 < rest.next_id);
        }
    }
}

/// Changing a role keeps the engine well-formed.
pub proof fn lemma_with_changed_wf(e: EngineView, surface: u64, role: Role)
    requires
        e.wf(),
    ensures
        e.with_changed(surface, role).wf(),
{
    let m = e.with_changed(surface, role);
    lemma_surface_index(e.entries, surface);
    assert forall|i: int, j: int| 0 <= i < j < m.entries.len() implies (
    #[trigger] m.entries[i]).surface != (#[trigger] m.entries[j]).surface && m.entries[i].id
        != m.entries[j].id by {
        assert(e.entries[i].surface != e.entries[j].surface && e.entries[i].id
            != e.entries[j].id);
    }
    assert forall|i: int| 0 <= i < m.entries.len() implies (#[trigger] m.entries[i]).id.0
        < m.next_id by {
        assert(e.entries[i].id.0 < e.next_id);
    }
}

impl View for FocusState {
    type V = EngineView;

    closed spec fn view(&self) -> EngineView {
        EngineView {
            entries: self.entries@,
            pixels: frame::cache_view(self.surface_pixels@),
            dnd_icon: self.dnd_icon,
            inhibitors: self.idle_inhibitors@,
            next_id: self.next_window_id,
            output: self.current_output_size,
            dmabuf_enabled: self.dmabuf_enabled,
        }
    }
}

impl FocusState {
    /// An engine without any client.
    pub fn new(dmabuf_enabled: bool) -> (r: Self)
        ensures
            r@ == EngineView::initial(dmabuf_enabled),
            r@.wf(),
    {
        let r = FocusState {
            entries: Vec::new(),
            surface_pixels: HashMap::new(),
            dnd_icon: None,
            idle_inhibitors: HashSet::new(),
            next_window_id: 0,
            current_output_size: (OUTPUT_W, OUTPUT_H),
            dmabuf_enabled,
        };
        assert(r@ =~= EngineView::initial(dmabuf_enabled));
        r
    }

    /// Position of the entry for a surface.
    fn find_surface(&self, surface: u64) -> (r: Option<usize>)
        ensures
            match r {
                Some(k) => k == surface_index(self@.entries, surface) && k < self@.entries.len(),
                None => surface_index(self@.entries, surface) == self@.entries.len(),
            },
    {
        let mut k: usize = 0;
        while k < self.entries.len()
            invariant
                k <= self.entries@.len(),
                forall|j: int| 0 <= j < k ==> (#[trigger] self.entries@[j]).surface != surface,
            decreases self.entries@.len() - k,
        {
            if self.entries[k].surface == surface {
                proof {
                    lemma_surface_index_unique(self.entries@, surface, k as int);
                }
                return Some(k);
            }
            k += 1;
        }
        proof {
            lemma_surface_index_unique(self.entries@, surface, k as int);
        }
        None
    }

    /// Position of the entry with an id.
    fn find_id(&self, id: WindowId) -> (r: Option<usize>)
        ensures
            match r {
                Some(k) => k == id_index(self@.entries, id) && k < self@.entries.len(),
                None => id_index(self@.entries, id) == self@.entries.len(),
            },
    {
        let mut k: usize = 0;
        while k < self.entries.len()
            invariant
                k <= self.entries@.len(),
                forall|j: int| 0 <= j < k ==> (#[trigger] self.entries@[j]).id != id,
            decreases self.entries@.len() - k,
        {
            if self.entries[k].id == id {
                proof {
                    lemma_id_index_unique(self.entries@, id, k as int);
                }
                return Some(k);
            }
            k += 1;
        }
        proof {
            lemma_id_index_unique(self.entries@, id, k as int);
        }
        None
    }

    /// The entry of a surface.
    pub fn entry_of(&self, surface: u64) -> (r: Option<Entry>)
        ensures
            r == self@.entry(surface),
    {
        match self.find_surface(surface) {
            Some(k) => Some(self.entries[k]),
            None => None,
        }
    }

    /// The surface that shows the window with the id.
    pub fn surface_for(&self, id: WindowId) -> (r: Option<u64>)
        ensures
            r == match self@.by_id(id) {
                Some(e) => Some(e.surface),
                None => None,
            },
    {
        match self.find_id(id) {
            Some(k) => Some(self.entries[k].surface),
            None => None,
        }
    }

    /// The id of the window that a surface shows.
    pub fn id_of_surface(&self, surface: u64) -> (r: Option<WindowId>)
        ensures
            r == match self@.entry(surface) {
                Some(e) => Some(e.id),
                None => None,
            },
    {
        match self.find_surface(surface) {
            Some(k) => Some(self.entries[k].id),
            None => None,
        }
    }

    /// Whether there is an id left to give.
    pub fn has_ids(&self) -> (r: bool)
        ensures
            r == (self@.next_id < u64::MAX),
    {
        self.next_window_id < u64::MAX
    }

    /// Give a surface a role and the next id.
    fn give_role(&mut self, surface: u64, role: Role) -> (r: WindowId)
        requires
            old(self)@.wf(),
            old(self)@.next_id < u64::MAX,
        ensures
            r == WindowId(old(self)@.next_id),
            final(self)@ == old(self)@.with_role(surface, role),
            final(self)@.wf(),
    {
        let ghost before = self@;
        proof {
            lemma_with_role_wf(before, surface, role);
        }
        match self.find_surface(surface) {
            Some(k) => {
                self.entries.remove(k);
            },
            None => {},
        }
        let id = WindowId(self.next_window_id);
        self.next_window_id = self.next_window_id + 1;
        self.entries.push(Entry { surface, id, role });
        assert(self@ =~= before.with_role(surface, role));
        id
    }

    /// Take the role of a surface away.
    fn take_role(&mut self, surface: u64) -> (r: Option<Entry>)
        requires
            old(self)@.wf(),
        ensures
            r == old(self)@.entry(surface),
            final(self)@ == old(self)@.without(surface),
            final(self)@.wf(),
    {
        let ghost before = self@;
        proof {
            lemma_without_wf(before, surface);
        }
        match self.find_surface(surface) {
            Some(k) => {
                let e = self.entries.remove(k);
                assert(self@ =~= before.without(surface));
                Some(e)
            },
            None => None,
        }
    }
}

// ---------------------------------------------------------------------------
// Surfaces come and go
// ---------------------------------------------------------------------------

impl FocusState {
    /// A client made a toplevel window. It is assumed to draw its own
    /// decorations until it negotiates server-side ones.
    pub fn new_toplevel(&mut self, surface: u64) -> (r: Event)
        requires
            old(self)@.wf(),
            old(self)@.next_id < u64::MAX,
        ensures
            r == Event::WindowAdded(WindowId(old(self)@.next_id)),
            final(self)@ == old(self)@.with_role(
                surface,
                Role::Toplevel { decorated: false, ox: 0, oy: 0 },
            ),
            final(self)@.wf(),
    {
        let id = self.give_role(surface, Role::Toplevel { decorated: false, ox: 0, oy: 0 });
        Event::WindowAdded(id)
    }

    /// A toplevel window is gone.
    pub fn toplevel_destroyed(&mut self, surface: u64) -> (r: Option<Event>)
        requires
            old(self)@.wf(),
        ensures
            final(self)@.wf(),
            match old(self)@.entry(surface) {
                Some(Entry { id, role: Role::Toplevel { .. }, .. }) => r == Some(
                    Event::WindowRemoved(id),
                ) && final(self)@ == old(self)@.without(surface),
                _ => r is None && final(self)@ == old(self)@,
            },
    {
        match self.entry_of(surface) {
            Some(e) => match e.role {
                Role::Toplevel { .. } => {
                    let _ = self.take_role(surface);
                    Some(Event::WindowRemoved(e.id))
                },
                _ => None,
            },
            None => None,
        }
    }

    /// A client opened a popup at `(ox, oy)` of its parent surface. Returns its
    /// id and the id of its parent, where that is known.
    pub fn new_popup(&mut self, surface: u64, parent: Option<u64>, ox: i32, oy: i32) -> (r: (
        WindowId,
        Option<WindowId>,
    ))
        requires
            old(self)@.wf(),
            old(self)@.next_id < u64::MAX,
        ensures
            r.0 == WindowId(old(self)@.next_id),
            r.1 == match parent {
                Some(p) => match old(self)@.entry(p) {
                    Some(e) => Some(e.id),
                    None => None,
                },
                None => None,
            },
            final(self)@ == old(self)@.with_role(surface, Role::Popup { parent: r.1, ox, oy }),
            final(self)@.wf(),
    {
        let parent_id: Option<WindowId> = match parent {
            Some(p) => self.id_of_surface(p),
            None => None,
        };
        let id = self.give_role(surface, Role::Popup { parent: parent_id, ox, oy });
        (id, parent_id)
    }

    /// A popup is gone.
    pub fn popup_destroyed(&mut self, surface: u64) -> (r: Option<Event>)
        requires
            old(self)@.wf(),
        ensures
            final(self)@.wf(),
            match old(self)@.entry(surface) {
                Some(Entry { id, role: Role::Popup { .. }, .. }) => r == Some(
                    Event::PopupRemoved(id),
                ) && final(self)@ == old(self)@.without(surface),
                _ => r is None && final(self)@ == old(self)@,
            },
    {
        match self.entry_of(surface) {
            Some(e) => match e.role {
                Role::Popup { .. } => {
                    let _ = self.take_role(surface);
                    Some(Event::PopupRemoved(e.id))
                },
                _ => None,
            },
            None => None,
        }
    }

    /// A client made a layer surface. Returns the size it is told: the one it
    /// asked for, with 0 dimensions filled to the output.
    pub fn new_layer_surface(&mut self, surface: u64, layer: Layer, desired: (i32, i32)) -> (r: (
        i32,
        i32,
    ))
        requires
            old(self)@.wf(),
            old(self)@.next_id < u64::MAX,
        ensures
            r == protocol::layer_extent(desired, old(self)@.output),
            final(self)@ == old(self)@.with_role(surface, Role::Layer(layer)),
            final(self)@.wf(),
    {
        let size: (i32, i32) = protocol::layer_size(desired, self.current_output_size);
        let _ = self.give_role(surface, Role::Layer(layer));
        size
    }

    /// A layer surface is gone.
    pub fn layer_destroyed(&mut self, surface: u64) -> (r: Option<Event>)
        requires
            old(self)@.wf(),
        ensures
            final(self)@.wf(),
            match old(self)@.entry(surface) {
                Some(Entry { id, role: Role::Layer(_), .. }) => r == Some(Event::LayerRemoved(id))
                    && final(self)@ == old(self)@.without(surface),
                _ => r is None && final(self)@ == old(self)@,
            },
    {
        match self.entry_of(surface) {
            Some(e) => match e.role {
                Role::Layer(_) => {
                    let _ = self.take_role(surface);
                    Some(Event::LayerRemoved(e.id))
                },
                _ => None,
            },
            None => None,
        }
    }

    /// Register a mapped X11 window (with a known surface). A surface that is
    /// registered already stays as it is; without a surface nothing happens.
    pub fn register_x11(&mut self, surface: Option<u64>, window: u32) -> (r: Option<Event>)
        requires
            old(self)@.wf(),
            old(self)@.next_id < u64::MAX,
        ensures
            final(self)@.wf(),
            match surface {
                Some(s) => match old(self)@.entry(s) {
                    Some(Entry { role: Role::X11(_), .. }) => r is None && final(self)@ == old(
                        self,
                    )@,
                    _ => r == Some(Event::WindowAdded(WindowId(old(self)@.next_id)))
                        && final(self)@ == old(self)@.with_role(s, Role::X11(window)),
                },
                None => r is None && final(self)@ == old(self)@,
            },
    {
        match surface {
            Some(s) => {
                if let Some(e) = self.entry_of(s) {
                    if let Role::X11(_) = e.role {
                        return None;
                    }
                }
                let id = self.give_role(s, Role::X11(window));
                Some(Event::WindowAdded(id))
            },
            None => None,
        }
    }

    /// An X11 window was unmapped or destroyed: forget it and its pixels.
    pub fn unregister_x11(&mut self, window: u32) -> (r: Option<Event>)
        requires
            old(self)@.wf(),
        ensures
            final(self)@.wf(),
            ({
                let k = x11_index(old(self)@.entries, window);
                if k < old(self)@.entries.len() {
                    let e = old(self)@.entries[k];
                    r == Some(Event::WindowRemoved(e.id)) && final(self)@ == (EngineView {
                        pixels: old(self)@.pixels.remove(e.surface),
                        ..old(self)@.without(e.surface)
                    })
                } else {
                    r is None && final(self)@ == old(self)@
                }
            }),
    {
        let ghost before = self@;
        let mut k: usize = 0;
        while k < self.entries.len()
            invariant
                k <= self.entries@.len(),
                self@ == before,
                before == old(self)@,
                before.wf(),
                forall|j: int|
                    0 <= j < k ==> (#[trigger] self.entries@[j]).role != Role::X11(window),
            decreases self.entries@.len() - k,
        {
            if let Role::X11(w) = self.entries[k].role {
                if w == window {
                    let e = self.entries[k];
                    proof {
                        lemma_x11_index_unique(self.entries@, window, k as int);
                    }
                    let _ = self.take_role(e.surface);
                    let ghost mid = self@;
                    self.surface_pixels.remove(&e.surface);
                    proof {
                        assert(frame::cache_view(self.surface_pixels@) =~= mid.pixels.remove(
                            e.surface,
                        ));
                        assert(self@ =~= EngineView {
                            pixels: before.pixels.remove(e.surface),
                            ..before.without(e.surface)
                        });
                        lemma_fewer_pixels(mid, e.surface);
                    }
                    return Some(Event::WindowRemoved(e.id));
                }
            }
            k += 1;
        }
        proof {
            lemma_x11_index_unique(self.entries@, window, k as int);
        }
        None
    }
}

/// Position of the first entry for an X11 window, or the number of entries.
pub open spec fn x11_index(entries: Seq<Entry>, window: u32) -> int
    decreases entries.len(),
{
    if entries.len() == 0 || entries[0].role == Role::X11(window) {
        0
    } else {
        1 + x11_index(entries.drop_first(), window)
    }
}

proof fn lemma_x11_index_unique(entries: Seq<Entry>, window: u32, k: int)
    requires
        0 <= k <= entries.len(),
        k < entries.len() ==> entries[k].role == Role::X11(window),
        forall|j: int| 0 <= j < k ==> (#[trigger] entries[j]).role != Role::X11(window),
    ensures
        x11_index(entries, window) == k,
    decreases entries.len(),
{
    if k > 0 {
        let d = entries.drop_first();
        assert(entries[0].role != Role::X11(window));
        assert forall|j: int| 0 <= j < k - 1 implies (#[trigger] d[j]).role != Role::X11(
            window,
        ) by {
            assert(entries[j + 1].role != Role::X11(window));
        }
        lemma_x11_index_unique(d, window, k - 1);
    }
}

/// Forgetting pixels keeps the engine well-formed.
proof fn lemma_fewer_pixels(e: EngineView, surface: u64)
    requires
        e.wf(),
    ensures
        (EngineView { pixels: e.pixels.remove(surface), ..e }).wf(),
{
    let m = EngineView { pixels: e.pixels.remove(surface), ..e };
    assert forall|s: u64| #[trigger] m.pixels.contains_key(s) implies frame::frame_ok(
        m.pixels[s].width as int,
        m.pixels[s].height as int,
        m.pixels[s].pixels,
    ) by {
        assert(e.pixels.contains_key(s));
    }
}

// ---------------------------------------------------------------------------
// Requests of clients
// ---------------------------------------------------------------------------

impl FocusState {
    /// A client asked to be moved interactively. The shell owns window
    /// positions, so it is handed the request and drives the move from the
    /// in-flight pointer drag.
    pub fn move_request(&self, surface: u64) -> (r: Option<Event>)
        ensures
            r == match self@.entry(surface) {
                Some(Entry { id, role: Role::Toplevel { .. }, .. }) => Some(
                    Event::MoveRequested(id),
                ),
                Some(Entry { id, role: Role::X11(_), .. }) => Some(Event::MoveRequested(id)),
                _ => None,
            },
    {
        match self.entry_of(surface) {
            Some(e) => match e.role {
                Role::Toplevel { .. } => Some(Event::MoveRequested(e.id)),
                Role::X11(_) => Some(Event::MoveRequested(e.id)),
                _ => None,
            },
            None => None,
        }
    }

    /// A client asked to be resized interactively. A request without an edge is
    /// dropped.
    pub fn resize_request(&self, surface: u64, edge: ResizeEdge) -> (r: Option<Event>)
        ensures
            match self@.entry(surface) {
                Some(Entry { id, role, .. }) => if (role is Toplevel || role is X11) && edge
                    != ResizeEdge::Unset {
                    match r {
                        Some(Event::ResizeRequested { id: w, edges }) => w == id && edges
                            == protocol::edge_bits(edge),
                        _ => false,
                    }
                } else {
                    r is None
                },
                None => r is None,
            },
    {
        let edges: u32 = protocol::resize_edges_mask(edge);
        proof {
            protocol::law_edge_masks(edge);
        }
        match self.entry_of(surface) {
            Some(e) => {
                let window: bool = match e.role {
                    Role::Toplevel { .. } => true,
                    Role::X11(_) => true,
                    _ => false,
                };
                if window && edges != 0 {
                    Some(Event::ResizeRequested { id: e.id, edges })
                } else {
                    None
                }
            },
            None => None,
        }
    }

    /// A toplevel asked to be maximized or restored. The shell owns window
    /// geometry and answers with the configure the client is waiting for.
    pub fn maximize_request(&self, surface: u64, maximized: bool) -> (r: Option<Event>)
        ensures
            r == match self@.entry(surface) {
                Some(Entry { id, role: Role::Toplevel { .. }, .. }) => Some(
                    Event::MaximizeRequested { id, maximized },
                ),
                _ => None,
            },
    {
        match self.entry_of(surface) {
            Some(e) => match e.role {
                Role::Toplevel { .. } => Some(Event::MaximizeRequested { id: e.id, maximized }),
                _ => None,
            },
            None => None,
        }
    }

    /// A toplevel asked to be minimized.
    pub fn minimize_request(&self, surface: u64) -> (r: Option<Event>)
        ensures
            r == match self@.entry(surface) {
                Some(Entry { id, role: Role::Toplevel { .. }, .. }) => Some(
                    Event::MinimizeRequested(id),
                ),
                _ => None,
            },
    {
        match self.entry_of(surface) {
            Some(e) => match e.role {
                Role::Toplevel { .. } => Some(Event::MinimizeRequested(e.id)),
                _ => None,
            },
            None => None,
        }
    }

    /// The size a window is told when it goes fullscreen.
    pub fn fullscreen_size(&self) -> (r: (i32, i32))
        ensures
            r == protocol::at_least_one(self@.output.0, self@.output.1),
    {
        protocol::size_floor(self.current_output_size.0, self.current_output_size.1)
    }

    /// A client asked for attention.
    pub fn request_activation(&self, surface: u64) -> (r: Option<Event>)
        ensures
            r == match self@.entry(surface) {
                Some(Entry { id, role: Role::Toplevel { .. }, .. }) => Some(
                    Event::ActivationRequested(id),
                ),
                _ => None,
            },
    {
        match self.entry_of(surface) {
            Some(e) => match e.role {
                Role::Toplevel { .. } => Some(Event::ActivationRequested(e.id)),
                _ => None,
            },
            None => None,
        }
    }

    /// The decoration mode of a toplevel was settled.
    pub fn set_decoration_mode(&mut self, surface: u64, server_side: bool) -> (r: Option<Event>)
        requires
            old(self)@.wf(),
        ensures
            final(self)@.wf(),
            match old(self)@.entry(surface) {
                Some(Entry { id, role: Role::Toplevel { ox, oy, .. }, .. }) => r == Some(
                    Event::WindowDecorated { id, decorated: server_side },
                ) && final(self)@ == old(self)@.with_changed(
                    surface,
                    Role::Toplevel { decorated: server_side, ox, oy },
                ),
                _ => r is None && final(self)@ == old(self)@,
            },
    {
        let ghost before = self@;
        match self.find_surface(surface) {
            Some(k) => {
                let e = self.entries[k];
                match e.role {
                    Role::Toplevel { ox, oy, .. } => {
                        let role = Role::Toplevel { decorated: server_side, ox, oy };
                        self.entries.set(k, Entry { surface: e.surface, id: e.id, role });
                        proof {
                            lemma_with_changed_wf(before, surface, role);
                            assert(self@ =~= before.with_changed(surface, role));
                        }
                        Some(Event::WindowDecorated { id: e.id, decorated: server_side })
                    },
                    _ => None,
                }
            },
            None => None,
        }
    }

    /// A client asked for a decoration mode. The shell draws the title bar
    /// itself, and that bar is the drag handle for moving floating windows, so
    /// decorations are always server-side, whatever the client asked for.
    pub fn request_mode(&mut self, surface: u64, _server_side: bool) -> (r: Option<Event>)
        requires
            old(self)@.wf(),
        ensures
            final(self)@.wf(),
            match old(self)@.entry(surface) {
                Some(Entry { id, role: Role::Toplevel { ox, oy, .. }, .. }) => r == Some(
                    Event::WindowDecorated { id, decorated: true },
                ) && final(self)@ == old(self)@.with_changed(
                    surface,
                    Role::Toplevel { decorated: true, ox, oy },
                ),
                _ => r is None && final(self)@ == old(self)@,
            },
    {
        self.set_decoration_mode(surface, true)
    }

    /// A surface keeps the session from going idle. Only the first one is news.
    pub fn inhibit(&mut self, surface: u64) -> (r: Option<Event>)
        requires
            old(self)@.wf(),
        ensures
            final(self)@ == (EngineView {
                inhibitors: old(self)@.inhibitors.insert(surface),
                ..old(self)@
            }),
            final(self)@.wf(),
            r == if old(self)@.inhibitors == Set::<u64>::empty() {
                Some(Event::IdleInhibited(true))
            } else {
                None
            },
    {
        let ghost before = self@;
        let was_empty: bool = self.idle_inhibitors.is_empty();
        self.idle_inhibitors.insert(surface);
        assert(self@ =~= EngineView { inhibitors: before.inhibitors.insert(surface), ..before });
        if was_empty {
            Some(Event::IdleInhibited(true))
        } else {
            None
        }
    }

    /// A surface no longer keeps the session from going idle. The last one is
    /// news, and so is one when there was none.
    pub fn uninhibit(&mut self, surface: u64) -> (r: Option<Event>)
        requires
            old(self)@.wf(),
        ensures
            final(self)@ == (EngineView {
                inhibitors: old(self)@.inhibitors.remove(surface),
                ..old(self)@
            }),
            final(self)@.wf(),
            r == if final(self)@.inhibitors == Set::<u64>::empty() {
                Some(Event::IdleInhibited(false))
            } else {
                None
            },
    {
        let ghost before = self@;
        self.idle_inhibitors.remove(&surface);
        assert(self@ =~= EngineView { inhibitors: before.inhibitors.remove(surface), ..before });
        let empty: bool = self.idle_inhibitors.is_empty();
        if empty {
            Some(Event::IdleInhibited(false))
        } else {
            None
        }
    }

    /// A client started a drag-and-drop; its icon, if any, follows the cursor.
    pub fn drag_started(&mut self, icon: Option<u64>) -> (r: Event)
        requires
            old(self)@.wf(),
        ensures
            r == Event::DragStarted,
            final(self)@ == (EngineView { dnd_icon: icon, ..old(self)@ }),
            final(self)@.wf(),
    {
        let ghost before = self@;
        self.dnd_icon = icon;
        assert(self@ =~= EngineView { dnd_icon: icon, ..before });
        Event::DragStarted
    }

    /// The drag-and-drop ended: forget the icon along with its pixels; a fresh
    /// drag brings a fresh icon surface.
    pub fn drag_dropped(&mut self) -> (r: Event)
        requires
            old(self)@.wf(),
        ensures
            r == Event::DragEnded,
            final(self)@ == (EngineView {
                dnd_icon: None,
                pixels: match old(self)@.dnd_icon {
                    Some(icon) => old(self)@.pixels.remove(icon),
                    None => old(self)@.pixels,
                },
                ..old(self)@
            }),
            final(self)@.wf(),
    {
        let ghost before = self@;
        if let Some(icon) = self.dnd_icon {
            self.surface_pixels.remove(&icon);
            proof {
                assert(frame::cache_view(self.surface_pixels@) =~= before.pixels.remove(icon));
                lemma_fewer_pixels(before, icon);
            }
        }
        self.dnd_icon = None;
        assert(self@ =~= EngineView { dnd_icon: None, pixels: self@.pixels, ..before });
        Event::DragEnded
    }
}

// ---------------------------------------------------------------------------
// Commits
// ---------------------------------------------------------------------------

/// A GPU buffer that a root surface attached.
pub struct DmabufFrame {
    pub width: u32,
    pub height: u32,
    pub fourcc: u32,
    pub modifier: u64,
    pub planes: Vec<DmabufPlane>,
}

/// Size hints of a window; 0 leaves an axis unconstrained.
#[derive(Debug, Clone, Copy, PartialEq, Eq, Structural)]
pub struct SizeHints {
    pub min_w: i32,
    pub min_h: i32,
    pub max_w: i32,
    pub max_h: i32,
}

/// What a client committed, as far as the engine reads it.
pub struct Commit {
    /// The root of the committed surface's tree.
    pub root: u64,
    /// The surfaces of the tree in painting order (back to front).
    pub nodes: Vec<SurfaceNode>,
    /// The surfaces that are still alive.
    pub alive: Vec<u64>,
    /// The root's new buffer, where it is a GPU buffer.
    pub dmabuf: Option<DmabufFrame>,
    pub title: String,
    pub app_id: String,
    pub hints: SizeHints,
    /// The declared window geometry.
    pub geometry: Option<Rect>,
    /// Whether an X11 window manages itself.
    pub override_redirect: bool,
    pub anchor: Anchor,
    pub margin: Margins,
}

/// Whose frame callbacks are answered after a commit, so that no client is left
/// waiting.
#[derive(Debug, Clone, Copy, PartialEq, Eq, Structural)]
pub enum Drain {
    /// Those of every surface in the tree.
    Tree,
    /// Those of the root alone.
    Root,
    /// Those of the committed surface alone.
    Surface,
}

/// What a commit leads to.
pub struct Committed {
    pub event: Option<Event>,
    pub drain: Drain,
}

/// What a committed surface is to the engine.
#[derive(Debug, Clone, Copy, PartialEq, Eq)]
pub enum CommitKind {
    DragIcon,
    Dmabuf(WindowId),
    Toplevel { id: WindowId, decorated: bool },
    Popup { id: WindowId, parent: Option<WindowId>, ox: i32, oy: i32 },
    Layer { id: WindowId, layer: Layer },
    X11(WindowId),
    Unknown,
}

impl EngineView {
    /// What the root of a commit is: the drag icon before anything else; a
    /// toplevel that attached a GPU buffer hands it over where that is enabled.
    pub open spec fn commit_kind(self, root: u64, dmabuf: bool) -> CommitKind {
        if self.dnd_icon == Some(root) {
            CommitKind::DragIcon
        } else {
            match self.entry(root) {
                Some(e) => match e.role {
                    Role::Toplevel { decorated, .. } => if self.dmabuf_enabled && dmabuf {
                        CommitKind::Dmabuf(e.id)
                    } else {
                        CommitKind::Toplevel { id: e.id, decorated }
                    },
                    Role::Popup { parent, ox, oy } => CommitKind::Popup {
                        id: e.id,
                        parent,
                        ox,
                        oy,
                    },
                    Role::Layer(layer) => CommitKind::Layer { id: e.id, layer },
                    Role::X11(_) => CommitKind::X11(e.id),
                },
                None => CommitKind::Unknown,
            }
        }
    }

    /// The flattened tree of a commit.
    pub open spec fn commit_frame(self, c: Commit) -> Option<(int, int, Seq<u8>)> {
        frame::flattened(frame::pruned(self.pixels, c.alive@), c.root, c.nodes@)
    }

    /// The engine after a commit whose tree was flattened.
    pub open spec fn repainted(self, c: Commit) -> EngineView {
        EngineView {
            pixels: frame::tree_cached(frame::pruned(self.pixels, c.alive@), c.nodes@),
            ..self
        }
    }

    /// The engine after a commit.
    pub open spec fn committed(self, c: Commit) -> EngineView {
        match self.commit_kind(c.root, c.dmabuf is Some) {
            CommitKind::Dmabuf(_) => self,
            CommitKind::Unknown => self,
            CommitKind::Toplevel { id, decorated } => match self.commit_frame(c) {
                Some((w, h, px)) => {
                    let (ox, oy) = frame::cropped(w, h, px, c.geometry).1;
                    self.repainted(c).with_changed(
                        c.root,
                        Role::Toplevel { decorated, ox: ox as i32, oy: oy as i32 },
                    )
                },
                None => self.repainted(c),
            },
            _ => self.repainted(c),
        }
    }
}

/// The event tells of a window's new frame.
pub open spec fn is_window_frame(
    e: Option<Event>,
    window: WindowId,
    f: (int, int, Seq<u8>),
    c: Commit,
    ssd: bool,
) -> bool {
    match e {
        Some(
            Event::WindowBuffer {
                id,
                width,
                height,
                pixels,
                title,
                app_id,
                decorated,
                min_w,
                min_h,
                max_w,
                max_h,
            },
        ) => {
            &&& id == window
            &&& (width as int, height as int, pixels@) == f
            &&& title == c.title
            &&& app_id == c.app_id
            &&& decorated == ssd
            &&& min_w == c.hints.min_w
            &&& min_h == c.hints.min_h
            &&& max_w == c.hints.max_w
            &&& max_h == c.hints.max_h
        },
        _ => false,
    }
}

/// What a commit leads to: whose callbacks are answered, and which event goes
/// out. A tree without pixels gives no event.
pub open spec fn commit_outcome(e: EngineView, c: Commit, r: Committed) -> bool {
    let shown = e.commit_frame(c);
    match e.commit_kind(c.root, c.dmabuf is Some) {
        CommitKind::DragIcon => r.drain == Drain::Tree && match shown {
            Some(f) => match r.event {
                Some(Event::DragIcon { width, height, pixels, hot_x, hot_y }) => (
                    width as int,
                    height as int,
                    pixels@,
                ) == f && hot_x == 0 && hot_y == 0,
                _ => false,
            },
            None => r.event is None,
        },
        CommitKind::Dmabuf(window) => r.drain == Drain::Root && match (r.event, c.dmabuf) {
            (
                Some(Event::WindowDmabuf { id, width, height, fourcc, modifier, planes }),
                Some(d),
            ) => {
                &&& id == window
                &&& width == d.width
                &&& height == d.height
                &&& fourcc == d.fourcc
                &&& modifier == d.modifier
                &&& planes == d.planes
            },
            _ => false,
        },
        CommitKind::Toplevel { id, decorated } => r.drain == Drain::Tree && match shown {
            Some((w, h, px)) => is_window_frame(
                r.event,
                id,
                frame::cropped(w, h, px, c.geometry).0,
                c,
                decorated,
            ),
            None => r.event is None,
        },
        CommitKind::Popup { id: popup, parent: of, ox: x, oy: y } => r.drain == Drain::Tree
            && match shown {
            Some(f) => match r.event {
                Some(Event::PopupBuffer { id, parent, ox, oy, width, height, pixels }) => {
                    &&& id == popup
                    &&& parent == of
                    &&& ox == x
                    &&& oy == y
                    &&& (width as int, height as int, pixels@) == f
                },
                _ => false,
            },
            None => r.event is None,
        },
        CommitKind::Layer { id: window, layer: on } => r.drain == Drain::Tree && match shown {
            Some((w, h, px)) => match r.event {
                Some(Event::LayerBuffer { id, layer, x, y, width, height, pixels }) => {
                    &&& id == window
                    &&& layer == protocol::layer_number(on)
                    &&& (x as int, y as int) == protocol::layer_place(
                        e.output,
                        c.anchor,
                        c.margin,
                        w,
                        h,
                    )
                    &&& (width as int, height as int, pixels@) == (w, h, px)
                },
                _ => false,
            },
            None => r.event is None,
        },
        CommitKind::X11(window) => r.drain == Drain::Tree && match shown {
            Some(f) => is_window_frame(r.event, window, f, c, !c.override_redirect),
            None => r.event is None,
        },
        CommitKind::Unknown => r.drain == Drain::Surface && r.event is None,
    }
}

impl FocusState {
    /// What the root of a commit is, where `dmabuf` says whether its new buffer is
    /// a GPU buffer.
    pub fn kind_of_commit(&self, root: u64, dmabuf: bool) -> (r: CommitKind)
        ensures
            r == self@.commit_kind(root, dmabuf),
    {
        if self.dnd_icon == Some(root) {
            return CommitKind::DragIcon;
        }
        match self.entry_of(root) {
            Some(e) => match e.role {
                Role::Toplevel { decorated, .. } => if self.dmabuf_enabled && dmabuf {
                    CommitKind::Dmabuf(e.id)
                } else {
                    CommitKind::Toplevel { id: e.id, decorated }
                },
                Role::Popup { parent, ox, oy } => CommitKind::Popup { id: e.id, parent, ox, oy },
                Role::Layer(layer) => CommitKind::Layer { id: e.id, layer },
                Role::X11(_) => CommitKind::X11(e.id),
            },
            None => CommitKind::Unknown,
        }
    }

    /// Flatten a tree with the engine's cache.
    fn repaint(&mut self, root: u64, nodes: Vec<SurfaceNode>, alive: &Vec<u64>) -> (r: Option<
        (u32, u32, Vec<u8>),
    >)
        requires
            old(self)@.wf(),
            forall|i: int| 0 <= i < nodes@.len() ==> frame::node_ok(#[trigger] nodes@[i]),
        ensures
            final(self)@ == (EngineView {
                pixels: frame::tree_cached(frame::pruned(old(self)@.pixels, alive@), nodes@),
                ..old(self)@
            }),
            final(self)@.wf(),
            match r {
                Some((w, h, px)) => frame::flattened(
                    frame::pruned(old(self)@.pixels, alive@),
                    root,
                    nodes@,
                ) == Some((w as int, h as int, px@)) && frame::frame_ok(
                    w as int,
                    h as int,
                    px@,
                ),
                None => frame::flattened(
                    frame::pruned(old(self)@.pixels, alive@),
                    root,
                    nodes@,
                ) is None,
            },
    {
        let ghost before = self@;
        let r = frame::composite_tree(root, nodes, alive, &mut self.surface_pixels);
        assert(self@ =~= EngineView {
            pixels: frame::tree_cached(frame::pruned(before.pixels, alive@), nodes@),
            ..before
        });
        r
    }

    /// Remember where a toplevel's declared geometry starts.
    fn set_offset(&mut self, surface: u64, decorated: bool, ox: i32, oy: i32)
        requires
            old(self)@.wf(),
        ensures
            final(self)@ == old(self)@.with_changed(
                surface,
                Role::Toplevel { decorated, ox, oy },
            ),
            final(self)@.wf(),
    {
        let ghost before = self@;
        proof {
            lemma_with_changed_wf(before, surface, Role::Toplevel { decorated, ox, oy });
        }
        if let Some(k) = self.find_surface(surface) {
            let e = self.entries[k];
            self.entries.set(
                k,
                Entry {
                    surface: e.surface,
                    id: e.id,
                    role: Role::Toplevel { decorated, ox, oy },
                },
            );
            assert(self@ =~= before.with_changed(
                surface,
                Role::Toplevel { decorated, ox, oy },
            ));
        }
    }

    /// A client committed a surface. The whole tree is flattened again and sent
    /// to the shell as what its root is: a drag icon, a window, a popup, a layer
    /// or an X11 window. A window is cropped to its declared geometry, dropping
    /// any shadow margin it draws, and the offset is kept so that pointer input
    /// maps back. A surface without a role only has its callbacks answered.
    pub fn commit(&mut self, c: Commit) -> (r: Committed)
        requires
            old(self)@.wf(),
            forall|i: int| 0 <= i < c.nodes@.len() ==> frame::node_ok(#[trigger] c.nodes@[i]),
        ensures
            final(self)@ == old(self)@.committed(c),
            final(self)@.wf(),
            commit_outcome(old(self)@, c, r),
    {
        let kind = self.kind_of_commit(c.root, c.dmabuf.is_some());
        match kind {
            CommitKind::Unknown => {
                return Committed { event: None, drain: Drain::Surface };
            },
            CommitKind::Dmabuf(id) => {
                let event = match c.dmabuf {
                    Some(d) => Some(
                        Event::WindowDmabuf {
                            id,
                            width: d.width,
                            height: d.height,
                            fourcc: d.fourcc,
                            modifier: d.modifier,
                            planes: d.planes,
                        },
                    ),
                    None => None,
                };
                return Committed { event, drain: Drain::Root };
            },
            _ => {},
        }
        let output: (i32, i32) = self.current_output_size;
        let (width, height, pixels) = match self.repaint(c.root, c.nodes, &c.alive) {
            Some(f) => f,
            None => return Committed { event: None, drain: Drain::Tree },
        };
        let event = match kind {
            CommitKind::DragIcon => Event::DragIcon { width, height, pixels, hot_x: 0, hot_y: 0 },
            CommitKind::Popup { id, parent, ox, oy } => Event::PopupBuffer {
                id,
                parent,
                ox,
                oy,
                width,
                height,
                pixels,
            },
            CommitKind::Layer { id, layer } => {
                let (x, y) = protocol::layer_position(output, c.anchor, c.margin, width, height);
                Event::LayerBuffer {
                    id,
                    layer: protocol::layer_to_u8(layer),
                    x,
                    y,
                    width,
                    height,
                    pixels,
                }
            },
            CommitKind::Toplevel { id, decorated } => {
                let ((cw, ch, cropped), (ox, oy)) = frame::crop_to_geometry(
                    (width, height, pixels),
                    c.geometry,
                );
                self.set_offset(c.root, decorated, ox, oy);
                Event::WindowBuffer {
                    id,
                    width: cw,
                    height: ch,
                    pixels: cropped,
                    title: c.title,
                    app_id: c.app_id,
                    decorated,
                    min_w: c.hints.min_w,
                    min_h: c.hints.min_h,
                    max_w: c.hints.max_w,
                    max_h: c.hints.max_h,
                }
            },
            CommitKind::X11(id) => Event::WindowBuffer {
                id,
                width,
                height,
                pixels,
                title: c.title,
                app_id: c.app_id,
                decorated: !c.override_redirect,
                min_w: c.hints.min_w,
                min_h: c.hints.min_h,
                max_w: c.hints.max_w,
                max_h: c.hints.max_h,
            },
            _ => return Committed { event: None, drain: Drain::Tree },
        };
        Committed { event: Some(event), drain: Drain::Tree }
    }
}

// ---------------------------------------------------------------------------
// Commands of the shell
// ---------------------------------------------------------------------------

/// What the host does on the seat, the output or a client for a command.
#[derive(Debug, PartialEq, Eq)]
pub enum Action {
    /// Nothing.
    Ignore,
    /// Ask a toplevel to close.
    CloseToplevel(u64),
    /// Ask an X11 window to close.
    CloseX11(u64),
    /// Give a surface keyboard and selection focus.
    Focus(u64),
    /// Move the pointer over a surface, to a surface-local position in 1/256 of
    /// a pixel.
    Motion { surface: u64, x: i64, y: i64 },
    /// Press or release a pointer button, after giving `focus` keyboard and
    /// selection focus.
    Button { focus: Option<u64>, button: u32, pressed: bool },
    /// Move the pointer away from all surfaces.
    Leave,
    /// Scroll, on each axis that moved.
    Axis { horizontal: Option<i32>, vertical: Option<i32> },
    /// Press or release an xkb keycode.
    Key { keycode: u32, pressed: bool },
    /// Type text.
    Type(String),
    /// Tell a toplevel its size.
    ConfigureToplevel { surface: u64, width: i32, height: i32 },
    /// Tell an X11 window its size.
    ConfigureX11 { surface: u64, width: i32, height: i32 },
    /// Tell a toplevel that it is maximized, with its size, or no longer.
    MaximizeToplevel { surface: u64, size: Option<(i32, i32)> },
    /// Tell an X11 window whether it is maximized.
    MaximizeX11 { surface: u64, maximized: bool },
    /// Resize the output.
    ResizeOutput { width: i32, height: i32 },
    /// Dismiss the popups on these surfaces.
    DismissPopups(Vec<u64>),
}

/// The surfaces of the popups, in the order in which they appeared.
pub open spec fn popup_surfaces(entries: Seq<Entry>) -> Seq<u64>
    decreases entries.len(),
{
    if entries.len() == 0 {
        Seq::empty()
    } else if entries.last().role is Popup {
        popup_surfaces(entries.drop_last()).push(entries.last().surface)
    } else {
        popup_surfaces(entries.drop_last())
    }
}

/// A scroll distance, where there is any.
pub open spec fn moved(d: i32) -> Option<i32> {
    if d != 0 {
        Some(d)
    } else {
        None
    }
}

impl EngineView {
    /// Where the declared geometry of a window starts within its surface.
    pub open spec fn geometry_offset(self, id: WindowId) -> (int, int) {
        match self.by_id(id) {
            Some(Entry { role: Role::Toplevel { ox, oy, .. }, .. }) => (ox as int, oy as int),
            _ => (0, 0),
        }
    }

    /// What a command makes the host do.
    pub open spec fn acts(self, command: Command, a: Action) -> bool {
        match command {
            Command::CloseWindow(id) => a == match self.by_id(id) {
                Some(Entry { surface, role: Role::Toplevel { .. }, .. }) => Action::CloseToplevel(
                    surface,
                ),
                Some(Entry { surface, role: Role::X11(_), .. }) => Action::CloseX11(surface),
                _ => Action::Ignore,
            },
            Command::FocusWindow(id) => a == match self.by_id(id) {
                Some(e) => Action::Focus(e.surface),
                None => Action::Ignore,
            },
            Command::PointerMotion { id, x: px, y: py } => match (self.by_id(id), a) {
                (Some(e), Action::Motion { surface, x, y }) => {
                    &&& surface == e.surface
                    &&& x == px + 256 * self.geometry_offset(id).0
                    &&& y == py + 256 * self.geometry_offset(id).1
                },
                (None, Action::Ignore) => true,
                _ => false,
            },
            Command::PointerButton { id, button, pressed } => a == match self.by_id(id) {
                Some(e) => Action::Button {
                    focus: if pressed {
                        Some(e.surface)
                    } else {
                        None
                    },
                    button,
                    pressed,
                },
                None => Action::Ignore,
            },
            Command::PointerLeave => a == Action::Leave,
            Command::PointerAxis { dx, dy, .. } => a == Action::Axis {
                horizontal: moved(dx),
                vertical: moved(dy),
            },
            Command::Key { keycode: evdev, pressed: down } => match a {
                Action::Key { keycode, pressed } => keycode == evdev + 8 && pressed == down,
                _ => false,
            },
            Command::TypeText(t) => a == Action::Type(t),
            Command::ResizeWindow { id, width, height } => {
                let size = protocol::at_least_one(width, height);
                a == match self.by_id(id) {
                    Some(Entry { surface, role: Role::Toplevel { .. }, .. }) =>
                        Action::ConfigureToplevel { surface, width: size.0, height: size.1 },
                    Some(Entry { surface, role: Role::X11(_), .. }) => Action::ConfigureX11 {
                        surface,
                        width: size.0,
                        height: size.1,
                    },
                    _ => Action::Ignore,
                }
            },
            Command::SetMaximized { id, maximized } => a == match self.by_id(id) {
                Some(Entry { surface, role: Role::Toplevel { .. }, .. }) =>
                    Action::MaximizeToplevel {
                    surface,
                    size: if maximized {
                        Some(protocol::at_least_one(self.output.0, self.output.1))
                    } else {
                        None
                    },
                },
                Some(Entry { surface, role: Role::X11(_), .. }) => Action::MaximizeX11 {
                    surface,
                    maximized,
                },
                _ => Action::Ignore,
            },
            Command::ResizeOutput { width, height } => a == Action::ResizeOutput { width, height },
            Command::DismissPopups => match a {
                Action::DismissPopups(v) => v@ == popup_surfaces(self.entries),
                _ => false,
            },
        }
    }
}

/// What changes with the size of the output.
#[derive(Debug, PartialEq, Eq)]
pub struct OutputChange {
    pub width: i32,
    pub height: i32,
    /// The layer surfaces to configure anew, with their sizes.
    pub layers: Vec<(u64, i32, i32)>,
    /// The event for the shell.
    pub event: Event,
}

/// The layer surfaces that follow the output's size, with their new sizes: those
/// that left an axis open.
pub open spec fn following_layers(
    desired: Seq<(u64, i32, i32)>,
    output: (i32, i32),
) -> Seq<(u64, i32, i32)>
    decreases desired.len(),
{
    if desired.len() == 0 {
        Seq::empty()
    } else {
        let before = following_layers(desired.drop_last(), output);
        let (s, w, h) = desired.last();
        if w > 0 && h > 0 {
            before
        } else {
            let size = protocol::layer_extent((w, h), output);
            before.push((s, size.0, size.1))
        }
    }
}

impl FocusState {
    /// What a command from the UI thread makes the host do.
    pub fn handle_command(&self, command: Command) -> (r: Action)
        requires
            command is Key ==> command->keycode <= u32::MAX - 8,
        ensures
            self@.acts(command, r),
    {
        match command {
            Command::CloseWindow(id) => match self.find_id(id) {
                Some(k) => {
                    let e = self.entries[k];
                    match e.role {
                        Role::Toplevel { .. } => Action::CloseToplevel(e.surface),
                        Role::X11(_) => Action::CloseX11(e.surface),
                        _ => Action::Ignore,
                    }
                },
                None => Action::Ignore,
            },
            Command::FocusWindow(id) => match self.surface_for(id) {
                Some(s) => Action::Focus(s),
                None => Action::Ignore,
            },
            Command::PointerMotion { id, x, y } => match self.find_id(id) {
                Some(k) => {
                    let e = self.entries[k];
                    let (ox, oy): (i32, i32) = match e.role {
                        Role::Toplevel { ox, oy, .. } => (ox, oy),
                        _ => (0, 0),
                    };
                    Action::Motion {
                        surface: e.surface,
                        x: x as i64 + 256 * ox as i64,
                        y: y as i64 + 256 * oy as i64,
                    }
                },
                None => Action::Ignore,
            },
            Command::PointerButton { id, button, pressed } => match self.surface_for(id) {
                Some(s) => Action::Button {
                    focus: if pressed {
                        Some(s)
                    } else {
                        None
                    },
                    button,
                    pressed,
                },
                None => Action::Ignore,
            },
            Command::PointerLeave => Action::Leave,
            Command::PointerAxis { id: _, dx, dy } => Action::Axis {
                horizontal: if dx != 0 {
                    Some(dx)
                } else {
                    None
                },
                vertical: if dy != 0 {
                    Some(dy)
                } else {
                    None
                },
            },
            Command::Key { keycode, pressed } => Action::Key { keycode: keycode + 8, pressed },
            Command::TypeText(t) => Action::Type(t),
            Command::ResizeWindow { id, width, height } => {
                let (w, h) = protocol::size_floor(width, height);
                match self.find_id(id) {
                    Some(k) => {
                        let e = self.entries[k];
                        match e.role {
                            Role::Toplevel { .. } => Action::ConfigureToplevel {
                                surface: e.surface,
                                width: w,
                                height: h,
                            },
                            Role::X11(_) => Action::ConfigureX11 {
                                surface: e.surface,
                                width: w,
                                height: h,
                            },
                            _ => Action::Ignore,
                        }
                    },
                    None => Action::Ignore,
                }
            },
            Command::SetMaximized { id, maximized } => match self.find_id(id) {
                Some(k) => {
                    let e = self.entries[k];
                    match e.role {
                        Role::Toplevel { .. } => {
                            let size: Option<(i32, i32)> = if maximized {
                                Some(self.fullscreen_size())
                            } else {
                                None
                            };
                            Action::MaximizeToplevel { surface: e.surface, size }
                        },
                        Role::X11(_) => Action::MaximizeX11 { surface: e.surface, maximized },
                        _ => Action::Ignore,
                    }
                },
                None => Action::Ignore,
            },
            Command::ResizeOutput { width, height } => Action::ResizeOutput { width, height },
            Command::DismissPopups => Action::DismissPopups(self.open_popups()),
        }
    }

    /// The surfaces of the popups.
    fn open_popups(&self) -> (r: Vec<u64>)
        ensures
            r@ == popup_surfaces(self@.entries),
    {
        let mut out: Vec<u64> = Vec::new();
        let mut i: usize = 0;
        while i < self.entries.len()
            invariant
                i <= self.entries@.len(),
                out@ == popup_surfaces(self.entries@.take(i as int)),
            decreases self.entries@.len() - i,
        {
            proof {
                assert(self.entries@.take(i + 1).drop_last() =~= self.entries@.take(i as int));
            }
            if let Role::Popup { .. } = self.entries[i].role {
                out.push(self.entries[i].surface);
            }
            i += 1;
        }
        assert(self.entries@.take(i as int) =~= self.entries@);
        out
    }

    /// Resize the output to `width`x`height` (logical px), so clients learn the
    /// new screen size when the host window is resized (nested). `desired` are
    /// the layer surfaces with the sizes they asked for. `None` when the size
    /// stays the same.
    pub fn resize_output(
        &mut self,
        width: i32,
        height: i32,
        desired: &Vec<(u64, i32, i32)>,
    ) -> (r: Option<OutputChange>)
        requires
            old(self)@.wf(),
        ensures
            final(self)@ == (EngineView {
                output: protocol::at_least_one(width, height),
                ..old(self)@
            }),
            final(self)@.wf(),
            match r {
                Some(change) => {
                    let size = protocol::at_least_one(width, height);
                    &&& old(self)@.output != size
                    &&& (change.width, change.height) == size
                    &&& change.layers@ == following_layers(desired@, size)
                    &&& change.event == Event::OutputResized { width: size.0, height: size.1 }
                },
                None => old(self)@.output == protocol::at_least_one(width, height),
            },
    {
        let ghost before = self@;
        let size: (i32, i32) = protocol::size_floor(width, height);
        if self.current_output_size.0 == size.0 && self.current_output_size.1 == size.1 {
            assert(self@ =~= EngineView { output: size, ..before });
            return None;
        }
        self.current_output_size = size;
        assert(self@ =~= EngineView { output: size, ..before });
        let mut layers: Vec<(u64, i32, i32)> = Vec::new();
        let mut i: usize = 0;
        while i < desired.len()
            invariant
                i <= desired@.len(),
                layers@ == following_layers(desired@.take(i as int), size),
            decreases desired@.len() - i,
        {
            proof {
                assert(desired@.take(i + 1).drop_last() =~= desired@.take(i as int));
            }
            let (s, w, h) = desired[i];
            if !(w > 0 && h > 0) {
                let (lw, lh) = protocol::layer_size((w, h), size);
                layers.push((s, lw, lh));
            }
            i += 1;
        }
        assert(desired@.take(i as int) =~= desired@);
        Some(
            OutputChange {
                width: size.0,
                height: size.1,
                layers,
                event: Event::OutputResized { width: size.0, height: size.1 },
            },
        )
    }
}

// ---------------------------------------------------------------------------
// Laws
// ---------------------------------------------------------------------------

/// Ids are never handed out twice: a new role gets an id that no surface has,
/// and every later one is larger.
pub proof fn law_ids_are_fresh(e: EngineView, surface: u64, role: Role)
    requires
        e.wf(),
        e.next_id < u64::MAX,
    ensures
        e.by_id(WindowId(e.next_id)) is None,
        e.with_role(surface, role).next_id == e.next_id + 1,
        e.with_role(surface, role).entry(surface)->0.id == WindowId(e.next_id),
{
    lemma_with_role_wf(e, surface, role);
}

/// A surface and its id find each other.
pub proof fn law_surface_and_id_agree(e: EngineView, surface: u64)
    requires
        e.wf(),
        e.entry(surface) is Some,
    ensures
        e.by_id(e.entry(surface)->0.id) == e.entry(surface),
{
    let k = surface_index(e.entries, surface);
    lemma_surface_index(e.entries, surface);
    let id = e.entries[k].id;
    assert forall|j: int| 0 <= j < k implies (#[trigger] e.entries[j]).id != id by {
        assert(e.entries[j].id != e.entries[k].id);
    }
    lemma_id_index_unique(e.entries, id, k);
}

/// Mapping and unmapping a surface leaves the other surfaces as they were.
pub proof fn law_map_then_unmap(e: EngineView, surface: u64, role: Role)
    requires
        e.wf(),
        e.next_id < u64::MAX,
        e.entry(surface) is None,
    ensures
        e.with_role(surface, role).without(surface).entries == e.entries,
        e.with_role(surface, role).without(surface).pixels == e.pixels,
{
    lemma_surface_index(e.entries, surface);
    lemma_with_role_wf(e, surface, role);
    let m = e.with_role(surface, role);
    let n = e.entries.len() as int;
    assert forall|j: int| 0 <= j < n implies (#[trigger] m.entries[j]).surface != surface by {
        assert(m.entries[j] == e.entries[j]);
    }
    lemma_surface_index_unique(m.entries, surface, n);
    assert(m.without(surface).entries =~= e.entries);
}

/// The pointer position a client receives is the one in its own frame: the
/// offset that a commit recorded is added back.
pub proof fn law_pointer_maps_back(e: EngineView, c: Commit, id: WindowId, decorated: bool)
    requires
        e.wf(),
        e.commit_kind(c.root, c.dmabuf is Some) == (CommitKind::Toplevel { id, decorated }),
        e.commit_frame(c) is Some,
        ({
            let (w, h, px) = e.commit_frame(c)->0;
            frame::frame_ok(w, h, px)
        }),
    ensures
        ({
            let (w, h, px) = e.commit_frame(c)->0;
            e.committed(c).geometry_offset(id) == frame::cropped(w, h, px, c.geometry).1
        }),
{
    let (w, h, px) = e.commit_frame(c)->0;
    let (ox, oy) = frame::cropped(w, h, px, c.geometry).1;
    let m = e.repainted(c);
    let k = surface_index(e.entries, c.root);
    lemma_surface_index(e.entries, c.root);
    let after = e.committed(c);
    assert(after.entries[k].id == id);
    assert forall|j: int| 0 <= j < k implies (#[trigger] after.entries[j]).id != id by {
        assert(e.entries[j].id != e.entries[k].id);
    }
    lemma_id_index_unique(after.entries, id, k);
}

/// Idle inhibition is announced when the first surface asks and withdrawn when
/// the last one leaves, and both leave nothing behind.
pub proof fn law_inhibition_is_balanced(s: Set<u64>, surface: u64)
    requires
        s == Set::<u64>::empty(),
    ensures
        s.insert(surface) != Set::<u64>::empty(),
        s.insert(surface).remove(surface) == Set::<u64>::empty(),
{
    assert(s.insert(surface).contains(surface));
    assert(s.insert(surface).remove(surface) =~= Set::<u64>::empty());
}

/// A surface and a window id lead to the one entry that has them.
pub proof fn law_entries_are_found(e: EngineView, k: int)
    requires
        e.wf(),
        0 <= k < e.entries.len(),
    ensures
        e.entry(e.entries[k].surface) == Some(e.entries[k]),
        e.by_id(e.entries[k].id) == Some(e.entries[k]),
{
    let x = e.entries[k];
    assert forall|j: int| 0 <= j < k implies (#[trigger] e.entries[j]).surface != x.surface
        && e.entries[j].id != x.id by {
        assert(e.entries[j].surface != e.entries[k].surface);
    }
    lemma_surface_index_unique(e.entries, x.surface, k);
    lemma_id_index_unique(e.entries, x.id, k);
}

/// What is not among the entries is not found.
pub proof fn law_unknown_surfaces_are_not_found(e: EngineView, surface: u64, id: WindowId)
    ensures
        (forall|i: int| 0 <= i < e.entries.len() ==> (#[trigger] e.entries[i]).surface != surface)
            ==> e.entry(surface) is None,
        (forall|i: int| 0 <= i < e.entries.len() ==> (#[trigger] e.entries[i]).id != id)
            ==> e.by_id(id) is None,
{
    lemma_surface_index(e.entries, surface);
    lemma_id_index(e.entries, id);
}

/// A surface that gets a role comes last, under a new id; one that had a role
/// before loses it, and every other surface keeps its own.
pub proof fn law_new_role_comes_last(e: EngineView, surface: u64, role: Role, k: int)
    requires
        e.wf(),
        e.next_id < u64::MAX,
    ensures
        ({
            let r = e.with_role(surface, role);
            &&& r.entries.last() == (Entry { surface, id: WindowId(e.next_id), role })
            &&& r.next_id == e.next_id + 1
            &&& e.entry(surface) is None ==> r.entries.drop_last() == e.entries
            &&& 0 <= k < e.entries.len() && e.entries[k].surface == surface ==> r.entries.drop_last()
                == e.entries.remove(k)
            &&& r.pixels == e.pixels
            &&& r.output == e.output
            &&& r.inhibitors == e.inhibitors
            &&& r.dnd_icon == e.dnd_icon
        }),
{
    let r = e.with_role(surface, role);
    lemma_surface_index(e.entries, surface);
    if 0 <= k < e.entries.len() && e.entries[k].surface == surface {
        law_entries_are_found(e, k);
        let f = surface_index(e.entries, surface);
        if f < k {
            assert(e.entries[f].surface != e.entries[k].surface);
        }
        assert(r.entries.drop_last() =~= e.entries.remove(k));
    }
    if e.entry(surface) is None {
        assert(r.entries.drop_last() =~= e.entries);
    }
}

/// Losing its role takes one surface out of the list, and changing it leaves the
/// surface where it is, under its id.
pub proof fn law_roles_change_one_surface(e: EngineView, role: Role, k: int)
    requires
        e.wf(),
        0 <= k < e.entries.len(),
    ensures
        ({
            let surface = e.entries[k].surface;
            let less = e.without(surface);
            let other = e.with_changed(surface, role);
            &&& less.entries == e.entries.remove(k)
            &&& less.next_id == e.next_id
            &&& less.pixels == e.pixels
            &&& other.entries == e.entries.update(
                k,
                Entry { surface, id: e.entries[k].id, role },
            )
            &&& other.next_id == e.next_id
            &&& other.pixels == e.pixels
        }),
{
    let x = e.entries[k];
    assert forall|j: int| 0 <= j < k implies (#[trigger] e.entries[j]).surface != x.surface by {
        assert(e.entries[j].surface != e.entries[k].surface);
    }
    lemma_surface_index_unique(e.entries, x.surface, k);
}

/// An X11 window is found by its number.
pub proof fn law_x11_windows_are_found(entries: Seq<Entry>, window: u32, k: int)
    requires
        0 <= k <= entries.len(),
        k < entries.len() ==> entries[k].role == Role::X11(window),
        forall|j: int| 0 <= j < k ==> (#[trigger] entries[j]).role != Role::X11(window),
    ensures
        x11_index(entries, window) == k,
{
    lemma_x11_index_unique(entries, window, k);
}

/// A commit is handled by what its surface is: the icon of a running drag before
/// anything else, then by its role, and a client buffer of a window is handed
/// through where that is switched on.
pub proof fn law_commit_goes_by_the_role(e: EngineView, k: int, dmabuf: bool)
    requires
        e.wf(),
        0 <= k < e.entries.len(),
    ensures
        ({
            let x = e.entries[k];
            let kind = e.commit_kind(x.surface, dmabuf);
            &&& e.dnd_icon == Some(x.surface) ==> kind == CommitKind::DragIcon
            &&& e.dnd_icon != Some(x.surface) ==> match x.role {
                Role::Toplevel { decorated, ox, oy } => if dmabuf && e.dmabuf_enabled {
                    kind == CommitKind::Dmabuf(x.id)
                } else {
                    kind == (CommitKind::Toplevel { id: x.id, decorated })
                },
                Role::Popup { parent, ox, oy } => kind == (CommitKind::Popup {
                    id: x.id,
                    parent,
                    ox,
                    oy,
                }),
                Role::Layer(layer) => kind == (CommitKind::Layer { id: x.id, layer }),
                Role::X11(window) => kind == CommitKind::X11(x.id),
            }
        }),
{
    law_entries_are_found(e, k);
}

/// A window's commit shows its flattened tree, cropped to the geometry that it
/// declares, with its title, its hints and its decoration; nothing is shown while
/// there are no pixels.
pub proof fn law_window_commit_shows_the_window(
    e: EngineView,
    c: Commit,
    r: Committed,
    k: int,
    decorated: bool,
    ox: i32,
    oy: i32,
)
    requires
        e.wf(),
        0 <= k < e.entries.len(),
        e.entries[k].surface == c.root,
        e.entries[k].role == (Role::Toplevel { decorated, ox, oy }),
        e.dnd_icon != Some(c.root),
        c.dmabuf is None || !e.dmabuf_enabled,
        commit_outcome(e, c, r),
    ensures
        r.drain == Drain::Tree,
        match e.commit_frame(c) {
            Some((w, h, px)) => match r.event {
                Some(
                    Event::WindowBuffer {
                        id,
                        width,
                        height,
                        pixels,
                        title,
                        app_id,
                        decorated: drawn,
                        min_w,
                        min_h,
                        max_w,
                        max_h,
                    },
                ) => {
                    &&& id == e.entries[k].id
                    &&& frame::cropped(w, h, px, c.geometry).0 == (
                        width as int,
                        height as int,
                        pixels@,
                    )
                    &&& title == c.title
                    &&& app_id == c.app_id
                    &&& drawn == decorated
                    &&& min_w == c.hints.min_w && min_h == c.hints.min_h
                    &&& max_w == c.hints.max_w && max_h == c.hints.max_h
                },
                _ => false,
            },
            None => r.event is None,
        },
{
    law_entries_are_found(e, k);
}

/// An X11 window is shown whole, and is decorated unless it manages itself; a
/// popup is shown where it was opened; a layer surface is shown on its layer, at
/// its margin from the output's edge.
pub proof fn law_other_commits_show_their_surface(e: EngineView, c: Commit, r: Committed, k: int)
    requires
        e.wf(),
        0 <= k < e.entries.len(),
        e.entries[k].surface == c.root,
        e.dnd_icon != Some(c.root),
        commit_outcome(e, c, r),
        e.commit_frame(c) is Some,
    ensures
        ({
            let shown = e.commit_frame(c)->0;
            match (e.entries[k].role, r.event) {
                (Role::Toplevel { .. }, _) => true,
                (
                    Role::X11(_),
                    Some(
                        Event::WindowBuffer { id, width, height, pixels, title, decorated, .. },
                    ),
                ) => {
                    &&& id == e.entries[k].id
                    &&& shown == (width as int, height as int, pixels@)
                    &&& title == c.title
                    &&& decorated == !c.override_redirect
                },
                (
                    Role::Popup { parent, ox, oy },
                    Some(
                        Event::PopupBuffer {
                            id,
                            parent: of,
                            ox: x,
                            oy: y,
                            width,
                            height,
                            pixels,
                        },
                    ),
                ) => {
                    &&& id == e.entries[k].id
                    &&& of == parent
                    &&& x == ox
                    &&& y == oy
                    &&& shown == (width as int, height as int, pixels@)
                },
                (
                    Role::Layer(layer),
                    Some(
                        Event::LayerBuffer { id, layer: number, x, y, width, height, pixels },
                    ),
                ) => {
                    &&& id == e.entries[k].id
                    &&& number == protocol::layer_number(layer)
                    &&& shown == (width as int, height as int, pixels@)
                    &&& c.anchor.left || !c.anchor.right ==> x == c.margin.left
                    &&& c.anchor.top || !c.anchor.bottom ==> y == c.margin.top
                    &&& c.anchor.right && !c.anchor.left && i32::MIN < x < i32::MAX ==> x + width
                        + c.margin.right == e.output.0
                    &&& c.anchor.bottom && !c.anchor.top && i32::MIN < y < i32::MAX ==> y + height
                        + c.margin.bottom == e.output.1
                },
                _ => false,
            }
        }),
{
    law_entries_are_found(e, k);
    let (w, h, px) = e.commit_frame(c)->0;
    protocol::law_layer_keeps_its_margin(e.output, c.anchor, c.margin, w, h);
}

/// A commit remembers the pixels of its tree and drops those of surfaces that are
/// gone; a surface without a role, and a buffer that is handed through, leave the
/// state as it is.
pub proof fn law_commit_remembers_the_pixels(e: EngineView, c: Commit)
    ensures
        ({
            let kind = e.commit_kind(c.root, c.dmabuf is Some);
            let r = e.committed(c);
            &&& kind is Unknown || kind is Dmabuf ==> r == e
            &&& !(kind is Unknown || kind is Dmabuf) ==> r.pixels == frame::tree_cached(
                frame::pruned(e.pixels, c.alive@),
                c.nodes@,
            )
            &&& r.next_id == e.next_id
            &&& r.output == e.output
            &&& r.inhibitors == e.inhibitors
            &&& r.dnd_icon == e.dnd_icon
            &&& r.entries.len() == e.entries.len()
        }),
{
    lemma_surface_index(e.entries, c.root);
}

/// The popups that are dismissed are all that are open, in the order in which they
/// were opened.
pub proof fn law_all_popups_are_dismissed(entries: Seq<Entry>)
    ensures
        popup_surfaces(entries) == entries.filter(|x: Entry| x.role is Popup).map_values(
            |x: Entry| x.surface,
        ),
    decreases entries.len(),
{
    reveal(Seq::filter);
    let open = |x: Entry| x.role is Popup;
    let of = |x: Entry| x.surface;
    if entries.len() > 0 {
        law_all_popups_are_dismissed(entries.drop_last());
        let before = entries.drop_last().filter(open);
        assert(before.push(entries.last()).map_values(of) =~= before.map_values(of).push(
            entries.last().surface,
        ));
        assert(popup_surfaces(entries) =~= entries.filter(open).map_values(of));
    } else {
        assert(popup_surfaces(entries) =~= entries.filter(open).map_values(of));
    }
}

/// The pointer's position in a window becomes one in its surface by adding the
/// offset of the geometry, in pixels, to a position in 1/256 of a pixel; only
/// windows have such an offset.
pub proof fn law_pointer_moves_by_the_offset(
    e: EngineView,
    k: int,
    x: i32,
    y: i32,
    a: Action,
)
    requires
        e.wf(),
        0 <= k < e.entries.len(),
        e.acts(Command::PointerMotion { id: e.entries[k].id, x, y }, a),
    ensures
        match (e.entries[k].role, a) {
            (Role::Toplevel { ox, oy, .. }, Action::Motion { surface, x: sx, y: sy }) => surface
                == e.entries[k].surface && sx == x + 256 * ox && sy == y + 256 * oy,
            (_, Action::Motion { surface, x: sx, y: sy }) => surface == e.entries[k].surface && sx
                == x && sy == y,
            _ => false,
        },
{
    law_entries_are_found(e, k);
}

/// Commands reach the surface of their window by its role: only windows of
/// clients are closed, resized and maximized, and no size is empty.
pub proof fn law_commands_reach_their_window(
    e: EngineView,
    k: int,
    width: i32,
    height: i32,
    close: Action,
    focus: Action,
    resize: Action,
    maximize: Action,
    restore: Action,
)
    requires
        e.wf(),
        0 <= k < e.entries.len(),
        e.acts(Command::CloseWindow(e.entries[k].id), close),
        e.acts(Command::FocusWindow(e.entries[k].id), focus),
        e.acts(Command::ResizeWindow { id: e.entries[k].id, width, height }, resize),
        e.acts(Command::SetMaximized { id: e.entries[k].id, maximized: true }, maximize),
        e.acts(Command::SetMaximized { id: e.entries[k].id, maximized: false }, restore),
    ensures
        ({
            let s = e.entries[k].surface;
            let w: i32 = if width < 1 {
                1
            } else {
                width
            };
            let h: i32 = if height < 1 {
                1
            } else {
                height
            };
            let ow: i32 = if e.output.0 < 1 {
                1
            } else {
                e.output.0
            };
            let oh: i32 = if e.output.1 < 1 {
                1
            } else {
                e.output.1
            };
            &&& focus == Action::Focus(s)
            &&& match e.entries[k].role {
                Role::Toplevel { .. } => {
                    &&& close == Action::CloseToplevel(s)
                    &&& resize == (Action::ConfigureToplevel { surface: s, width: w, height: h })
                    &&& maximize == (Action::MaximizeToplevel { surface: s, size: Some((ow, oh)) })
                    &&& restore == (Action::MaximizeToplevel { surface: s, size: None })
                },
                Role::X11(_) => {
                    &&& close == Action::CloseX11(s)
                    &&& resize == (Action::ConfigureX11 { surface: s, width: w, height: h })
                    &&& maximize == (Action::MaximizeX11 { surface: s, maximized: true })
                    &&& restore == (Action::MaximizeX11 { surface: s, maximized: false })
                },
                _ => close == Action::Ignore && resize == Action::Ignore && maximize
                    == Action::Ignore && restore == Action::Ignore,
            }
        }),
{
    law_entries_are_found(e, k);
}

/// A button focuses the surface it is pressed on, and not the one it is released
/// on.
pub proof fn law_pressing_focuses(e: EngineView, k: int, button: u32, press: Action, release: Action)
    requires
        e.wf(),
        0 <= k < e.entries.len(),
        e.acts(Command::PointerButton { id: e.entries[k].id, button, pressed: true }, press),
        e.acts(Command::PointerButton { id: e.entries[k].id, button, pressed: false }, release),
    ensures
        press == (Action::Button { focus: Some(e.entries[k].surface), button, pressed: true }),
        release == (Action::Button { focus: None, button, pressed: false }),
{
    law_entries_are_found(e, k);
}

/// Keys carry codes that are eight above those of evdev; scrolling has an axis for
/// each distance that is not zero; text, the output's size and leaving are passed
/// on.
pub proof fn law_input_is_passed_on(e: EngineView, command: Command, a: Action)
    requires
        e.acts(command, a),
    ensures
        match (command, a) {
            (Command::Key { keycode: from, pressed: p }, Action::Key { keycode, pressed }) => keycode
                == from + 8 && pressed == p,
            (Command::Key { .. }, _) => false,
            (Command::PointerAxis { dx, dy, .. }, Action::Axis { horizontal, vertical }) => {
                &&& dx == 0 <==> horizontal is None
                &&& dy == 0 <==> vertical is None
                &&& horizontal is Some ==> horizontal->0 == dx
                &&& vertical is Some ==> vertical->0 == dy
            },
            (Command::PointerAxis { .. }, _) => false,
            (Command::TypeText(t), Action::Type(s)) => t == s,
            (Command::TypeText(_), _) => false,
            (Command::PointerLeave, Action::Leave) => true,
            (Command::PointerLeave, _) => false,
            (
                Command::ResizeOutput { width: w, height: h },
                Action::ResizeOutput { width, height },
            ) => width == w && height == h,
            (Command::ResizeOutput { .. }, _) => false,
            _ => true,
        },
{
}

/// Commands for a window that is gone are ignored.
pub proof fn law_commands_for_nobody_are_ignored(
    e: EngineView,
    id: WindowId,
    x: i32,
    y: i32,
    a: Action,
)
    requires
        forall|i: int| 0 <= i < e.entries.len() ==> (#[trigger] e.entries[i]).id != id,
        e.acts(Command::CloseWindow(id), a) || e.acts(Command::FocusWindow(id), a) || e.acts(
            Command::PointerMotion { id, x, y },
            a,
        ) || e.acts(Command::ResizeWindow { id, width: x, height: y }, a),
    ensures
        a == Action::Ignore,
{
    law_unknown_surfaces_are_not_found(e, 0, id);
}

/// When the output changes, the layer surfaces that leave a side open follow it on
/// that side; those with a size of their own on both sides are left alone.
pub proof fn law_open_layers_follow_the_output(
    desired: Seq<(u64, i32, i32)>,
    surface: u64,
    w: i32,
    h: i32,
    output: (i32, i32),
)
    ensures
        ({
            let before = following_layers(desired, output);
            let after = following_layers(desired.push((surface, w, h)), output);
            &&& w > 0 && h > 0 ==> after == before
            &&& w <= 0 && h > 0 ==> after == before.push((surface, output.0, h))
            &&& w > 0 && h <= 0 ==> after == before.push((surface, w, output.1))
            &&& w <= 0 && h <= 0 ==> after == before.push((surface, output.0, output.1))
        }),
        following_layers(Seq::empty(), output).len() == 0,
{
    let all = desired.push((surface, w, h));
    assert(all.drop_last() =~= desired);
    assert(all.last() == (surface, w, h));
}

/// The server starts without surfaces, on an output of 1280 by 800.
pub proof fn law_engine_starts_empty(dmabuf_enabled: bool)
    ensures
        ({
            let e = EngineView::initial(dmabuf_enabled);
            &&& e.entries.len() == 0
            &&& e.next_id == 0
            &&& e.output == (1280i32, 800i32)
            &&& e.dnd_icon is None
            &&& e.dmabuf_enabled == dmabuf_enabled
            &&& forall|s: u64| !e.pixels.contains_key(s) && !e.inhibitors.contains(s)
        }),
{
}

/// A surface without a role is not shown, and only its own callbacks are due; a
/// drag's icon is shown at the pointer; a client buffer is handed through as it
/// is.
pub proof fn law_commits_of_other_kinds(e: EngineView, c: Commit, r: Committed)
    requires
        commit_outcome(e, c, r),
    ensures
        e.dnd_icon != Some(c.root) && (forall|i: int|
            0 <= i < e.entries.len() ==> (#[trigger] e.entries[i]).surface != c.root) ==> r.drain
            == Drain::Surface && r.event is None,
        e.dnd_icon == Some(c.root) ==> r.drain == Drain::Tree && match (e.commit_frame(c), r.event) {
            (
                Some((w, h, px)),
                Some(Event::DragIcon { width, height, pixels, hot_x, hot_y }),
            ) => w == width && h == height && px == pixels@ && hot_x == 0 && hot_y == 0,
            (None, None) => true,
            _ => false,
        },
        e.commit_kind(c.root, c.dmabuf is Some) matches CommitKind::Dmabuf(window) ==> r.drain
            == Drain::Root && match (r.event, c.dmabuf) {
            (
                Some(Event::WindowDmabuf { id, width, height, fourcc, modifier, planes }),
                Some(d),
            ) => id == window && width == d.width && height == d.height && fourcc == d.fourcc
                && modifier == d.modifier && planes == d.planes,
            _ => false,
        },
{
    law_unknown_surfaces_are_not_found(e, c.root, WindowId(0));
}

/// Dismissing the popups names them all; buttons and maximizing of a window that
/// is gone are ignored.
pub proof fn law_remaining_commands(
    e: EngineView,
    id: WindowId,
    button: u32,
    pressed: bool,
    a: Action,
)
    ensures
        e.acts(Command::DismissPopups, a) ==> match a {
            Action::DismissPopups(v) => v@ == e.entries.filter(
                |x: Entry| x.role is Popup,
            ).map_values(|x: Entry| x.surface),
            _ => false,
        },
        (forall|i: int| 0 <= i < e.entries.len() ==> (#[trigger] e.entries[i]).id != id) && (e.acts(
            Command::PointerButton { id, button, pressed },
            a,
        ) || e.acts(Command::SetMaximized { id, maximized: pressed }, a)) ==> a == Action::Ignore,
{
    law_all_popups_are_dismissed(e.entries);
    law_unknown_surfaces_are_not_found(e, 0, id);
}

} // verus!
