//! Keyboard focus and stacking: which window is on top, which one gets the
//! keyboard when another goes away, and where pointer input goes.

use vstd::prelude::*;

use crate::event::Command;
use crate::geom;
use crate::geom::WinGeom;
use crate::keys;
use crate::model::{TaskId, WindowId};
use crate::tasklist::{ListView, TaskList};

verus! {

// ---------------------------------------------------------------------------
// Stacking and cycling
// ---------------------------------------------------------------------------

/// The position of a window in an order, or the length of the order.
pub open spec fn place(order: Seq<WindowId>, w: WindowId) -> int
    decreases order.len(),
{
    if order.len() == 0 || order[0] == w {
        0
    } else {
        1 + place(order.drop_first(), w)
    }
}

/// The place found holds the window, and none before it does.
pub proof fn lemma_place(order: Seq<WindowId>, w: WindowId)
    ensures
        0 <= place(order, w) <= order.len(),
        place(order, w) < order.len() ==> order[place(order, w)] == w,
        forall|j: int| 0 <= j < place(order, w) ==> order[j] != w,
        order.contains(w) <==> place(order, w) < order.len(),
    decreases order.len(),
{
    if order.len() > 0 && order[0] != w {
        let d = order.drop_first();
        lemma_place(d, w);
        assert forall|j: int| 0 <= j < place(order, w) implies order[j] != w by {
            if j > 0 {
                assert(d[j - 1] == order[j]);
            }
        }
        if order.contains(w) {
            let j = choose|j: int| 0 <= j < order.len() && order[j] == w;
            assert(d[j - 1] == w);
        }
    }
}

/// Executable form of [`place`].
fn place_of(order: &Vec<WindowId>, w: WindowId) -> (r: usize)
    ensures
        r == place(order@, w),
        r <= order@.len(),
{
    let ghost all = order@;
    let mut i: usize = 0;
    assert(all.skip(0) =~= all);
    while i < order.len() && order[i] != w
        invariant
            i <= order@.len(),
            all == order@,
            place(all, w) == i + place(all.skip(i as int), w),
        decreases order@.len() - i,
    {
        assert(all.skip(i as int).drop_first() =~= all.skip(i as int + 1));
        i += 1;
    }
    i
}

/// An order with the focused window last, so that it stacks on top.
pub open spec fn on_top(order: Seq<WindowId>, focused: Option<WindowId>) -> Seq<WindowId> {
    match focused {
        Some(f) => {
            let p = place(order, f);
            if p < order.len() {
                order.remove(p).push(f)
            } else {
                order
            }
        },
        None => order,
    }
}

/// The stacking of the windows of a desktop, bottom first: the focused window is
/// drawn last.
pub fn stacking(order: Vec<WindowId>, focused: Option<WindowId>) -> (r: Vec<WindowId>)
    ensures
        r@ == on_top(order@, focused),
{
    let mut order = order;
    if let Some(f) = focused {
        let p: usize = place_of(&order, f);
        if p < order.len() {
            order.remove(p);
            order.push(f);
        }
    }
    order
}

/// The position that is cycled from: that of the current window, or the first.
pub open spec fn cycle_from(wins: Seq<WindowId>, cur: Option<WindowId>) -> int {
    match cur {
        Some(c) => if place(wins, c) < wins.len() {
            place(wins, c)
        } else {
            0
        },
        None => 0,
    }
}

/// The neighbour of the current window, round the end.
pub open spec fn neighbour(wins: Seq<WindowId>, cur: Option<WindowId>, forward: bool) -> Option<
    WindowId,
> {
    let n = wins.len() as int;
    let i = cycle_from(wins, cur);
    if n == 0 {
        None
    } else if forward {
        Some(wins[(i + 1) % n])
    } else {
        Some(wins[(i + n - 1) % n])
    }
}

/// Cycle through the windows: the one that gets the focus next.
pub fn cycle_window(wins: &Vec<WindowId>, cur: Option<WindowId>, forward: bool) -> (r: Option<
    WindowId,
>)
    ensures
        r == neighbour(wins@, cur, forward),
{
    let n: usize = wins.len();
    if n == 0 {
        return None;
    }
    let mut i: usize = 0;
    if let Some(c) = cur {
        let p: usize = place_of(wins, c);
        if p < n {
            i = p;
        }
    }
    let next: usize = if forward {
        if i + 1 == n {
            0
        } else {
            i + 1
        }
    } else {
        if i == 0 {
            n - 1
        } else {
            i - 1
        }
    };
    proof {
        let (m, k) = (n as int, i as int);
        if forward {
            if k + 1 == m {
                assert((k + 1) % m == 0) by (nonlinear_arith)
                    requires
                        k + 1 == m,
                        m > 0,
                ;
            } else {
                vstd::arithmetic::div_mod::lemma_small_mod((k + 1) as nat, m as nat);
            }
        } else {
            if k == 0 {
                vstd::arithmetic::div_mod::lemma_small_mod((m - 1) as nat, m as nat);
            } else {
                vstd::arithmetic::div_mod::lemma_mod_add_multiples_vanish(k - 1, m);
                vstd::arithmetic::div_mod::lemma_small_mod((k - 1) as nat, m as nat);
                assert(k + m - 1 == m + (k - 1));
            }
        }
    }
    Some(wins[next])
}

// ---------------------------------------------------------------------------
// Who gets the focus
// ---------------------------------------------------------------------------

/// Where the focus is after a change, and the window that has to be told.
#[derive(Debug, Clone, Copy, PartialEq, Eq)]
pub struct Refocus {
    pub focused: Option<WindowId>,
    pub tell: Option<WindowId>,
}

/// Whether a window of the active desktop can take the focus: it is not
/// minimized and not `except`.
pub open spec fn can_focus(list: ListView, except: Option<WindowId>, w: WindowId) -> bool {
    list.shows(w) && !list.minimized.contains(w.0) && except != Some(w)
}

/// Whether `r` is the first window (in order of id) that can take the focus.
pub open spec fn is_first_free(list: ListView, except: Option<WindowId>, r: Option<WindowId>) -> bool {
    match r {
        Some(w) => can_focus(list, except, w) && forall|x: WindowId| #[trigger]
            can_focus(list, except, x) ==> w.0 <= x.0,
        None => forall|x: WindowId| !#[trigger] can_focus(list, except, x),
    }
}

/// The first window that can take the focus.
fn first_free(list: &TaskList, except: Option<WindowId>) -> (r: Option<WindowId>)
    ensures
        is_first_free(list@, except, r),
{
    let wins = list.active_windows();
    let mut i: usize = 0;
    while i < wins.len()
        invariant
            i <= wins@.len(),
            list@.lists_desktop(wins@, list@.active),
            forall|j: int| 0 <= j < i ==> !can_focus(list@, except, #[trigger] wins@[j]),
        decreases wins@.len() - i,
    {
        let w = wins[i];
        let excepted: bool = match except {
            Some(e) => e == w,
            None => false,
        };
        if !excepted && !list.is_minimized(w) {
            proof {
                assert(wins@.contains(w));
                assert forall|x: WindowId| #[trigger] can_focus(list@, except, x) implies w.0
                    <= x.0 by {
                    assert(wins@.contains(x));
                    let j = choose|j: int| 0 <= j < wins@.len() && wins@[j] == x;
                    assert(j >= i);
                }
            }
            return Some(w);
        }
        i += 1;
    }
    proof {
        assert forall|x: WindowId| !#[trigger] can_focus(list@, except, x) by {
            if can_focus(list@, except, x) {
                assert(wins@.contains(x));
                let j = choose|j: int| 0 <= j < wins@.len() && wins@[j] == x;
                assert(!can_focus(list@, except, wins@[j]));
            }
        }
    }
    None
}

/// Whether `r` is the first window of the active desktop.
pub open spec fn is_first(list: ListView, r: Option<WindowId>) -> bool {
    match r {
        Some(w) => list.shows(w) && forall|x: WindowId| #[trigger] list.shows(x) ==> w.0 <= x.0,
        None => forall|x: WindowId| !#[trigger] list.shows(x),
    }
}

/// Whether `r` is the last window of the active desktop.
pub open spec fn is_last(list: ListView, r: Option<WindowId>) -> bool {
    match r {
        Some(w) => list.shows(w) && forall|x: WindowId| #[trigger] list.shows(x) ==> x.0 <= w.0,
        None => forall|x: WindowId| !#[trigger] list.shows(x),
    }
}

/// The windows of a listing are those the desktop shows.
proof fn lemma_listed(list: ListView, wins: Seq<WindowId>)
    requires
        list.lists_desktop(wins, list.active),
    ensures
        wins.len() > 0 ==> is_first(list, Some(wins[0])) && is_last(list, Some(wins.last())),
        wins.len() == 0 ==> is_first(list, None) && is_last(list, None),
{
    assert forall|x: WindowId| #[trigger] list.shows(x) implies wins.contains(x) by {}
    if wins.len() > 0 {
        assert(wins.contains(wins[0]));
        assert(wins.contains(wins.last()));
        assert forall|x: WindowId| #[trigger] list.shows(x) implies wins[0].0 <= x.0 && x.0
            <= wins.last().0 by {
            assert(wins.contains(x));
            let j = choose|j: int| 0 <= j < wins.len() && wins[j] == x;
            assert(j == 0 || wins[0].0 < wins[j].0);
            assert(j == wins.len() - 1 || wins[j].0 < wins[wins.len() - 1].0);
        }
    } else {
        assert forall|x: WindowId| !#[trigger] list.shows(x) by {
            if list.shows(x) {
                assert(wins.contains(x));
            }
        }
    }
}

/// The first window of the active desktop: the one that gets the focus after
/// switching to it.
pub fn first_window(list: &TaskList) -> (r: Option<WindowId>)
    ensures
        is_first(list@, r),
{
    let wins = list.active_windows();
    proof {
        lemma_listed(list@, wins@);
    }
    if wins.len() > 0 {
        Some(wins[0])
    } else {
        None
    }
}

/// The last window of the active desktop.
fn last_window(list: &TaskList) -> (r: Option<WindowId>)
    ensures
        is_last(list@, r),
{
    let wins = list.active_windows();
    proof {
        lemma_listed(list@, wins@);
    }
    if wins.len() > 0 {
        Some(wins[wins.len() - 1])
    } else {
        None
    }
}

/// A window was mapped: it goes to the active desktop and gets the focus.
pub fn window_added(list: &mut TaskList, id: WindowId) -> (r: Refocus)
    ensures
        final(list)@ == old(list)@.with_window(id, old(list)@.active),
        old(list)@.wf() ==> final(list)@.wf(),
        r == (Refocus { focused: Some(id), tell: Some(id) }),
{
    list.assign_window(id);
    Refocus { focused: Some(id), tell: Some(id) }
}

/// A window is gone. If it had the focus, the last window of the desktop gets
/// it.
pub fn window_removed(list: &mut TaskList, focused: Option<WindowId>, id: WindowId) -> (r: Refocus)
    ensures
        final(list)@ == (ListView {
            window_task: old(list)@.window_task.remove(id.0),
            minimized: old(list)@.minimized.remove(id.0),
            maximized: old(list)@.maximized.remove(id.0),
            ..old(list)@
        }),
        old(list)@.wf() ==> final(list)@.wf(),
        if focused == Some(id) {
            is_last(final(list)@, r.focused) && r.tell == r.focused
        } else {
            r == (Refocus { focused, tell: None })
        },
        !final(list)@.window_task.contains_key(id.0),
        focused == Some(id) ==> r.focused != Some(id) && forall|w: WindowId| #[trigger]
            final(list)@.shows(w) ==> r.focused is Some && w.0 <= (r.focused->0).0,
        focused != Some(id) ==> r.focused == focused && r.tell is None,
{
    list.remove_window(id);
    if focused == Some(id) {
        let next = last_window(list);
        Refocus { focused: next, tell: next }
    } else {
        Refocus { focused, tell: None }
    }
}

/// Focus a window; a minimized one is restored.
pub fn focus_window(list: &mut TaskList, id: WindowId) -> (r: Refocus)
    ensures
        final(list)@ == (ListView { minimized: old(list)@.minimized.remove(id.0), ..old(list)@ }),
        old(list)@.wf() ==> final(list)@.wf(),
        r == (Refocus { focused: Some(id), tell: Some(id) }),
{
    let ghost before = list@;
    if list.is_minimized(id) {
        list.set_minimized(id, false);
    } else {
        assert(before.minimized.remove(id.0) =~= before.minimized);
    }
    Refocus { focused: Some(id), tell: Some(id) }
}

/// A set of windows with one put in, or taken out if it was there.
pub open spec fn flipped(s: Set<u64>, id: WindowId) -> Set<u64> {
    if s.contains(id.0) {
        s.remove(id.0)
    } else {
        s.insert(id.0)
    }
}

/// Toggle a window's minimized state (hidden from the content area, still listed
/// in the sidebar). Minimizing the focused window moves the focus to another
/// visible one; restoring focuses the window.
pub fn toggle_minimized(list: &mut TaskList, focused: Option<WindowId>, id: WindowId) -> (r: Refocus)
    ensures
        ({
            let hides = !old(list)@.minimized.contains(id.0);
            &&& final(list)@ == (ListView {
                minimized: flipped(old(list)@.minimized, id),
                ..old(list)@
            })
            &&& if !hides {
                r == (Refocus { focused: Some(id), tell: Some(id) })
            } else if focused == Some(id) {
                is_first_free(final(list)@, Some(id), r.focused) && r.tell == r.focused
            } else {
                r == (Refocus { focused, tell: None })
            }
        }),
        old(list)@.wf() ==> final(list)@.wf(),
        final(list)@.minimized.contains(id.0) <==> !old(list)@.minimized.contains(id.0),
        final(list)@.minimized.contains(id.0) ==> r.focused != Some(id),
        !final(list)@.minimized.contains(id.0) ==> r.focused == Some(id) && r.tell == Some(id),
        r.focused == focused || r.tell == r.focused,
{
    let hides: bool = !list.is_minimized(id);
    list.set_minimized(id, hides);
    if !hides {
        Refocus { focused: Some(id), tell: Some(id) }
    } else if focused == Some(id) {
        let next = first_free(list, Some(id));
        Refocus { focused: next, tell: next }
    } else {
        Refocus { focused, tell: None }
    }
}

/// The desktop that a task number names; a negative one is desktop 0.
pub open spec fn desktop_of(task_id: i32) -> Option<TaskId> {
    if task_id >= 0 {
        Some(TaskId(task_id as u64))
    } else {
        None
    }
}

/// Move a window to another desktop (a task's number, or -1 for desktop 0). The
/// window leaves the current view; the focus moves to whatever remains.
pub fn move_to_desktop(
    list: &mut TaskList,
    focused: Option<WindowId>,
    id: WindowId,
    task_id: i32,
) -> (r: Refocus)
    ensures
        final(list)@ == match desktop_of(task_id) {
            Some(t) => if old(list)@.has_task(t) {
                old(list)@.with_window(id, Some(t))
            } else {
                old(list)@
            },
            None => old(list)@.with_window(id, None),
        },
        old(list)@.wf() ==> final(list)@.wf(),
        if focused == Some(id) {
            is_first_free(final(list)@, None, r.focused) && r.tell == r.focused
        } else {
            r == (Refocus { focused, tell: None })
        },
        task_id < 0 ==> final(list)@.window_task.contains_key(id.0) && final(list)@.window_task[id.0] is None,
        task_id >= 0 && old(list)@.has_task(TaskId(task_id as u64)) ==> final(list)@.window_task.contains_key(id.0) && final(list)@.window_task[id.0] == Some(
            TaskId(task_id as u64),
        ),
{
    let target = if task_id >= 0 { Some(TaskId(task_id as u64)) } else { None };
    list.move_window_to(id, target);
    if focused == Some(id) {
        let next = first_free(list, None);
        Refocus { focused: next, tell: next }
    } else {
        Refocus { focused, tell: None }
    }
}

/// Toggle a window's maximized state. Returns the new state.
pub fn toggle_maximized(list: &mut TaskList, id: WindowId) -> (r: bool)
    ensures
        r == !old(list)@.maximized.contains(id.0),
        final(list)@ == (ListView {
            maximized: flipped(old(list)@.maximized, id),
            ..old(list)@
        }),
        old(list)@.wf() ==> final(list)@.wf(),
        final(list)@.maximized.contains(id.0) <==> r,
{
    let maximized: bool = !list.is_maximized(id);
    list.set_maximized(id, maximized);
    maximized
}

/// Whether a client's request to be (un)maximized changes anything, so that a
/// repeated request cannot flip the state the wrong way.
pub fn maximize_request_applies(list: &TaskList, id: WindowId, maximized: bool) -> (r: bool)
    ensures
        r == (list@.maximized.contains(id.0) != maximized),
{
    list.is_maximized(id) != maximized
}

/// A window was snapped into a zone: only the top edge is a true maximize.
pub fn snapped(list: &mut TaskList, id: WindowId, zone: i32) -> (r: bool)
    ensures
        r == (zone == 3),
        final(list)@ == (ListView {
            maximized: if zone == 3 {
                old(list)@.maximized.insert(id.0)
            } else {
                old(list)@.maximized.remove(id.0)
            },
            ..old(list)@
        }),
        old(list)@.wf() ==> final(list)@.wf(),
        final(list)@.maximized.contains(id.0) <==> zone == 3,
{
    let maximized: bool = zone == 3;
    list.set_maximized(id, maximized);
    maximized
}

/// A manual resize leaves the maximized state. Returns whether the client has to
/// be told.
pub fn resized_by_hand(list: &mut TaskList, id: WindowId) -> (r: bool)
    ensures
        r == old(list)@.maximized.contains(id.0),
        final(list)@ == (ListView { maximized: old(list)@.maximized.remove(id.0), ..old(list)@ }),
        old(list)@.wf() ==> final(list)@.wf(),
{
    let ghost before = list@;
    if list.is_maximized(id) {
        list.set_maximized(id, false);
        true
    } else {
        assert(before.maximized.remove(id.0) =~= before.maximized);
        false
    }
}

// ---------------------------------------------------------------------------
// Pointer input
// ---------------------------------------------------------------------------

/// A window of the stack, as far as the pointer is concerned.
#[derive(Debug, Clone, Copy, PartialEq, Eq)]
pub struct Placed {
    pub id: WindowId,
    pub minimized: bool,
    /// The frame and whether it has a title bar, once the window has one.
    pub frame: Option<(WinGeom, bool)>,
}

/// What the pointer hits in one window, in coordinates of its surface.
pub open spec fn hit_in(p: Placed, gx: int, gy: int) -> Option<(int, int)> {
    if p.minimized {
        None
    } else {
        match p.frame {
            Some((g, decorated)) => geom::hit(g, decorated, gx, gy),
            None => None,
        }
    }
}

/// The topmost window (the stack has it last) whose content area contains the
/// point, and the point in its coordinates.
pub open spec fn topmost(stack: Seq<Placed>, gx: int, gy: int) -> Option<(WindowId, int, int)>
    decreases stack.len(),
{
    if stack.len() == 0 {
        None
    } else {
        match hit_in(stack.last(), gx, gy) {
            Some((x, y)) => Some((stack.last().id, x, y)),
            None => topmost(stack.drop_last(), gx, gy),
        }
    }
}

/// The topmost non-minimized window whose *content* area (below the title bar)
/// contains a point in content coordinates, with the surface-local coordinates
/// within it. Used to re-target drag-and-drop across windows.
pub fn window_under(stack: &Vec<Placed>, gx: i64, gy: i64) -> (r: Option<(WindowId, i64, i64)>)
    requires
        -geom::LIMIT <= gx <= geom::LIMIT,
        -geom::LIMIT <= gy <= geom::LIMIT,
        forall|i: int|
            0 <= i < stack@.len() ==> match (#[trigger] stack@[i]).frame {
                Some((g, _)) => geom::geom_ok(g),
                None => true,
            },
    ensures
        match r {
            Some((w, x, y)) => topmost(stack@, gx as int, gy as int) == Some(
                (w, x as int, y as int),
            ),
            None => topmost(stack@, gx as int, gy as int) is None,
        },
{
    let mut n: usize = stack.len();
    assert(stack@.take(n as int) =~= stack@);
    while n > 0
        invariant
            n <= stack@.len(),
            -geom::LIMIT <= gx <= geom::LIMIT,
            -geom::LIMIT <= gy <= geom::LIMIT,
            forall|i: int|
                0 <= i < stack@.len() ==> match (#[trigger] stack@[i]).frame {
                    Some((g, _)) => geom::geom_ok(g),
                    None => true,
                },
            topmost(stack@, gx as int, gy as int) == topmost(
                stack@.take(n as int),
                gx as int,
                gy as int,
            ),
        decreases n,
    {
        let p = &stack[n - 1];
        proof {
            assert(stack@.take(n as int).last() == *p);
            assert(stack@.take(n as int).drop_last() =~= stack@.take(n - 1));
        }
        if !p.minimized {
            if let Some((g, decorated)) = p.frame {
                if let Some((x, y)) = geom::content_hit(g, decorated, gx, gy) {
                    return Some((p.id, x, y));
                }
            }
        }
        n -= 1;
    }
    None
}

/// Drag-and-drop motion: what goes to the window under the cursor.
pub fn dnd_motion(target: Option<(WindowId, i32, i32)>) -> (r: Option<Command>)
    ensures
        r == match target {
            Some((id, x, y)) => Some(Command::PointerMotion { id, x, y }),
            None => None,
        },
{
    match target {
        Some((id, x, y)) => Some(Command::PointerMotion { id, x, y }),
        None => None,
    }
}

/// Drag-and-drop release: a final motion to the drop target, then the release of
/// the button, so that the grab performs the drop. With no window under the
/// cursor the release goes to the origin window, which cancels the drop.
pub fn dnd_drop(target: Option<(WindowId, i32, i32)>, origin: WindowId, button: i32) -> (r: Vec<
    Command,
>)
    ensures
        r@ == match target {
            Some((id, x, y)) => seq![
                Command::PointerMotion { id, x, y },
                Command::PointerButton { id, button: keys::button_code(button), pressed: false },
            ],
            None => seq![
                Command::PointerButton {
                    id: origin,
                    button: keys::button_code(button),
                    pressed: false,
                },
            ],
        },
        match r@.last() {
            Command::PointerButton { id, button: code, pressed } => {
                &&& !pressed
                &&& 1 <= button <= 3 ==> code == 271 + button
                &&& target matches Some(t) ==> id == t.0
                &&& target is None ==> id == origin
            },
            _ => false,
        },
{
    let code: u32 = keys::evdev_button(button);
    let mut out: Vec<Command> = Vec::new();
    match target {
        Some((id, x, y)) => {
            out.push(Command::PointerMotion { id, x, y });
            out.push(Command::PointerButton { id, button: code, pressed: false });
        },
        None => {
            out.push(Command::PointerButton { id: origin, button: code, pressed: false });
        },
    }
    out
}

/// Whether hovering a surface moves the keyboard focus to it: the setting is on,
/// it is a window (not a popup or a layer), and it does not have the focus.
pub open spec fn follows(on: bool, focused: Option<WindowId>, id: WindowId, is_window: bool) -> bool {
    on && focused != Some(id) && is_window
}

/// The pointer moved over a surface: the focus after it, and what goes to the
/// client. The focus follows the pointer without raising the window.
pub fn pointer_moved(
    list: &TaskList,
    focused: Option<WindowId>,
    id: WindowId,
    is_window: bool,
    x: i32,
    y: i32,
) -> (r: (Option<WindowId>, Vec<Command>))
    ensures
        if follows(list@.settings.focus_follows_mouse, focused, id, is_window) {
            r.0 == Some(id) && r.1@ == seq![
                Command::FocusWindow(id),
                Command::PointerMotion { id, x, y },
            ]
        } else {
            r.0 == focused && r.1@ == seq![Command::PointerMotion { id, x, y }]
        },
        r.1@.last() == (Command::PointerMotion { id, x, y }),
        r.1@.contains(Command::FocusWindow(id)) ==> list@.settings.focus_follows_mouse && is_window,
        r.0 == Some(id) || r.0 == focused,
{
    let mut out: Vec<Command> = Vec::new();
    let follow: bool = list.settings().focus_follows_mouse && focused != Some(id) && is_window;
    if follow {
        out.push(Command::FocusWindow(id));
    }
    out.push(Command::PointerMotion { id, x, y });
    (if follow { Some(id) } else { focused }, out)
}

/// A pointer button changed over a surface: a press moves the focus there.
pub fn pointer_button(
    focused: Option<WindowId>,
    id: WindowId,
    x: i32,
    y: i32,
    button: i32,
    pressed: bool,
) -> (r: (Option<WindowId>, Vec<Command>))
    ensures
        r.0 == if pressed {
            Some(id)
        } else {
            focused
        },
        r.1@ == seq![
            Command::PointerMotion { id, x, y },
            Command::PointerButton { id, button: keys::button_code(button), pressed },
        ],
        1 <= button <= 3 ==> r.1@.last() == (Command::PointerButton {
            id,
            button: (271 + button) as u32,
            pressed,
        }),
{
    let mut out: Vec<Command> = Vec::new();
    out.push(Command::PointerMotion { id, x, y });
    out.push(Command::PointerButton { id, button: keys::evdev_button(button), pressed });
    (if pressed { Some(id) } else { focused }, out)
}

// ---------------------------------------------------------------------------
// Laws
// ---------------------------------------------------------------------------

/// Stacking only reorders: every window stays, and a focused one ends up last.
pub proof fn law_stacking_keeps_the_windows(order: Seq<WindowId>, focused: Option<WindowId>)
    ensures
        on_top(order, focused).to_multiset() == order.to_multiset(),
        focused is Some && order.contains(focused->0) ==> on_top(order, focused).last()
            == focused->0,
{
    if let Some(f) = focused {
        lemma_place(order, f);
        let p = place(order, f);
        if p < order.len() {
            vstd::seq_lib::to_multiset_remove(order, p);
            vstd::seq_lib::to_multiset_build(order.remove(p), f);
            vstd::seq_lib::to_multiset_contains(order, f);
            assert(order.to_multiset().remove(f).insert(f) =~= order.to_multiset());
        }
    }
}

/// Cycling forward and then backward comes back to the current window.
pub proof fn law_cycling_back_returns(wins: Seq<WindowId>, cur: WindowId)
    requires
        wins.contains(cur),
        wins.no_duplicates(),
    ensures
        neighbour(wins, neighbour(wins, Some(cur), true), false) == Some(cur),
        neighbour(wins, neighbour(wins, Some(cur), false), true) == Some(cur),
{
    lemma_place(wins, cur);
    let n = wins.len() as int;
    let i = place(wins, cur);
    let f = if i + 1 == n { 0 } else { i + 1 };
    let b = if i == 0 { n - 1 } else { i - 1 };
    assert((i + 1) % n == f && (f + n - 1) % n == i && (i + n - 1) % n == b && (b + 1) % n == i)
        by (nonlinear_arith)
        requires
            0 <= i < n,
            f == if i + 1 == n { 0 } else { i + 1 },
            b == if i == 0 { n - 1 } else { i - 1 },
    ;
    lemma_place(wins, wins[f]);
    lemma_place(wins, wins[b]);
    assert(place(wins, wins[f]) == f);
    assert(place(wins, wins[b]) == b);
}

/// Minimizing the focused window never leaves the focus on it, nor on another
/// hidden window.
pub proof fn law_hidden_window_loses_focus(list: ListView, id: WindowId, r: Option<WindowId>)
    requires
        is_first_free(list, Some(id), r),
    ensures
        r != Some(id),
        match r {
            Some(w) => !list.minimized.contains(w.0) && list.shows(w),
            None => true,
        },
{
}

/// A second toggle brings a window's minimized or maximized state back.
pub proof fn law_toggling_twice_restores(s: Set<u64>, id: WindowId)
    ensures
        flipped(flipped(s, id), id) == s,
{
    assert(flipped(flipped(s, id), id) =~= s);
}

/// The first place of a window in an order is the only one.
proof fn lemma_place_is(order: Seq<WindowId>, w: WindowId, k: int)
    requires
        0 <= k <= order.len(),
        k < order.len() ==> order[k] == w,
        forall|j: int| 0 <= j < k ==> order[j] != w,
    ensures
        place(order, w) == k,
    decreases order.len(),
{
    if k > 0 {
        let d = order.drop_first();
        assert(order[0] != w);
        assert forall|j: int| 0 <= j < k - 1 implies d[j] != w by {
            assert(d[j] == order[j + 1]);
        }
        lemma_place_is(d, w, k - 1);
    }
}

/// The focused window moves to the top and the others keep their order; a window
/// that is not in the stack changes nothing.
pub proof fn law_stacking_moves_one_window(order: Seq<WindowId>, f: WindowId, k: int)
    requires
        order.no_duplicates(),
    ensures
        on_top(order, None) == order,
        !order.contains(f) ==> on_top(order, Some(f)) == order,
        0 <= k < order.len() && order[k] == f ==> {
            let r = on_top(order, Some(f));
            &&& r.len() == order.len()
            &&& r.last() == f
            &&& r.drop_last() == order.remove(k)
        },
{
    if 0 <= k < order.len() && order[k] == f {
        lemma_place_is(order, f, k);
        assert(on_top(order, Some(f)).drop_last() =~= order.remove(k));
    }
    if !order.contains(f) {
        assert forall|j: int| 0 <= j < order.len() implies order[j] != f by {
            assert(order.contains(order[j]));
        }
        lemma_place_is(order, f, order.len() as int);
    }
}

/// Cycling goes to the next window, or the one before, and around at the ends. A
/// window that is not among them counts as the first.
pub proof fn law_cycling_goes_around(wins: Seq<WindowId>, k: int)
    requires
        wins.no_duplicates(),
        0 <= k < wins.len(),
    ensures
        ({
            let n = wins.len() as int;
            let cur = Some(wins[k]);
            &&& k + 1 < n ==> neighbour(wins, cur, true) == Some(wins[k + 1])
            &&& k + 1 == n ==> neighbour(wins, cur, true) == Some(wins[0])
            &&& k > 0 ==> neighbour(wins, cur, false) == Some(wins[k - 1])
            &&& k == 0 ==> neighbour(wins, cur, false) == Some(wins[n - 1])
        }),
{
    lemma_place_is(wins, wins[k], k);
    let n = wins.len() as int;
    if k + 1 < n {
        vstd::arithmetic::div_mod::lemma_small_mod((k + 1) as nat, n as nat);
    } else {
        vstd::arithmetic::div_mod::lemma_mod_self_0(n);
    }
    if k > 0 {
        vstd::arithmetic::div_mod::lemma_mod_add_multiples_vanish(k - 1, n);
        vstd::arithmetic::div_mod::lemma_small_mod((k - 1) as nat, n as nat);
        assert((n + (k - 1)) % n == k - 1);
        assert(k + n - 1 == n + (k - 1));
    } else {
        vstd::arithmetic::div_mod::lemma_small_mod((n - 1) as nat, n as nat);
    }
}

/// Without a window to start from, or with one from elsewhere, cycling starts at
/// the first; without windows there is nowhere to go.
pub proof fn law_cycling_starts_at_the_first(
    wins: Seq<WindowId>,
    cur: Option<WindowId>,
    forward: bool,
)
    requires
        cur is None || !wins.contains(cur->0),
    ensures
        wins.len() == 0 ==> neighbour(wins, cur, forward) is None,
        wins.len() > 0 ==> neighbour(wins, cur, forward) == neighbour(
            wins,
            Some(wins[0]),
            forward,
        ),
{
    if wins.len() > 0 {
        lemma_place_is(wins, wins[0], 0);
        if let Some(c) = cur {
            assert forall|j: int| 0 <= j < wins.len() implies wins[j] != c by {
                assert(wins.contains(wins[j]));
            }
            lemma_place_is(wins, c, wins.len() as int);
        }
    }
}

/// The focus goes to the oldest window of the active desktop that is not hidden,
/// and there is always at most one such.
pub proof fn law_focus_goes_to_the_first_visible(
    list: ListView,
    except: Option<WindowId>,
    r: Option<WindowId>,
    x: WindowId,
)
    requires
        is_first_free(list, except, r),
        list.window_task.contains_key(x.0),
        list.window_task[x.0] == list.active,
        !list.minimized.contains(x.0),
        except != Some(x),
    ensures
        match r {
            Some(w) => {
                &&& w.0 <= x.0
                &&& list.window_task.contains_key(w.0)
                &&& list.window_task[w.0] == list.active
                &&& !list.minimized.contains(w.0)
                &&& except != Some(w)
            },
            None => false,
        },
{
    assert(can_focus(list, except, x));
}

/// The first and the last window of the active desktop are those with the lowest
/// and the highest id on it.
pub proof fn law_first_and_last_window(
    list: ListView,
    first: Option<WindowId>,
    last: Option<WindowId>,
    x: WindowId,
)
    requires
        is_first(list, first),
        is_last(list, last),
        list.window_task.contains_key(x.0),
        list.window_task[x.0] == list.active,
    ensures
        match (first, last) {
            (Some(a), Some(b)) => {
                &&& a.0 <= x.0 <= b.0
                &&& list.window_task.contains_key(a.0) && list.window_task[a.0] == list.active
                &&& list.window_task.contains_key(b.0) && list.window_task[b.0] == list.active
            },
            _ => false,
        },
{
    assert(list.shows(x));
}

/// Toggling changes one window alone.
pub proof fn law_toggling_changes_one_window(s: Set<u64>, id: WindowId, other: u64)
    ensures
        flipped(s, id).contains(id.0) <==> !s.contains(id.0),
        other != id.0 ==> (flipped(s, id).contains(other) <==> s.contains(other)),
{
}

/// A desktop's number is its task's id; a negative one is desktop 0.
pub proof fn law_desktop_numbers(n: i32)
    ensures
        n < 0 ==> desktop_of(n) is None,
        n >= 0 ==> desktop_of(n) is Some && (desktop_of(n)->0).0 == n,
{
}

/// The pointer is on the topmost window that has it on its content: all above it
/// are hidden or elsewhere. Returns that window's place in the stack, or -1 where
/// there is none.
pub proof fn law_pointer_is_on_the_topmost_window(stack: Seq<Placed>, gx: int, gy: int) -> (k: int)
    ensures
        -1 <= k < stack.len(),
        forall|i: int|
            #![trigger stack[i]]
            k < i < stack.len() ==> stack[i].minimized || match stack[i].frame {
                Some((g, decorated)) => !(g.x <= gx < g.x + g.w && gy < g.y + g.h && gy >= g.y
                    + if decorated {
                    30 * 256
                } else {
                    0
                }),
                None => true,
            },
        k == -1 ==> topmost(stack, gx, gy) is None,
        k >= 0 ==> !stack[k].minimized && match stack[k].frame {
            Some((g, decorated)) => {
                let top = if decorated {
                    g.y + 30 * 256
                } else {
                    g.y as int
                };
                &&& g.x <= gx < g.x + g.w
                &&& top <= gy < g.y + g.h
                &&& topmost(stack, gx, gy) == Some((stack[k].id, gx - g.x, gy - top))
            },
            None => false,
        },
    decreases stack.len(),
{
    if stack.len() == 0 {
        -1
    } else if hit_in(stack.last(), gx, gy) is Some {
        stack.len() - 1
    } else {
        let d = stack.drop_last();
        let k = law_pointer_is_on_the_topmost_window(d, gx, gy);
        assert forall|i: int|
            #![trigger stack[i]]
            k < i < stack.len() implies stack[i].minimized || match stack[i].frame {
            Some((g, decorated)) => !(g.x <= gx < g.x + g.w && gy < g.y + g.h && gy >= g.y
                + if decorated {
                30 * 256
            } else {
                0
            }),
            None => true,
        } by {
            if i < d.len() {
                assert(d[i] == stack[i]);
            } else {
                assert(stack[i] == stack.last());
            }
        }
        if k >= 0 {
            assert(d[k] == stack[k]);
        }
        k
    }
}

/// The focus follows the pointer onto another window where that is switched on.
pub proof fn law_focus_follows_the_pointer(
    on: bool,
    focused: Option<WindowId>,
    id: WindowId,
    is_window: bool,
)
    ensures
        !on || !is_window ==> !follows(on, focused, id, is_window),
        focused == Some(id) ==> !follows(on, focused, id, is_window),
        on && is_window && focused != Some(id) ==> follows(on, focused, id, is_window),
{
}

} // verus!
