//! What the sidebar's actions do to the task list, and how time tracking reacts
//! to idleness and the lock screen.

use vstd::prelude::*;

use crate::color;
use crate::color::Rgb;
use crate::event::Command;
use crate::focus;
use crate::geom;
use crate::model::{is_blank, TaskId, WindowId};
use crate::task::{GithubLink, LinkView, TaskView};
use crate::tasklist;
use crate::tasklist::{ListView, TaskList};
use crate::text;

verus! {

// ---------------------------------------------------------------------------
// Creating and deleting
// ---------------------------------------------------------------------------

/// The list on a day.
pub open spec fn dated(list: ListView, today: Seq<char>) -> ListView {
    ListView { current_date: today, ..list }
}

/// An optional field from a text: empty is unset.
pub open spec fn filled(s: Seq<char>) -> Option<Seq<char>> {
    if s.len() == 0 {
        None
    } else {
        Some(s)
    }
}

/// What the wizard asks for.
#[derive(Debug, PartialEq, Eq)]
pub struct NewTask {
    pub name: String,
    pub category: String,
    pub branch: String,
    pub repo: String,
    /// The issue or pull request picked in the wizard, if any.
    pub link: Option<GithubLink>,
}

/// The view of an optional link.
pub open spec fn link_view(l: Option<GithubLink>) -> Option<LinkView> {
    match l {
        Some(l) => Some(l@),
        None => None,
    }
}

/// The list with the new task in it, before it becomes active.
pub open spec fn with_new_task(list: ListView, today: Seq<char>, new: NewTask) -> ListView {
    let l = dated(list, today).added(new.name@, new.category@);
    let k = tasklist::task_index(l.tasks, TaskId(list.next_id));
    l.with_task(
        k,
        TaskView {
            branch: filled(new.branch@),
            repo: filled(new.repo@),
            github: link_view(new.link),
            ..l.tasks[k]
        },
    ).repo_recorded(new.repo@)
}

/// Create a task as the wizard asks, remember its repository, and make it
/// active. Returns its id.
pub fn create_task(list: &mut TaskList, new: NewTask, today: &str, now: u64) -> (r: TaskId)
    requires
        old(list)@.wf(),
        old(list)@.next_id < u64::MAX,
        dated(old(list)@, today@).flush_fits(now),
    ensures
        r == TaskId(old(list)@.next_id),
        final(list)@ == with_new_task(old(list)@, today@, new).activated(r, now),
        final(list)@.wf(),
{
    let ghost before = list@;
    list.set_date(today);
    let id = list.add_task(&new.name, &new.category);
    let ghost l = list@;
    proof {
        tasklist::lemma_task_index(l.tasks, id);
        assert(l.tasks.last().id == id);
        let k = tasklist::task_index(l.tasks, id);
        if k == l.tasks.len() {
            assert(l.tasks[l.tasks.len() - 1].id != id);
        }
        if k < before.tasks.len() {
            assert(l.tasks[k] == before.tasks[k]);
            assert(before.tasks[k].id.0 < before.next_id);
        }
        assert(k == before.tasks.len());
    }
    let ghost k = tasklist::task_index(l.tasks, id);
    if let Some(task) = list.get_mut(id) {
        if !is_blank(&new.branch) {
            task.branch = Some(new.branch.clone());
        }
        if !is_blank(&new.repo) {
            task.repo = Some(new.repo.clone());
        }
        task.github = new.link;
    }
    proof {
        let t = TaskView {
            branch: filled(new.branch@),
            repo: filled(new.repo@),
            github: link_view(new.link),
            ..l.tasks[k]
        };
        assert(list@ =~= l.with_task(k, t));
        tasklist::lemma_with_task_wf(l, k, t);
    }
    list.record_repo(&new.repo);
    proof {
        // The running interval belongs to an older task, whose total is the same.
        if let Some(active) = before.active {
            tasklist::lemma_task_index(before.tasks, active);
            let a = tasklist::task_index(before.tasks, active);
            assert(before.has_task(active));
            assert(list@.tasks[a] == before.tasks[a]);
            assert forall|j: int| 0 <= j < a implies (#[trigger] list@.tasks[j]).id != active by {
                assert(list@.tasks[j] == before.tasks[j]);
            }
            tasklist::lemma_task_index_unique(list@.tasks, active, a);
        }
    }
    list.set_active(id, now);
    id
}

/// The commands that close windows.
pub open spec fn closes(windows: Seq<WindowId>) -> Seq<Command> {
    windows.map_values(|w: WindowId| Command::CloseWindow(w))
}

/// Delete a task: its windows are asked to close, and forgotten with it.
/// Returns the commands, one for each window of the task.
pub fn delete_task(list: &mut TaskList, id: TaskId, today: &str, now: u64) -> (r: Vec<Command>)
    requires
        old(list)@.active == Some(id) ==> dated(old(list)@, today@).flush_fits(now),
    ensures
        final(list)@ == dated(old(list)@, today@).removed(id, now),
        old(list)@.wf() ==> final(list)@.wf(),
        exists|w: Seq<WindowId>| old(list)@.lists_desktop(w, Some(id)) && r@ == #[trigger] closes(w),
{
    let windows = list.windows_for(id);
    let mut out: Vec<Command> = Vec::new();
    let mut i: usize = 0;
    while i < windows.len()
        invariant
            i <= windows@.len(),
            out@ == closes(windows@.take(i as int)),
        decreases windows@.len() - i,
    {
        out.push(Command::CloseWindow(windows[i]));
        i += 1;
        assert(out@ =~= closes(windows@.take(i as int)));
    }
    assert(windows@.take(i as int) =~= windows@);
    assert(out@ == closes(windows@));
    list.set_date(today);
    list.remove_task(id, now);
    out
}

// ---------------------------------------------------------------------------
// Order
// ---------------------------------------------------------------------------

/// The list after moving a task by `delta` positions; moves above the top are
/// ignored.
pub open spec fn shifted(list: ListView, id: TaskId, delta: int) -> ListView {
    let from = tasklist::task_index(list.tasks, id);
    if from < list.tasks.len() && from + delta >= 0 {
        list.reordered(from, from + delta)
    } else {
        list
    }
}

/// The list after dragging a task by `delta` positions; drags above the top end
/// there.
pub open spec fn dragged(list: ListView, id: TaskId, delta: int) -> ListView {
    let from = tasklist::task_index(list.tasks, id);
    if from < list.tasks.len() && delta != 0 {
        list.reordered(
            from,
            if from + delta >= 0 {
                from + delta
            } else {
                0
            },
        )
    } else {
        list
    }
}

/// The target of a move among `len` tasks; one behind the end is cut to the end.
fn target(from: usize, delta: i64, len: usize) -> (r: Option<usize>)
    ensures
        match r {
            Some(to) => from + delta >= 0 && to == if from + delta <= len {
                from + delta
            } else {
                len as int
            },
            None => from + delta < 0,
        },
{
    let to: i128 = from as i128 + delta as i128;
    if to < 0 {
        None
    } else if to > len as i128 {
        Some(len)
    } else {
        Some(to as usize)
    }
}

/// Move a task by `delta` positions in the sidebar.
pub fn move_task(list: &mut TaskList, id: TaskId, delta: i32)
    ensures
        final(list)@ == shifted(old(list)@, id, delta as int),
        old(list)@.wf() ==> final(list)@.wf(),
{
    proof {
        tasklist::lemma_task_index(list@.tasks, id);
    }
    if let Some(from) = list.position(id) {
        if let Some(to) = target(from, delta as i64, list.tasks().len()) {
            let ghost before = list@;
            list.reorder(from, to);
            assert(before.reordered(from as int, to as int) == before.reordered(
                from as int,
                from + delta,
            ));
        }
    }
}

/// Drag-and-drop reorder: the dragged vertical distance becomes a number of
/// slots, by which the task moves.
pub fn reorder_task(list: &mut TaskList, id: TaskId, dy: i64)
    requires
        -geom::LIMIT <= dy <= geom::LIMIT,
    ensures
        final(list)@ == dragged(old(list)@, id, geom::slots(dy as int)),
        old(list)@.wf() ==> final(list)@.wf(),
{
    proof {
        tasklist::lemma_task_index(list@.tasks, id);
    }
    let delta: i64 = geom::reorder_delta(dy);
    if delta != 0 {
        if let Some(from) = list.position(id) {
            let to: usize = match target(from, delta, list.tasks().len()) {
                Some(to) => to,
                None => 0,
            };
            let ghost before = list@;
            list.reorder(from, to);
            assert(from + delta >= 0 ==> before.reordered(from as int, to as int)
                == before.reordered(from as int, from + delta));
        }
    }
}

/// The task at a position in the sidebar, for switching by number.
pub fn task_at(list: &TaskList, index: i32) -> (r: Option<TaskId>)
    ensures
        r == if 0 <= index < list@.tasks.len() {
            Some(list@.tasks[index as int].id)
        } else {
            None
        },
{
    let tasks = list.tasks();
    if index >= 0 && (index as usize) < tasks.len() {
        assert(list@.tasks[index as int] == tasks@[index as int]@);
        Some(tasks[index as usize].id)
    } else {
        None
    }
}

// ---------------------------------------------------------------------------
// The sidebar
// ---------------------------------------------------------------------------

/// One task of the sidebar.
#[derive(Debug, PartialEq, Eq)]
pub struct TaskItem {
    pub id: u64,
    pub name: String,
    pub category: String,
    /// Whole minutes of focus time.
    pub minutes: u64,
    pub has_notification: bool,
    pub tint: Rgb,
}

/// Whether an item shows the task at position `i`.
pub open spec fn shows_task(item: TaskItem, t: TaskView, i: int) -> bool {
    &&& item.id == t.id.0
    &&& item.name@ == t.name
    &&& item.category@ == t.category
    &&& item.minutes == t.accumulated_secs / 60
    &&& item.has_notification == t.has_notification
    &&& item.tint == color::tint(t.color, i)
}

/// The sidebar's items, in order.
pub fn task_items(list: &TaskList) -> (r: Vec<TaskItem>)
    ensures
        r@.len() == list@.tasks.len(),
        forall|i: int| 0 <= i < r@.len() ==> shows_task(#[trigger] r@[i], list@.tasks[i], i),
{
    let tasks = list.tasks();
    let mut out: Vec<TaskItem> = Vec::new();
    let mut i: usize = 0;
    while i < tasks.len()
        invariant
            i <= tasks@.len(),
            list@.tasks == tasklist::task_views(tasks@),
            out@.len() == i,
            forall|j: int| 0 <= j < i ==> shows_task(#[trigger] out@[j], list@.tasks[j], j),
        decreases tasks@.len() - i,
    {
        let t = &tasks[i];
        assert(list@.tasks[i as int] == t@);
        out.push(
            TaskItem {
                id: t.id.0,
                name: t.name.clone(),
                category: t.category.clone(),
                minutes: t.accumulated_secs / 60,
                has_notification: t.has_notification,
                tint: color::task_tint(&t.color, i),
            },
        );
        i += 1;
    }
    out
}

/// The name of the active desktop.
pub open spec fn desktop_name(list: ListView) -> Seq<char> {
    match list.active {
        Some(id) => if list.has_task(id) {
            list.tasks[tasklist::task_index(list.tasks, id)].name
        } else {
            "Desktop 0"@
        },
        None => "Desktop 0"@,
    }
}

/// The name of the active task, or that of desktop 0.
pub fn active_name(list: &TaskList) -> (r: String)
    ensures
        r@ == desktop_name(list@),
{
    if let Some(id) = list.active() {
        if let Some(t) = list.get(id) {
            return t.name.clone();
        }
    }
    text::copy_text("Desktop 0")
}

// ---------------------------------------------------------------------------
// Idleness and the lock screen
// ---------------------------------------------------------------------------

/// The seconds without input after which tracking pauses; 0 is never.
pub open spec fn idle_limit(minutes: u64) -> u64 {
    if minutes * 60 <= u64::MAX {
        (minutes * 60) as u64
    } else {
        u64::MAX
    }
}

/// Whether the user counts as idle. A client may inhibit it.
pub open spec fn is_idle(minutes: u64, idle_secs: u64, inhibited: bool) -> bool {
    idle_limit(minutes) > 0 && idle_secs >= idle_limit(minutes) && !inhibited
}

/// The moment that activity stopped.
pub open spec fn idle_since(now: u64, idle_secs: u64) -> u64 {
    if now >= idle_secs {
        (now - idle_secs) as u64
    } else {
        0
    }
}

/// The list with the clock running again.
pub open spec fn resumed(list: ListView, now: u64) -> ListView {
    if list.active is Some && list.active_since is None {
        ListView { active_since: Some(now), ..list }
    } else {
        list
    }
}

/// The list after a tick. While idle, time is counted up to the moment that
/// activity stopped, and then paused.
pub open spec fn ticked(
    list: ListView,
    today: Seq<char>,
    now: u64,
    idle_secs: u64,
    inhibited: bool,
) -> ListView {
    let l = dated(list, today);
    if is_idle(list.settings.idle_minutes, idle_secs, inhibited) {
        ListView { active_since: None, ..l.flushed(idle_since(now, idle_secs)) }
    } else {
        resumed(l, now).flushed(now)
    }
}

/// Whether the sums that a tick forms can be held.
pub open spec fn tick_fits(
    list: ListView,
    today: Seq<char>,
    now: u64,
    idle_secs: u64,
    inhibited: bool,
) -> bool {
    let l = dated(list, today);
    if is_idle(list.settings.idle_minutes, idle_secs, inhibited) {
        l.flush_fits(idle_since(now, idle_secs))
    } else {
        resumed(l, now).flush_fits(now)
    }
}

/// The periodic tick of time tracking. Returns whether the user became idle just
/// now, which raises the lock screen.
pub fn tick(list: &mut TaskList, today: &str, now: u64, idle_secs: u64, inhibited: bool) -> (r: bool)
    requires
        tick_fits(old(list)@, today@, now, idle_secs, inhibited),
    ensures
        final(list)@ == ticked(old(list)@, today@, now, idle_secs, inhibited),
        r == (is_idle(old(list)@.settings.idle_minutes, idle_secs, inhibited) && !(old(
            list,
        )@.active is Some && old(list)@.active_since is None)),
        old(list)@.settings.idle_minutes == 0 || inhibited || idle_secs < 60 * old(
            list,
        )@.settings.idle_minutes && idle_secs < u64::MAX ==> !r,
        old(list)@.settings.idle_minutes > 0 && !inhibited && idle_secs >= 60 * old(
            list,
        )@.settings.idle_minutes && old(list)@.active_since is Some ==> r,
        old(list)@.wf() ==> final(list)@.wf(),
{
    let limit: u64 = match list.settings().idle_minutes.checked_mul(60) {
        Some(secs) => secs,
        None => u64::MAX,
    };
    list.set_date(today);
    if limit > 0 && idle_secs >= limit && !inhibited {
        list.flush(now.saturating_sub(idle_secs));
        let was_running: bool = !list.is_paused();
        list.pause();
        was_running
    } else {
        list.resume(now);
        list.flush(now);
        false
    }
}

/// The screen is locked: count up to now and pause.
pub fn lock(list: &mut TaskList, today: &str, now: u64)
    requires
        dated(old(list)@, today@).flush_fits(now),
    ensures
        final(list)@ == (ListView {
            active_since: None,
            ..dated(old(list)@, today@).flushed(now)
        }),
        old(list)@.wf() ==> final(list)@.wf(),
{
    list.set_date(today);
    list.flush(now);
    list.pause();
}

/// The screen is unlocked: tracking goes on.
pub fn unlock(list: &mut TaskList, now: u64)
    ensures
        final(list)@ == resumed(old(list)@, now),
        old(list)@.wf() ==> final(list)@.wf(),
{
    list.resume(now);
}

/// Switch to a task. Returns the window that gets the focus: the first one of the
/// desktop that is active then.
pub fn switch_task(list: &mut TaskList, id: TaskId, today: &str, now: u64) -> (r: Option<WindowId>)
    requires
        old(list)@.has_task(id) && old(list)@.active != Some(id) ==> dated(
            old(list)@,
            today@,
        ).flush_fits(now),
    ensures
        final(list)@ == dated(old(list)@, today@).activated(id, now),
        focus::is_first(final(list)@, r),
        old(list)@.wf() ==> final(list)@.wf(),
{
    list.set_date(today);
    list.set_active(id, now);
    focus::first_window(list)
}

/// Switch to desktop 0. Returns the window that gets the keyboard: the first one
/// there.
pub fn switch_to_desktop0(list: &mut TaskList, today: &str, now: u64) -> (r: Option<WindowId>)
    requires
        dated(old(list)@, today@).flush_fits(now),
    ensures
        final(list)@ == dated(old(list)@, today@).on_scratch(now),
        focus::is_first(final(list)@, r),
        old(list)@.wf() ==> final(list)@.wf(),
{
    list.set_date(today);
    list.set_scratch_active(now);
    focus::first_window(list)
}

/// Count the running interval, for a report or on exit.
pub fn snapshot(list: &mut TaskList, today: &str, now: u64)
    requires
        dated(old(list)@, today@).flush_fits(now),
    ensures
        final(list)@ == dated(old(list)@, today@).flushed(now),
        old(list)@.wf() ==> final(list)@.wf(),
{
    list.set_date(today);
    list.flush(now);
}

// ---------------------------------------------------------------------------
// Repainting
// ---------------------------------------------------------------------------

/// How long compositing goes on after the last client damage, in milliseconds.
pub const DAMAGE_TAIL_MS: u64 = 150;

/// Whether to repaint: there is client damage, or there was some within the
/// tail, or an animation is in flight. A static desktop idles.
pub fn needs_repaint(damage: bool, since_damage_ms: u64, animating: bool) -> (r: bool)
    ensures
        r == (damage || since_damage_ms < DAMAGE_TAIL_MS || animating),
        damage || animating || since_damage_ms < 150 <==> r,
{
    damage || since_damage_ms < DAMAGE_TAIL_MS || animating
}

/// Follows the size of the content area.
#[derive(Debug, Clone, Copy, PartialEq, Eq)]
pub struct OutputSize {
    pub width: i32,
    pub height: i32,
}

impl OutputSize {
    /// The host window has a size in whole logical px. Returns the command that
    /// resizes the output where the content area changed.
    pub fn sync(&mut self, logical_w: i32, logical_h: i32) -> (r: Option<Command>)
        requires
            logical_w >= i32::MIN + geom::SIDEBAR_W,
        ensures
            final(self).width == geom::larger(logical_w - geom::SIDEBAR_W, 1),
            final(self).height == geom::larger(logical_h as int, 1),
            logical_w > 252 ==> final(self).width + 252 == logical_w,
            logical_w <= 252 ==> final(self).width == 1,
            logical_h > 0 ==> final(self).height == logical_h,
            logical_h <= 0 ==> final(self).height == 1,
            r == if *final(self) == *old(self) {
                None
            } else {
                Some(
                    Command::ResizeOutput {
                        width: final(self).width,
                        height: final(self).height,
                    },
                )
            },
    {
        let (width, height) = geom::content_area(logical_w, logical_h);
        if self.width == width && self.height == height {
            return None;
        }
        self.width = width;
        self.height = height;
        Some(Command::ResizeOutput { width, height })
    }
}

// ---------------------------------------------------------------------------
// Laws
// ---------------------------------------------------------------------------

/// Idle time is not counted: ticks while the user stays away leave the task's
/// total where the first one put it.
pub proof fn law_idle_time_is_not_counted(
    list: ListView,
    today: Seq<char>,
    now: u64,
    idle_secs: u64,
    later: u64,
    later_idle: u64,
)
    requires
        is_idle(list.settings.idle_minutes, idle_secs, false),
        is_idle(list.settings.idle_minutes, later_idle, false),
    ensures
        ({
            let once = ticked(list, today, now, idle_secs, false);
            ticked(once, today, later, later_idle, false) == once
        }),
{
    let once = ticked(list, today, now, idle_secs, false);
    assert(ticked(once, today, later, later_idle, false) =~= once);
}

/// A new task is active at once, stands last in the sidebar, and has counted no
/// time yet.
pub proof fn law_new_task_is_active(list: ListView, today: Seq<char>, new: NewTask, now: u64)
    requires
        list.wf(),
        list.next_id < u64::MAX,
    ensures
        ({
            let id = TaskId(list.next_id);
            let after = with_new_task(list, today, new).activated(id, now);
            &&& after.active == Some(id)
            &&& after.tasks.len() == list.tasks.len() + 1
            &&& after.tasks.last().id == id
            &&& after.tasks.last().accumulated_secs == 0
            &&& after.tasks.last().github == link_view(new.link)
        }),
{
    let id = TaskId(list.next_id);
    let l = dated(list, today).added(new.name@, new.category@);
    let n = list.tasks.len() as int;
    assert(l.tasks[n].id == id);
    assert forall|j: int| 0 <= j < n implies (#[trigger] l.tasks[j]).id != id by {
        assert(l.tasks[j] == list.tasks[j]);
        assert(list.tasks[j].id.0 < list.next_id);
    }
    tasklist::lemma_task_index_unique(l.tasks, id, n);
    let m = with_new_task(list, today, new);
    assert(m.tasks.len() == n + 1);
    assert(m.tasks[n].id == id);
    assert forall|j: int| 0 <= j < n implies (#[trigger] m.tasks[j]).id != id by {
        assert(m.tasks[j] == l.tasks[j]);
    }
    tasklist::lemma_task_index_unique(m.tasks, id, n);
    match list.active {
        Some(a) => {
            assert(list.has_task(a));
            tasklist::lemma_task_index(list.tasks, a);
            assert(a != id) by {
                let k = tasklist::task_index(list.tasks, a);
                assert(list.tasks[k].id.0 < list.next_id);
            }
        },
        None => {},
    }
    let f = m.flushed(now);
    if m.running(now) > 0 {
        tasklist::lemma_task_index(m.tasks, list.active->0);
    }
    assert(f.tasks.len() == n + 1);
    assert forall|j: int| 0 <= j <= n implies (#[trigger] f.tasks[j]).id == m.tasks[j].id by {}
    tasklist::lemma_task_index_same_ids(f.tasks, m.tasks, id);
    if m.running(now) > 0 {
        let a = list.active->0;
        tasklist::lemma_task_index(m.tasks, a);
        let k = tasklist::task_index(m.tasks, a);
        assert(k != n) by {
            if k == n {
                assert(m.tasks[n].id == id);
            }
        }
        assert(f.tasks[n] == m.tasks[n]);
    }
}

/// Deleting a task closes exactly its windows, and afterwards it has none.
pub proof fn law_deleted_task_leaves_no_windows(
    list: ListView,
    id: TaskId,
    today: Seq<char>,
    now: u64,
    w: WindowId,
)
    ensures
        dated(list, today).removed(id, now).task_of(w) != Some(id),
{
}

/// The user is idle exactly when idleness is not switched off, no client inhibits
/// it, and the seconds without input have reached the set number of minutes. (A
/// setting beyond what 64 bits of seconds can hold is reached at their end.)
pub proof fn law_idle_after_the_set_minutes(minutes: u64, idle_secs: u64, inhibited: bool)
    requires
        60 * minutes <= u64::MAX || idle_secs < u64::MAX,
    ensures
        is_idle(minutes, idle_secs, inhibited) <==> minutes != 0 && !inhibited && idle_secs >= 60
            * minutes,
{
}

/// While the user is active, or may not count as idle, a tick counts the whole
/// interval up to now for the active task, and the clock goes on from now.
pub proof fn law_active_time_is_counted_in_full(
    list: ListView,
    today: Seq<char>,
    now: u64,
    idle_secs: u64,
    inhibited: bool,
    id: TaskId,
    k: int,
    since: u64,
)
    requires
        list.wf(),
        tick_fits(list, today, now, idle_secs, inhibited),
        list.settings.idle_minutes == 0 || inhibited || idle_secs < 60
            * list.settings.idle_minutes,
        idle_secs < u64::MAX,
        list.active == Some(id),
        list.active_since == Some(since),
        since <= now,
        0 <= k < list.tasks.len(),
        list.tasks[k].id == id,
    ensures
        ({
            let r = ticked(list, today, now, idle_secs, inhibited);
            &&& r.tasks[k].accumulated_secs == list.tasks[k].accumulated_secs + (now - since)
            &&& r.active_since == Some(now)
            &&& r.active == list.active
            &&& r.current_date == today
            &&& forall|i: int|
                0 <= i < list.tasks.len() && i != k ==> #[trigger] r.tasks[i] == list.tasks[i]
        }),
{
    let l = dated(list, today);
    assert forall|j: int| 0 <= j < k implies (#[trigger] l.tasks[j]).id != id by {
        assert(list.tasks[j].id != list.tasks[k].id);
    }
    tasklist::lemma_task_index_unique(l.tasks, id, k);
    law_idle_after_the_set_minutes(list.settings.idle_minutes, idle_secs, inhibited);
}

/// Once the user counts as idle, a tick counts the interval up to the moment that
/// input stopped, and stops the clock.
pub proof fn law_idle_tick_counts_up_to_the_last_input(
    list: ListView,
    today: Seq<char>,
    now: u64,
    idle_secs: u64,
    id: TaskId,
    k: int,
    since: u64,
)
    requires
        list.wf(),
        tick_fits(list, today, now, idle_secs, false),
        list.settings.idle_minutes > 0,
        idle_secs >= 60 * list.settings.idle_minutes,
        list.active == Some(id),
        list.active_since == Some(since),
        0 <= k < list.tasks.len(),
        list.tasks[k].id == id,
    ensures
        ({
            let r = ticked(list, today, now, idle_secs, false);
            &&& since + idle_secs <= now ==> r.tasks[k].accumulated_secs
                == list.tasks[k].accumulated_secs + (now - idle_secs - since)
            &&& since + idle_secs > now ==> r.tasks[k].accumulated_secs
                == list.tasks[k].accumulated_secs
            &&& r.active_since is None
            &&& r.active == list.active
            &&& forall|i: int|
                0 <= i < list.tasks.len() && i != k ==> #[trigger] r.tasks[i] == list.tasks[i]
        }),
{
    let l = dated(list, today);
    assert forall|j: int| 0 <= j < k implies (#[trigger] l.tasks[j]).id != id by {
        assert(list.tasks[j].id != list.tasks[k].id);
    }
    tasklist::lemma_task_index_unique(l.tasks, id, k);
}

/// The first tick after a pause counts nothing and starts the clock.
pub proof fn law_return_starts_the_clock(
    list: ListView,
    today: Seq<char>,
    now: u64,
    idle_secs: u64,
    inhibited: bool,
)
    requires
        list.settings.idle_minutes == 0 || inhibited || idle_secs < 60
            * list.settings.idle_minutes,
        idle_secs < u64::MAX,
        list.active_since is None,
    ensures
        ({
            let r = ticked(list, today, now, idle_secs, inhibited);
            &&& r.tasks == list.tasks
            &&& r.time_log == list.time_log
            &&& r.active == list.active
            &&& list.active is Some ==> r.active_since == Some(now)
            &&& list.active is None ==> r.active_since is None
        }),
{
    law_idle_after_the_set_minutes(list.settings.idle_minutes, idle_secs, inhibited);
}

/// What the wizard asked for is what the new task has: its name and category,
/// its branch and repository where they are given, and its link. The repository
/// is remembered.
pub proof fn law_new_task_is_as_asked(list: ListView, today: Seq<char>, new: NewTask)
    requires
        list.wf(),
        list.next_id < u64::MAX,
    ensures
        ({
            let r = with_new_task(list, today, new);
            let t = r.tasks.last();
            &&& r.tasks.drop_last() == list.tasks
            &&& t.id.0 == list.next_id
            &&& t.name == new.name@
            &&& t.category == new.category@
            &&& new.branch@.len() > 0 ==> t.branch == Some(new.branch@)
            &&& new.branch@.len() == 0 ==> t.branch is None
            &&& new.repo@.len() > 0 ==> t.repo == Some(new.repo@) && r.repo_history[0] == new.repo@
            &&& new.repo@.len() == 0 ==> t.repo is None && r.repo_history == list.repo_history
            &&& (t.github is Some <==> new.link is Some)
            &&& match (t.github, new.link) {
                (Some(a), Some(b)) => a.slug == b.slug@ && a.number == b.number && a.title
                    == b.title@ && a.url == b.url@ && a.last_seen == b.last_seen,
                _ => true,
            }
            &&& r.next_id == list.next_id + 1
            &&& r.current_date == today
        }),
{
    let id = TaskId(list.next_id);
    let l = dated(list, today).added(new.name@, new.category@);
    let n = list.tasks.len() as int;
    assert(l.tasks[n].id == id);
    assert forall|j: int| 0 <= j < n implies (#[trigger] l.tasks[j]).id != id by {
        assert(l.tasks[j] == list.tasks[j]);
        assert(list.tasks[j].id.0 < list.next_id);
    }
    tasklist::lemma_task_index_unique(l.tasks, id, n);
    let r = with_new_task(list, today, new);
    assert(r.tasks.drop_last() =~= list.tasks);
}

/// One command closes each window, in order.
pub proof fn law_every_window_is_asked_to_close(windows: Seq<WindowId>, i: int)
    requires
        0 <= i < windows.len(),
    ensures
        closes(windows).len() == windows.len(),
        closes(windows)[i] == Command::CloseWindow(windows[i]),
{
}

/// Moving a task by some positions puts it that many further down, at most last;
/// a move above the top is ignored. The others keep their order.
pub proof fn law_moved_task_stands_further_down(list: ListView, id: TaskId, k: int, delta: int)
    requires
        list.wf(),
        0 <= k < list.tasks.len(),
        list.tasks[k].id == id,
    ensures
        ({
            let r = shifted(list, id, delta).tasks;
            &&& r.len() == list.tasks.len()
            &&& k + delta < 0 ==> r == list.tasks
            &&& 0 <= k + delta < list.tasks.len() ==> r[k + delta] == list.tasks[k] && r.remove(
                k + delta,
            ) == list.tasks.remove(k)
            &&& k + delta >= list.tasks.len() ==> r.last() == list.tasks[k] && r.drop_last()
                == list.tasks.remove(k)
        }),
{
    assert forall|j: int| 0 <= j < k implies (#[trigger] list.tasks[j]).id != id by {
        assert(list.tasks[j].id != list.tasks[k].id);
    }
    tasklist::lemma_task_index_unique(list.tasks, id, k);
    let r = shifted(list, id, delta).tasks;
    if 0 <= k + delta < list.tasks.len() {
        assert(r.remove(k + delta) =~= list.tasks.remove(k));
    } else if k + delta >= list.tasks.len() {
        assert(r.drop_last() =~= list.tasks.remove(k));
    }
}

/// Dragging a task by rows of 64 px moves it by as many positions, at most to
/// either end. The others keep their order.
pub proof fn law_dragged_task_follows_the_rows(
    list: ListView,
    id: TaskId,
    k: int,
    rows: int,
    rest: int,
)
    requires
        list.wf(),
        0 <= k < list.tasks.len(),
        list.tasks[k].id == id,
        -32 * 256 < rest < 32 * 256,
    ensures
        ({
            let r = dragged(list, id, geom::slots(64 * 256 * rows + rest)).tasks;
            &&& r.len() == list.tasks.len()
            &&& 0 <= k + rows < list.tasks.len() ==> r[k + rows] == list.tasks[k] && r.remove(
                k + rows,
            ) == list.tasks.remove(k)
            &&& k + rows < 0 ==> r.first() == list.tasks[k] && r.drop_first()
                == list.tasks.remove(k)
            &&& k + rows >= list.tasks.len() ==> r.last() == list.tasks[k] && r.drop_last()
                == list.tasks.remove(k)
        }),
{
    assert forall|j: int| 0 <= j < k implies (#[trigger] list.tasks[j]).id != id by {
        assert(list.tasks[j].id != list.tasks[k].id);
    }
    tasklist::lemma_task_index_unique(list.tasks, id, k);
    let dy = 64 * 256 * rows + rest;
    geom::law_drag_moves_by_the_nearest_rows(dy);
    geom::law_drag_moves_by_the_nearest_rows(-dy);
    assert(64 * 256 * rows == 16384 * rows);
    let n = geom::slots(dy);
    assert(64 * 256 * n == 16384 * n);
    assert(64 * 256 * geom::slots(-dy) == 16384 * geom::slots(-dy));
    assert(n == rows);
    let r = dragged(list, id, n).tasks;
    if 0 <= k + rows < list.tasks.len() {
        assert(r.remove(k + rows) =~= list.tasks.remove(k));
    } else if k + rows < 0 {
        assert(r.drop_first() =~= list.tasks.remove(k));
    } else {
        assert(r.drop_last() =~= list.tasks.remove(k));
    }
}

/// The sidebar shows a task under its own id, name and category, with the whole
/// minutes counted for it.
pub proof fn law_sidebar_shows_whole_minutes(item: TaskItem, t: TaskView, i: int)
    requires
        shows_task(item, t, i),
    ensures
        item.id == t.id.0,
        item.name@ == t.name,
        item.category@ == t.category,
        60 * item.minutes <= t.accumulated_secs < 60 * item.minutes + 60,
        item.has_notification == t.has_notification,
{
}

/// The desktop is named after the active task.
pub proof fn law_desktop_is_named_after_its_task(list: ListView, k: int)
    requires
        list.wf(),
    ensures
        0 <= k < list.tasks.len() && list.active == Some(list.tasks[k].id) ==> desktop_name(list)
            == list.tasks[k].name,
        list.active is None ==> desktop_name(list) == "Desktop 0"@,
{
    if 0 <= k < list.tasks.len() && list.active == Some(list.tasks[k].id) {
        let id = list.tasks[k].id;
        assert forall|j: int| 0 <= j < k implies (#[trigger] list.tasks[j]).id != id by {
            assert(list.tasks[j].id != list.tasks[k].id);
        }
        tasklist::lemma_task_index_unique(list.tasks, id, k);
    }
}

} // verus!
