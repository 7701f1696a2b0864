//! A task list without a scratch desktop: while there are tasks, one of them is
//! active, and windows that are mapped while none is active belong nowhere.

use vstd::prelude::*;

use crate::event::Command;
use crate::model::{TaskId, WindowId};
use crate::settings::Settings;
use crate::task::{AppView, SessionApp, Task};
use crate::tasklist;
use crate::tasklist::ListView;
use crate::text;
use crate::timelog;

verus! {

/// The ordered set of tasks plus window assignment, active task and time
/// accumulation.
#[derive(Debug)]
pub struct TaskList {
    inner: tasklist::TaskList,
}

impl View for TaskList {
    type V = ListView;

    closed spec fn view(&self) -> ListView {
        self.inner@
    }
}

/// Every window belongs to a task, and time is not logged by day.
pub open spec fn pinned(l: ListView) -> bool {
    &&& l.wf()
    &&& forall|w: u64| #[trigger] l.window_task.contains_key(w) ==> l.window_task[w] is Some
    &&& l.current_date.len() == 0
}

/// The list with its first task active, if none was.
pub open spec fn started(l: ListView, now: u64) -> ListView {
    if l.active is None && l.tasks.len() > 0 {
        l.activated(l.tasks[0].id, now)
    } else {
        l
    }
}

impl TaskList {
    /// An empty list.
    pub fn new() -> (r: Self)
        ensures
            r@ == ListView::empty(),
            pinned(r@),
    {
        TaskList { inner: tasklist::TaskList::new() }
    }

    /// A list of persisted tasks, whose id counter is to be rebuilt with
    /// [`TaskList::reindex_after_load`].
    pub fn from_tasks(tasks: Vec<Task>) -> (r: Self)
        ensures
            r@ == (ListView { tasks: tasklist::task_views(tasks@), ..ListView::empty() }),
    {
        let history: Vec<String> = Vec::new();
        let entries: Vec<timelog::TimeEntry> = Vec::new();
        let session: Vec<SessionApp> = Vec::new();
        assert(text::views(history@) =~= Seq::<Seq<char>>::empty());
        assert(timelog::entry_views(entries@) =~= Seq::<timelog::EntryView>::empty());
        assert(tasklist::app_views(session@) =~= Seq::<AppView>::empty());
        TaskList {
            inner: tasklist::TaskList::from_parts(
                tasks,
                0,
                history,
                entries,
                Settings::default(),
                session,
            ),
        }
    }

    /// The tasks in sidebar order.
    pub fn tasks(&self) -> (r: &[Task])
        ensures
            tasklist::task_views(r@) == self@.tasks,
    {
        self.inner.tasks()
    }

    /// Whether there are no tasks.
    pub fn is_empty(&self) -> (r: bool)
        ensures
            r == (self@.tasks.len() == 0),
    {
        self.inner.is_empty()
    }

    /// The active task.
    pub fn active(&self) -> (r: Option<TaskId>)
        ensures
            r == self@.active,
    {
        self.inner.active()
    }

    /// The task with the id.
    pub fn get(&self, id: TaskId) -> (r: Option<&Task>)
        ensures
            match r {
                Some(t) => self@.has_task(id) && t@ == self@.tasks[tasklist::task_index(
                    self@.tasks,
                    id,
                )],
                None => !self@.has_task(id),
            },
    {
        self.inner.get(id)
    }

    /// The task with the id, for editing.
    pub fn get_mut(&mut self, id: TaskId) -> (r: Option<&mut Task>)
        ensures
            match r {
                Some(t) => {
                    let k = tasklist::task_index(old(self)@.tasks, id);
                    &&& old(self)@.has_task(id)
                    &&& t@ == old(self)@.tasks[k]
                    &&& final(self)@ == old(self)@.with_task(k, final(t)@)
                },
                None => !old(self)@.has_task(id) && final(self)@ == old(self)@,
            },
    {
        self.inner.get_mut(id)
    }

    /// Create a new task, appended at the end of the sidebar order, and return
    /// its id. Does not change the active task.
    pub fn add_task(&mut self, name: &str, category: &str) -> (r: TaskId)
        requires
            old(self)@.next_id < u64::MAX,
        ensures
            r == TaskId(old(self)@.next_id),
            final(self)@ == old(self)@.added(name@, category@),
            pinned(old(self)@) ==> pinned(final(self)@),
    {
        self.inner.add_task(name, category)
    }

    /// Activates the first task, if none is active.
    pub fn start(&mut self, now: u64)
        requires
            pinned(old(self)@),
        ensures
            final(self)@ == started(old(self)@, now),
            pinned(final(self)@),
    {
        proof {
            if self@.tasks.len() > 0 {
                assert(tasklist::task_index(self@.tasks, self@.tasks[0].id) == 0);
            }
        }
        if self.inner.active().is_none() && !self.inner.is_empty() {
            let first = self.inner.tasks()[0].id;
            assert(first == self@.tasks[0].id);
            self.set_active(first, now);
        }
    }

    /// Remove a task and any windows assigned to it. If it was active, the first
    /// remaining task becomes active (or none is); the supplied `now` flushes
    /// the running interval first.
    pub fn remove_task(&mut self, id: TaskId, now: u64)
        requires
            pinned(old(self)@),
            old(self)@.active == Some(id) ==> old(self)@.flush_fits(now),
        ensures
            final(self)@ == started(old(self)@.removed(id, now), now),
            pinned(final(self)@),
            !final(self)@.has_task(id),
    {
        self.inner.remove_task(id, now);
        let ghost mid = self@;
        self.start(now);
        proof {
            if mid.active is None && mid.tasks.len() > 0 {
                let first = mid.tasks[0].id;
                tasklist::lemma_flushed_wf(mid, now);
                tasklist::lemma_task_index_same_ids(mid.tasks, self@.tasks, id);
            }
        }
    }

    /// Move the task at `from` to position `to` (both clamped). No-op if out of
    /// range or equal.
    pub fn reorder(&mut self, from: usize, to: usize)
        ensures
            final(self)@ == old(self)@.reordered(from as int, to as int),
            pinned(old(self)@) ==> pinned(final(self)@),
    {
        self.inner.reorder(from, to);
    }

    /// Switch the active task, accumulating the elapsed focus time onto the
    /// previously active task. `now` is a monotonic timestamp in seconds.
    pub fn set_active(&mut self, id: TaskId, now: u64)
        requires
            old(self)@.has_task(id) && old(self)@.active != Some(id) ==> old(self)@.flush_fits(now),
        ensures
            final(self)@ == old(self)@.activated(id, now),
            pinned(old(self)@) ==> pinned(final(self)@),
    {
        self.inner.set_active(id, now);
    }

    /// Flush the running focus interval into the active task without switching,
    /// e.g. on a periodic persist tick. `now` is seconds.
    pub fn flush(&mut self, now: u64)
        requires
            old(self)@.flush_fits(now),
        ensures
            final(self)@ == old(self)@.flushed(now),
            pinned(old(self)@) ==> pinned(final(self)@),
    {
        self.inner.flush(now);
    }

    /// Assign a newly mapped window to the active task. Returns the task it was
    /// assigned to, if any.
    pub fn assign_window(&mut self, window: WindowId) -> (r: Option<TaskId>)
        ensures
            r == old(self)@.active,
            final(self)@ == if old(self)@.active is Some {
                old(self)@.with_window(window, old(self)@.active)
            } else {
                old(self)@
            },
            pinned(old(self)@) ==> pinned(final(self)@),
    {
        if self.inner.active().is_none() {
            return None;
        }
        self.inner.assign_window(window)
    }

    /// Forget a window that has been unmapped.
    pub fn remove_window(&mut self, window: WindowId)
        ensures
            final(self)@ == (ListView {
                window_task: old(self)@.window_task.remove(window.0),
                minimized: old(self)@.minimized.remove(window.0),
                maximized: old(self)@.maximized.remove(window.0),
                ..old(self)@
            }),
            pinned(old(self)@) ==> pinned(final(self)@),
    {
        self.inner.remove_window(window);
    }

    /// The task a window belongs to, if known.
    pub fn task_of_window(&self, window: WindowId) -> (r: Option<TaskId>)
        ensures
            r == self@.task_of(window),
    {
        self.inner.task_of_window(window)
    }

    /// Windows belonging to a task, by window id, ascending.
    pub fn windows_for(&self, id: TaskId) -> (r: Vec<WindowId>)
        ensures
            self@.lists_desktop(r@, Some(id)),
    {
        self.inner.windows_for(id)
    }

    /// Windows belonging to the active task (the ones that should be visible).
    pub fn active_windows(&self) -> (r: Vec<WindowId>)
        ensures
            match self@.active {
                Some(id) => self@.lists_desktop(r@, Some(id)),
                None => r@.len() == 0,
            },
    {
        match self.inner.active() {
            Some(id) => self.inner.windows_for(id),
            None => Vec::new(),
        }
    }

    /// Whether a window is on the active task (i.e. currently visible).
    pub fn is_visible(&self, window: WindowId) -> (r: bool)
        ensures
            r == (self@.active is Some && self@.task_of(window) == self@.active),
    {
        match (self.inner.active(), self.inner.task_of_window(window)) {
            (Some(a), Some(t)) => a == t,
            _ => false,
        }
    }

    /// Mark a task as having a pending notification (no-op for the active task,
    /// which is already being looked at).
    pub fn notify(&mut self, id: TaskId)
        ensures
            final(self)@ == if old(self)@.active == Some(id) {
                old(self)@
            } else {
                old(self)@.marked(id, true)
            },
            pinned(old(self)@) ==> pinned(final(self)@),
    {
        self.inner.notify(id);
    }

    /// Rebuild the volatile state (ids counter) after loading from disk, so new
    /// task ids don't collide with persisted ones.
    pub fn reindex_after_load(&mut self)
        requires
            ListView::id_after(old(self)@.tasks) <= u64::MAX,
        ensures
            final(self)@ == (ListView {
                next_id: ListView::id_after(old(self)@.tasks) as u64,
                ..old(self)@
            }),
    {
        self.inner.reindex_after_load();
    }

    /// The commands that follow a new size of the content area: the output gets
    /// it, and so does every visible window.
    pub fn fill(&self, width: i32, height: i32) -> (r: Vec<Command>)
        ensures
            exists|w: Seq<WindowId>|
                (match self@.active {
                    Some(id) => self@.lists_desktop(w, Some(id)),
                    None => w.len() == 0,
                }) && r@ == #[trigger] fills(w, width, height),
    {
        let windows = self.active_windows();
        let mut out: Vec<Command> = Vec::new();
        out.push(Command::ResizeOutput { width, height });
        let mut i: usize = 0;
        assert(out@ =~= fills(windows@.take(0), width, height));
        while i < windows.len()
            invariant
                i <= windows@.len(),
                out@ == fills(windows@.take(i as int), width, height),
            decreases windows@.len() - i,
        {
            out.push(Command::ResizeWindow { id: windows[i], width, height });
            i += 1;
            assert(out@ =~= fills(windows@.take(i as int), width, height));
        }
        assert(windows@.take(i as int) =~= windows@);
        out
    }
}

/// The output and the windows at one size.
pub open spec fn fills(windows: Seq<WindowId>, width: i32, height: i32) -> Seq<Command> {
    seq![Command::ResizeOutput { width, height }] + windows.map_values(
        |id: WindowId| Command::ResizeWindow { id, width, height },
    )
}

// ---------------------------------------------------------------------------
// Laws
// ---------------------------------------------------------------------------

/// After a removal some task is active, as long as one is left.
pub proof fn law_some_task_stays_active(l: ListView, id: TaskId, now: u64)
    requires
        pinned(l),
    ensures
        ({
            let after = started(l.removed(id, now), now);
            after.tasks.len() > 0 ==> after.active is Some
        }),
{
    let mid = l.removed(id, now);
    if mid.tasks.len() > 0 {
        assert(tasklist::task_index(mid.tasks, mid.tasks[0].id) == 0);
    }
}

/// A window is visible exactly when its task is the active one, and then it is
/// listed.
pub proof fn law_visible_windows_are_listed(l: ListView, listed: Seq<WindowId>, w: WindowId)
    requires
        pinned(l),
        l.active is Some,
        l.lists_desktop(listed, l.active),
    ensures
        listed.contains(w) <==> l.task_of(w) == l.active,
{
}

/// Where nothing is active, the first task becomes active; otherwise nothing
/// changes.
pub proof fn law_first_task_is_started(l: ListView, now: u64)
    requires
        l.wf(),
    ensures
        l.active is Some || l.tasks.len() == 0 ==> started(l, now) == l,
        l.active is None && l.tasks.len() > 0 ==> {
            let r = started(l, now);
            &&& r.active == Some(l.tasks[0].id)
            &&& r.active_since == Some(now)
            &&& r.tasks.len() == l.tasks.len()
            &&& r.window_task == l.window_task
            &&& r.time_log == l.time_log
        },
{
    if l.active is None && l.tasks.len() > 0 {
        let id = l.tasks[0].id;
        tasklist::lemma_task_index(l.tasks, id);
        assert(tasklist::task_index(l.tasks, id) == 0);
    }
}

/// The output is resized first, and then every window to the same size, in order.
pub proof fn law_windows_fill_the_output(
    windows: Seq<WindowId>,
    width: i32,
    height: i32,
    i: int,
)
    requires
        0 <= i < windows.len(),
    ensures
        fills(windows, width, height).len() == windows.len() + 1,
        fills(windows, width, height)[0] == (Command::ResizeOutput { width, height }),
        fills(windows, width, height)[i + 1] == (Command::ResizeWindow {
            id: windows[i],
            width,
            height,
        }),
{
}

} // verus!
