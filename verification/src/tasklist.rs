//! The ordered set of tasks with window assignment, the active desktop and time
//! accumulation.

use std::collections::{HashMap, HashSet};

use vstd::prelude::*;
use vstd::std_specs::iter::IteratorSpec;

use crate::model::{is_blank, TaskId, WindowId};
use crate::settings;
use crate::settings::{Settings, SettingsView};
use crate::task;
use crate::task::{AppView, SessionApp, Task, TaskView};
use crate::text;
use crate::timelog;
use crate::timelog::{EntryView, TimeEntry, TimeLog};

verus! {

broadcast use vstd::std_specs::hash::group_hash_axioms;

// ---------------------------------------------------------------------------
// Model
// ---------------------------------------------------------------------------

/// What a [`TaskList`] holds.
#[verifier::ext_equal]
pub struct ListView {
    /// Tasks in sidebar order.
    pub tasks: Seq<TaskView>,
    /// The desktop of every known window; `None` is desktop 0.
    pub window_task: Map<u64, Option<TaskId>>,
    pub active: Option<TaskId>,
    pub active_since: Option<u64>,
    pub minimized: Set<u64>,
    pub maximized: Set<u64>,
    pub next_id: u64,
    pub repo_history: Seq<Seq<char>>,
    pub time_log: Seq<EntryView>,
    pub settings: SettingsView,
    pub session: Seq<AppView>,
    pub current_date: Seq<char>,
}

/// Position of the first task with the id, or the number of tasks.
pub open spec fn task_index(tasks: Seq<TaskView>, id: TaskId) -> int
    decreases tasks.len(),
{
    if tasks.len() == 0 || tasks[0].id == id {
        0
    } else {
        1 + task_index(tasks.drop_first(), id)
    }
}

/// The tasks without those that have the id.
pub open spec fn without_task(tasks: Seq<TaskView>, id: TaskId) -> Seq<TaskView>
    decreases tasks.len(),
{
    if tasks.len() == 0 {
        tasks
    } else if tasks.last().id == id {
        without_task(tasks.drop_last(), id)
    } else {
        without_task(tasks.drop_last(), id).push(tasks.last())
    }
}

/// The history without the entries equal to `repo`.
pub open spec fn without_text(history: Seq<Seq<char>>, repo: Seq<char>) -> Seq<Seq<char>>
    decreases history.len(),
{
    if history.len() == 0 {
        history
    } else if history.last() == repo {
        without_text(history.drop_last(), repo)
    } else {
        without_text(history.drop_last(), repo).push(history.last())
    }
}

/// How many origin repositories are remembered.
pub const HISTORY_LIMIT: usize = 20;

impl ListView {
    /// The empty list, on desktop 0, with default settings.
    pub open spec fn empty() -> ListView {
        ListView {
            tasks: Seq::empty(),
            window_task: Map::empty(),
            active: None,
            active_since: None,
            minimized: Set::empty(),
            maximized: Set::empty(),
            next_id: 0,
            repo_history: Seq::empty(),
            time_log: Seq::empty(),
            settings: settings::default_settings(),
            session: Seq::empty(),
            current_date: Seq::empty(),
        }
    }

    /// Whether there is a task with the id.
    pub open spec fn has_task(self, id: TaskId) -> bool {
        task_index(self.tasks, id) < self.tasks.len()
    }

    /// The list with the task at position `k` replaced.
    pub open spec fn with_task(self, k: int, t: TaskView) -> ListView {
        ListView { tasks: self.tasks.update(k, t), ..self }
    }

    /// Task ids are distinct and below the next id; windows and the active
    /// desktop refer to tasks that exist; the clock runs only for a task.
    pub open spec fn wf(self) -> bool {
        &&& forall|i: int, j: int|
            0 <= i < j < self.tasks.len() ==> (#[trigger] self.tasks[i]).id != (
            #[trigger] self.tasks[j]).id
        &&& forall|i: int|
            0 <= i < self.tasks.len() ==> (#[trigger] self.tasks[i]).id.0 < self.next_id
        &&& forall|w: u64| #[trigger]
            self.window_task.contains_key(w) ==> match self.window_task[w] {
                Some(id) => self.has_task(id),
                None => true,
            }
        &&& match self.active {
            Some(id) => self.has_task(id),
            None => self.active_since is None,
        }
        &&& timelog::one_row_each(self.time_log)
    }

    /// Seconds of the running interval up to `now`.
    pub open spec fn running(self, now: u64) -> u64 {
        match (self.active, self.active_since) {
            (Some(_), Some(since)) => if now > since {
                (now - since) as u64
            } else {
                0
            },
            _ => 0,
        }
    }

    /// The list with `secs` of focus time added to task `id`: to its lifetime
    /// total and, under the current date, to the time log.
    pub open spec fn committed(self, id: TaskId, secs: u64) -> ListView {
        let k = task_index(self.tasks, id);
        let found = k < self.tasks.len();
        let t = self.tasks[k];
        let (project, category) = if found {
            (t.name, t.category)
        } else {
            (Seq::<char>::empty(), Seq::<char>::empty())
        };
        ListView {
            tasks: if found {
                self.tasks.update(
                    k,
                    TaskView { accumulated_secs: (t.accumulated_secs + secs) as u64, ..t },
                )
            } else {
                self.tasks
            },
            time_log: timelog::recorded(
                self.time_log,
                self.current_date,
                id,
                project,
                category,
                secs,
            ),
            ..self
        }
    }

    /// Whether the sums that adding `secs` to task `id` forms can be held.
    pub open spec fn commit_fits(self, id: TaskId, secs: u64) -> bool {
        let k = task_index(self.tasks, id);
        &&& k < self.tasks.len() ==> self.tasks[k].accumulated_secs + secs <= u64::MAX
        &&& timelog::record_fits(self.time_log, self.current_date, id, secs)
    }

    /// The list with the running interval up to `now` counted.
    pub open spec fn flushed(self, now: u64) -> ListView {
        let secs = self.running(now);
        if secs > 0 {
            ListView { active_since: Some(now), ..self.committed(self.active->0, secs) }
        } else {
            self
        }
    }

    /// Whether the sums that flushing forms can be held.
    pub open spec fn flush_fits(self, now: u64) -> bool {
        let secs = self.running(now);
        secs > 0 ==> self.commit_fits(self.active->0, secs)
    }

    /// The list with the notification mark of task `id` set as given.
    pub open spec fn marked(self, id: TaskId, notification: bool) -> ListView {
        let k = task_index(self.tasks, id);
        if k < self.tasks.len() {
            self.with_task(k, TaskView { has_notification: notification, ..self.tasks[k] })
        } else {
            self
        }
    }

    /// The list after switching to task `id`.
    pub open spec fn activated(self, id: TaskId, now: u64) -> ListView {
        if !self.has_task(id) || self.active == Some(id) {
            self
        } else {
            ListView {
                active: Some(id),
                active_since: Some(now),
                ..self.flushed(now)
            }.marked(id, false)
        }
    }

    /// The list after switching to desktop 0.
    pub open spec fn on_scratch(self, now: u64) -> ListView {
        if self.active is None {
            self
        } else {
            ListView { active: None, active_since: None, ..self.flushed(now) }
        }
    }

    /// The list after adding a task.
    pub open spec fn added(self, name: Seq<char>, category: Seq<char>) -> ListView {
        let id = TaskId(self.next_id);
        ListView {
            next_id: (self.next_id + 1) as u64,
            tasks: self.tasks.push(
                TaskView {
                    color: settings::palette()[(self.next_id % 8) as int],
                    ..task::fresh_task(id, name, category)
                },
            ),
            ..self
        }
    }

    /// The list after removing task `id` with the windows assigned to it.
    pub open spec fn removed(self, id: TaskId, now: u64) -> ListView {
        let l = if self.active == Some(id) {
            self.on_scratch(now)
        } else {
            self
        };
        ListView {
            tasks: without_task(l.tasks, id),
            window_task: l.window_task.restrict(
                l.window_task.dom().filter(|w: u64| l.window_task[w] != Some(id)),
            ),
            ..l
        }
    }

    /// The list after moving the task at `from` to position `to`.
    pub open spec fn reordered(self, from: int, to: int) -> ListView {
        if from >= self.tasks.len() {
            self
        } else {
            let at = if to < self.tasks.len() {
                to
            } else {
                self.tasks.len() - 1
            };
            ListView { tasks: self.tasks.remove(from).insert(at, self.tasks[from]), ..self }
        }
    }

    /// The windows on `desktop`, in increasing order of id.
    pub open spec fn lists_desktop(self, r: Seq<WindowId>, desktop: Option<TaskId>) -> bool {
        &&& forall|i: int, j: int|
            0 <= i < j < r.len() ==> (#[trigger] r[i]).0 < (#[trigger] r[j]).0
        &&& forall|w: WindowId| #[trigger]
            r.contains(w) <==> self.window_task.contains_key(w.0) && self.window_task[w.0]
                == desktop
    }

    /// Whether a window is on the active desktop.
    pub open spec fn shows(self, w: WindowId) -> bool {
        self.window_task.contains_key(w.0) && self.window_task[w.0] == self.active
    }

    /// The list with a window put on a desktop.
    pub open spec fn with_window(self, w: WindowId, desktop: Option<TaskId>) -> ListView {
        ListView { window_task: self.window_task.insert(w.0, desktop), ..self }
    }

    /// The task a window belongs to; `None` on desktop 0 and for an unknown
    /// window.
    pub open spec fn task_of(self, w: WindowId) -> Option<TaskId> {
        if self.window_task.contains_key(w.0) {
            self.window_task[w.0]
        } else {
            None
        }
    }

    /// The next free id after the largest one in use.
    pub open spec fn id_after(tasks: Seq<TaskView>) -> int
        decreases tasks.len(),
    {
        if tasks.len() == 0 {
            0
        } else {
            let rest = Self::id_after(tasks.drop_last());
            if tasks.last().id.0 + 1 > rest {
                tasks.last().id.0 + 1
            } else {
                rest
            }
        }
    }

    /// The list after entering an origin repository.
    pub open spec fn repo_recorded(self, repo: Seq<char>) -> ListView {
        if repo.len() == 0 {
            self
        } else {
            let h = seq![repo] + without_text(self.repo_history, repo);
            ListView {
                repo_history: if h.len() > HISTORY_LIMIT {
                    h.take(HISTORY_LIMIT as int)
                } else {
                    h
                },
                ..self
            }
        }
    }
}

// ---------------------------------------------------------------------------
// Facts about the model
// ---------------------------------------------------------------------------

/// The task found has the id, and none before it does.
pub proof fn lemma_task_index(tasks: Seq<TaskView>, id: TaskId)
    ensures
        0 <= task_index(tasks, id) <= tasks.len(),
        task_index(tasks, id) < tasks.len() ==> tasks[task_index(tasks, id)].id == id,
        forall|j: int| 0 <= j < task_index(tasks, id) ==> (#[trigger] tasks[j]).id != id,
    decreases tasks.len(),
{
    if tasks.len() > 0 && tasks[0].id != id {
        let d = tasks.drop_first();
        lemma_task_index(d, id);
        assert forall|j: int| 0 <= j < task_index(tasks, id) implies (#[trigger] tasks[j]).id
            != id by {
            if j > 0 {
                assert(d[j - 1] == tasks[j]);
            }
        }
    }
}

/// There is one first position only.
pub proof fn lemma_task_index_unique(tasks: Seq<TaskView>, id: TaskId, k: int)
    requires
        0 <= k <= tasks.len(),
        k < tasks.len() ==> tasks[k].id == id,
        forall|j: int| 0 <= j < k ==> (#[trigger] tasks[j]).id != id,
    ensures
        task_index(tasks, id) == k,
{
    lemma_task_index(tasks, id);
    let f = task_index(tasks, id);
    if f < k {
        assert(tasks[f].id != id);
    }
}

/// Finding a task depends on the ids alone.
pub proof fn lemma_task_index_same_ids(a: Seq<TaskView>, b: Seq<TaskView>, id: TaskId)
    requires
        a.len() == b.len(),
        forall|i: int| 0 <= i < a.len() ==> (#[trigger] a[i]).id == b[i].id,
    ensures
        task_index(a, id) == task_index(b, id),
{
    lemma_task_index(a, id);
    let k = task_index(a, id);
    assert forall|j: int| 0 <= j < k implies (#[trigger] b[j]).id != id by {
        assert(a[j].id != id);
    }
    lemma_task_index_unique(b, id, k);
}

/// An id is found exactly when some task has it.
pub proof fn lemma_has_task(l: ListView, id: TaskId)
    ensures
        l.has_task(id) <==> exists|i: int| 0 <= i < l.tasks.len() && (#[trigger] l.tasks[i]).id
            == id,
{
    lemma_task_index(l.tasks, id);
    if l.has_task(id) {
        assert(l.tasks[task_index(l.tasks, id)].id == id);
    }
}

/// Replacing a task by one with the same id keeps the list well-formed.
pub proof fn lemma_with_task_wf(l: ListView, k: int, t: TaskView)
    requires
        l.wf(),
        0 <= k < l.tasks.len(),
        t.id == l.tasks[k].id,
    ensures
        l.with_task(k, t).wf(),
        forall|id: TaskId| #[trigger] l.with_task(k, t).has_task(id) == l.has_task(id),
{
    let m = l.with_task(k, t);
    assert forall|id: TaskId| #[trigger] m.has_task(id) == l.has_task(id) by {
        lemma_task_index_same_ids(m.tasks, l.tasks, id);
    }
    assert forall|i: int, j: int| 0 <= i < j < m.tasks.len() implies (#[trigger] m.tasks[i]).id
        != (#[trigger] m.tasks[j]).id by {
        assert(l.tasks[i].id != l.tasks[j].id);
    }
    assert forall|i: int| 0 <= i < m.tasks.len() implies (#[trigger] m.tasks[i]).id.0
        < m.next_id by {
        assert(l.tasks[i].id.0 < l.next_id);
    }
    assert forall|w: u64| #[trigger] m.window_task.contains_key(w) implies match m.window_task[w] {
        Some(id) => m.has_task(id),
        None => true,
    } by {
        assert(l.window_task.contains_key(w));
    }
}

/// Counting an interval keeps the list well-formed.
pub proof fn lemma_flushed_wf(l: ListView, now: u64)
    requires
        l.wf(),
    ensures
        l.flushed(now).wf(),
        forall|id: TaskId| #[trigger] l.flushed(now).has_task(id) == l.has_task(id),
        l.flushed(now).active == l.active,
        l.flushed(now).window_task == l.window_task,
        l.flushed(now).tasks.len() == l.tasks.len(),
        l.flushed(now).next_id == l.next_id,
{
    let secs = l.running(now);
    if secs > 0 {
        let id = l.active->0;
        let k = task_index(l.tasks, id);
        lemma_task_index(l.tasks, id);
        let t = l.tasks[k];
        let m = l.with_task(
            k,
            TaskView { accumulated_secs: (t.accumulated_secs + secs) as u64, ..t },
        );
        lemma_with_task_wf(
            l,
            k,
            TaskView { accumulated_secs: (t.accumulated_secs + secs) as u64, ..t },
        );
        let f = l.flushed(now);
        assert(f.tasks == m.tasks);
        timelog::lemma_recorded_one_row(
            l.time_log,
            l.current_date,
            id,
            t.name,
            t.category,
            secs,
        );
        assert forall|x: TaskId| #[trigger] f.has_task(x) == l.has_task(x) by {
            assert(m.has_task(x) == l.has_task(x));
        }
        assert forall|w: u64| #[trigger] f.window_task.contains_key(w) implies match f.window_task[w] {
            Some(x) => f.has_task(x),
            None => true,
        } by {
            assert(l.window_task.contains_key(w));
        }
    }
}

/// Switching to a task keeps the list well-formed.
pub proof fn lemma_activated_wf(l: ListView, id: TaskId, now: u64)
    requires
        l.wf(),
    ensures
        l.activated(id, now).wf(),
{
    if l.has_task(id) && l.active != Some(id) {
        lemma_flushed_wf(l, now);
        let f = l.flushed(now);
        let m = ListView { active: Some(id), active_since: Some(now), ..f };
        assert(f.has_task(id) == l.has_task(id));
        assert(m.has_task(id));
        assert forall|w: u64| #[trigger] m.window_task.contains_key(w) implies match m.window_task[w] {
            Some(x) => m.has_task(x),
            None => true,
        } by {
            assert(f.window_task.contains_key(w));
        }
        assert(m.wf());
        let k = task_index(m.tasks, id);
        lemma_task_index(m.tasks, id);
        lemma_with_task_wf(m, k, TaskView { has_notification: false, ..m.tasks[k] });
    }
}

/// Switching to desktop 0 keeps the list well-formed.
pub proof fn lemma_on_scratch_wf(l: ListView, now: u64)
    requires
        l.wf(),
    ensures
        l.on_scratch(now).wf(),
        forall|id: TaskId| #[trigger] l.on_scratch(now).has_task(id) == l.has_task(id),
{
    if l.active is Some {
        lemma_flushed_wf(l, now);
        let f = l.flushed(now);
        let m = l.on_scratch(now);
        assert forall|x: TaskId| #[trigger] m.has_task(x) == l.has_task(x) by {
            assert(f.has_task(x) == l.has_task(x));
        }
        assert forall|w: u64| #[trigger] m.window_task.contains_key(w) implies match m.window_task[w] {
            Some(x) => m.has_task(x),
            None => true,
        } by {
            assert(f.window_task.contains_key(w));
        }
    }
}

/// Adding a task keeps the list well-formed, and its id is new.
pub proof fn lemma_added_wf(l: ListView, name: Seq<char>, category: Seq<char>)
    requires
        l.wf(),
        l.next_id < u64::MAX,
    ensures
        l.added(name, category).wf(),
        !l.has_task(TaskId(l.next_id)),
        l.added(name, category).has_task(TaskId(l.next_id)),
        forall|id: TaskId| l.has_task(id) ==> #[trigger] l.added(name, category).has_task(id),
{
    let m = l.added(name, category);
    let new_id = TaskId(l.next_id);
    lemma_has_task(l, new_id);
    lemma_has_task(m, new_id);
    assert(m.tasks[l.tasks.len() as int].id == new_id);
    assert forall|id: TaskId| l.has_task(id) implies #[trigger] m.has_task(id) by {
        lemma_has_task(l, id);
        lemma_has_task(m, id);
        let i = choose|i: int| 0 <= i < l.tasks.len() && (#[trigger] l.tasks[i]).id == id;
        assert(m.tasks[i].id == id);
    }
    assert forall|i: int, j: int| 0 <= i < j < m.tasks.len() implies (#[trigger] m.tasks[i]).id
        != (#[trigger] m.tasks[j]).id by {
        assert(l.tasks[i].id.0 < l.next_id);
        if j < l.tasks.len() {
            assert(l.tasks[i].id != l.tasks[j].id);
        }
    }
    assert forall|i: int| 0 <= i < m.tasks.len() implies (#[trigger] m.tasks[i]).id.0
        < m.next_id by {
        if i < l.tasks.len() {
            assert(l.tasks[i].id.0 < l.next_id);
        }
    }
    assert forall|w: u64| #[trigger] m.window_task.contains_key(w) implies match m.window_task[w] {
        Some(x) => m.has_task(x),
        None => true,
    } by {
        assert(l.window_task.contains_key(w));
    }
}

/// Leaving tasks out keeps their order: every remaining task stood in the list,
/// and every other task is still there.
pub proof fn lemma_without_task(tasks: Seq<TaskView>, id: TaskId)
    ensures
        forall|i: int|
            0 <= i < without_task(tasks, id).len() ==> (#[trigger] without_task(tasks, id)[i]).id
                != id && tasks.contains(without_task(tasks, id)[i]),
        forall|t: TaskView|
            tasks.contains(t) && t.id != id ==> #[trigger] without_task(tasks, id).contains(t),
        (forall|i: int, j: int|
            0 <= i < j < tasks.len() ==> (#[trigger] tasks[i]).id != (#[trigger] tasks[j]).id)
            ==> (forall|i: int, j: int|
            0 <= i < j < without_task(tasks, id).len() ==> (#[trigger] without_task(
                tasks,
                id,
            )[i]).id != (#[trigger] without_task(tasks, id)[j]).id),
    decreases tasks.len(),
{
    if tasks.len() > 0 {
        let d = tasks.drop_last();
        let r = without_task(d, id);
        let w = without_task(tasks, id);
        lemma_without_task(d, id);
        assert forall|t: TaskView| d.contains(t) implies #[trigger] tasks.contains(t) by {
            let i = choose|i: int| 0 <= i < d.len() && d[i] == t;
            assert(tasks[i] == t);
        }
        assert forall|i: int| 0 <= i < w.len() implies (#[trigger] w[i]).id != id && tasks.contains(
            w[i],
        ) by {
            if i < r.len() {
                assert(w[i] == r[i]);
                assert(d.contains(r[i]));
            } else {
                assert(tasks[tasks.len() - 1] == w[i]);
            }
        }
        assert forall|t: TaskView| tasks.contains(t) && t.id != id implies #[trigger] w.contains(
            t,
        ) by {
            let i = choose|i: int| 0 <= i < tasks.len() && tasks[i] == t;
            if i < d.len() {
                assert(d[i] == t);
                assert(d.contains(t));
                assert(r.contains(t));
                let j = choose|j: int| 0 <= j < r.len() && r[j] == t;
                assert(w[j] == t);
            } else {
                assert(w[r.len() as int] == t);
            }
        }
        if forall|i: int, j: int|
            0 <= i < j < tasks.len() ==> (#[trigger] tasks[i]).id != (#[trigger] tasks[j]).id {
            assert forall|i: int, j: int| 0 <= i < j < d.len() implies (#[trigger] d[i]).id != (
            #[trigger] d[j]).id by {
                assert(tasks[i].id != tasks[j].id);
            }
            assert forall|i: int, j: int| 0 <= i < j < w.len() implies (#[trigger] w[i]).id != (
            #[trigger] w[j]).id by {
                assert(w[i] == r[i]);
                if j < r.len() {
                    assert(r[i].id != r[j].id);
                } else {
                    assert(d.contains(r[i]));
                    let x = choose|x: int| 0 <= x < d.len() && d[x] == r[i];
                    assert(tasks[x].id != tasks[tasks.len() - 1].id);
                }
            }
        }
    }
}

/// Removing a task keeps the list well-formed: no window refers to it any more.
pub proof fn lemma_removed_wf(l: ListView, id: TaskId, now: u64)
    requires
        l.wf(),
    ensures
        l.removed(id, now).wf(),
        !l.removed(id, now).has_task(id),
        forall|x: TaskId|
            x != id ==> #[trigger] l.removed(id, now).has_task(x) == l.has_task(x),
{
    let b = if l.active == Some(id) {
        l.on_scratch(now)
    } else {
        l
    };
    lemma_on_scratch_wf(l, now);
    lemma_without_task(b.tasks, id);
    let m = l.removed(id, now);
    assert forall|x: TaskId| x != id implies #[trigger] m.has_task(x) == l.has_task(x) by {
        assert(b.has_task(x) == l.has_task(x));
        lemma_has_task(b, x);
        lemma_has_task(m, x);
        if b.has_task(x) {
            let i = choose|i: int| 0 <= i < b.tasks.len() && (#[trigger] b.tasks[i]).id == x;
            assert(b.tasks.contains(b.tasks[i]));
            assert(m.tasks.contains(b.tasks[i]));
            let j = choose|j: int| 0 <= j < m.tasks.len() && m.tasks[j] == b.tasks[i];
            assert(m.tasks[j].id == x);
        }
        if m.has_task(x) {
            let j = choose|j: int| 0 <= j < m.tasks.len() && (#[trigger] m.tasks[j]).id == x;
            assert(b.tasks.contains(m.tasks[j]));
            let i = choose|i: int| 0 <= i < b.tasks.len() && b.tasks[i] == m.tasks[j];
            assert(b.tasks[i].id == x);
        }
    }
    lemma_has_task(m, id);
    assert forall|i: int| 0 <= i < m.tasks.len() implies (#[trigger] m.tasks[i]).id.0
        < m.next_id by {
        assert(b.tasks.contains(m.tasks[i]));
        let x = choose|x: int| 0 <= x < b.tasks.len() && b.tasks[x] == m.tasks[i];
        assert(b.tasks[x].id.0 < b.next_id);
    }
    assert forall|w: u64| #[trigger] m.window_task.contains_key(w) implies match m.window_task[w] {
        Some(x) => m.has_task(x),
        None => true,
    } by {
        assert(b.window_task.contains_key(w));
        if let Some(x) = m.window_task[w] {
            assert(x != id);
            assert(b.has_task(x));
            assert(m.has_task(x) == l.has_task(x));
            assert(b.has_task(x) == l.has_task(x));
        }
    }
    if let Some(a) = m.active {
        assert(a != id);
        assert(m.has_task(a) == l.has_task(a));
    }
}

/// Moving a task keeps the list well-formed.
pub proof fn lemma_reordered_wf(l: ListView, from: int, to: int)
    requires
        l.wf(),
        0 <= from,
        0 <= to,
    ensures
        l.reordered(from, to).wf(),
        forall|id: TaskId| #[trigger] l.reordered(from, to).has_task(id) == l.has_task(id),
{
    if from < l.tasks.len() {
        let m = l.reordered(from, to);
        let at = if to < l.tasks.len() {
            to
        } else {
            l.tasks.len() - 1
        };
        // Where the task at position `i` of the new order stood before.
        let src = |i: int|
            if i == at {
                from
            } else {
                let p = if i < at {
                    i
                } else {
                    i - 1
                };
                if p < from {
                    p
                } else {
                    p + 1
                }
            };
        let dst = |i: int|
            if i == from {
                at
            } else {
                let p = if i < from {
                    i
                } else {
                    i - 1
                };
                if p < at {
                    p
                } else {
                    p + 1
                }
            };
        assert forall|i: int| 0 <= i < m.tasks.len() implies #[trigger] m.tasks[i] == l.tasks[src(
            i,
        )] && 0 <= src(i) < l.tasks.len() by {}
        assert forall|id: TaskId| #[trigger] m.has_task(id) == l.has_task(id) by {
            lemma_has_task(m, id);
            lemma_has_task(l, id);
            if m.has_task(id) {
                let i = choose|i: int| 0 <= i < m.tasks.len() && (#[trigger] m.tasks[i]).id == id;
                assert(l.tasks[src(i)].id == id);
            }
            if l.has_task(id) {
                let i = choose|i: int| 0 <= i < l.tasks.len() && (#[trigger] l.tasks[i]).id == id;
                assert(src(dst(i)) == i);
                assert(m.tasks[dst(i)].id == id);
            }
        }
        assert forall|i: int, j: int| 0 <= i < j < m.tasks.len() implies (#[trigger] m.tasks[i]).id
            != (#[trigger] m.tasks[j]).id by {
            let x = src(i);
            let y = src(j);
            assert(x != y);
            if x < y {
                assert(l.tasks[x].id != l.tasks[y].id);
            } else {
                assert(l.tasks[y].id != l.tasks[x].id);
            }
        }
        assert forall|i: int| 0 <= i < m.tasks.len() implies (#[trigger] m.tasks[i]).id.0
            < m.next_id by {
            assert(l.tasks[src(i)].id.0 < l.next_id);
        }
        assert forall|w: u64| #[trigger] m.window_task.contains_key(w) implies match m.window_task[w] {
            Some(x) => m.has_task(x),
            None => true,
        } by {
            assert(l.window_task.contains_key(w));
        }
    }
}

/// Well-formedness depends on the tasks, the windows, the active desktop, the
/// id counter and the log alone.
pub proof fn lemma_same_desktops(a: ListView, b: ListView)
    requires
        a.tasks == b.tasks,
        a.window_task == b.window_task,
        a.active == b.active,
        a.next_id == b.next_id,
        a.time_log == b.time_log,
        b.active is None ==> b.active_since is None || a.active_since == b.active_since,
    ensures
        a.wf() ==> b.wf(),
{
    if a.wf() {
        assert forall|w: u64| #[trigger] b.window_task.contains_key(w) implies match b.window_task[w] {
            Some(x) => b.has_task(x),
            None => true,
        } by {
            assert(a.window_task.contains_key(w));
        }
    }
}

/// Putting a window on desktop 0 or on an existing task keeps the list
/// well-formed.
pub proof fn lemma_with_window_wf(l: ListView, w: WindowId, desktop: Option<TaskId>)
    requires
        match desktop {
            Some(id) => l.has_task(id) || l.active == desktop,
            None => true,
        },
    ensures
        l.wf() ==> l.with_window(w, desktop).wf(),
{
    let m = l.with_window(w, desktop);
    if l.wf() {
        assert forall|x: u64| #[trigger] m.window_task.contains_key(x) implies match m.window_task[x] {
            Some(id) => m.has_task(id),
            None => true,
        } by {
            if x != w.0 {
                assert(l.window_task.contains_key(x));
            }
        }
    }
}

/// The next id lies above every id in use.
pub proof fn lemma_id_after(tasks: Seq<TaskView>)
    ensures
        forall|i: int|
            0 <= i < tasks.len() ==> (#[trigger] tasks[i]).id.0 < ListView::id_after(tasks),
        0 <= ListView::id_after(tasks) <= u64::MAX + 1,
    decreases tasks.len(),
{
    if tasks.len() > 0 {
        let d = tasks.drop_last();
        lemma_id_after(d);
        assert forall|i: int| 0 <= i < tasks.len() implies (#[trigger] tasks[i]).id.0
            < ListView::id_after(tasks) by {
            if i < d.len() {
                assert(d[i] == tasks[i]);
            }
        }
    }
}

// ---------------------------------------------------------------------------
// The list
// ---------------------------------------------------------------------------

/// The ordered set of tasks plus window assignment, active task and time
/// accumulation.
#[derive(Debug)]
pub struct TaskList {
    /// Tasks in sidebar order.
    tasks: Vec<Task>,
    /// window -> the desktop it belongs to. `None` means desktop 0, the scratch
    /// desktop that isn't tied to any task.
    window_task: HashMap<u64, Option<TaskId>>,
    /// The currently active (focused) desktop: `Some(task)` for a task, or
    /// `None` for desktop 0 (the scratch desktop). Desktop 0 is the default.
    active: Option<TaskId>,
    /// Timestamp (seconds) at which the active task became active; `None` when
    /// desktop 0 is active or time tracking hasn't started. No time accrues on
    /// desktop 0.
    active_since: Option<u64>,
    /// Windows the user has minimized (hidden from the content area but still
    /// listed in the sidebar so they can be restored).
    minimized: HashSet<u64>,
    /// Windows the user has maximized (the client has been told it is maximized).
    maximized: HashSet<u64>,
    /// Next task id to hand out.
    next_id: u64,
    /// Filesystem paths previously entered as a task's origin repo, most-recent
    /// first, for the wizard's dropdown.
    repo_history: Vec<String>,
    /// Per-day, per-task time entries, for reporting.
    time_log: TimeLog,
    /// User settings (terminal/browser commands, categories).
    settings: Settings,
    /// Snapshot of the running apps (per desktop) for session restore, updated
    /// while running and on exit; respawned on the next start.
    session: Vec<SessionApp>,
    /// The current local calendar day ("YYYY-MM-DD"), supplied by the host; used
    /// to attribute committed intervals in the time log.
    current_date: String,
}

/// The views of a sequence of tasks.
pub open spec fn task_views(s: Seq<Task>) -> Seq<TaskView> {
    s.map_values(|t: Task| t@)
}

/// The views of a sequence of session apps.
pub open spec fn app_views(s: Seq<SessionApp>) -> Seq<AppView> {
    s.map_values(|a: SessionApp| a@)
}

impl View for TaskList {
    type V = ListView;

    closed spec fn view(&self) -> ListView {
        ListView {
            tasks: task_views(self.tasks@),
            window_task: self.window_task@,
            active: self.active,
            active_since: self.active_since,
            minimized: self.minimized@,
            maximized: self.maximized@,
            next_id: self.next_id,
            repo_history: text::views(self.repo_history@),
            time_log: self.time_log@,
            settings: self.settings@,
            session: app_views(self.session@),
            current_date: self.current_date@,
        }
    }
}

impl Default for TaskList {
    fn default() -> (r: Self)
        ensures
            r@ == ListView::empty(),
    {
        TaskList::new()
    }
}

impl TaskList {
    /// An empty list, on desktop 0.
    pub fn new() -> (r: Self)
        ensures
            r@ == ListView::empty(),
            r@.wf(),
    {
        let r = TaskList {
            tasks: Vec::new(),
            window_task: HashMap::new(),
            active: None,
            active_since: None,
            minimized: HashSet::new(),
            maximized: HashSet::new(),
            next_id: 0,
            repo_history: Vec::new(),
            time_log: TimeLog::default(),
            settings: Settings::default(),
            session: Vec::new(),
            current_date: String::new(),
        };
        assert(r@ =~= ListView::empty());
        r
    }

    /// The tasks in sidebar order.
    pub fn tasks(&self) -> (r: &[Task])
        ensures
            task_views(r@) == self@.tasks,
    {
        self.tasks.as_slice()
    }

    /// Whether there are no tasks.
    pub fn is_empty(&self) -> (r: bool)
        ensures
            r == (self@.tasks.len() == 0),
    {
        self.tasks.len() == 0
    }

    /// The active task; `None` on desktop 0.
    pub fn active(&self) -> (r: Option<TaskId>)
        ensures
            r == self@.active,
    {
        self.active
    }

    /// Position of the first task with the id.
    fn index_of(&self, id: TaskId) -> (r: Option<usize>)
        ensures
            match r {
                Some(k) => k == task_index(self@.tasks, id) && k < self@.tasks.len(),
                None => task_index(self@.tasks, id) == self@.tasks.len(),
            },
    {
        let ghost ts = self@.tasks;
        let mut k: usize = 0;
        while k < self.tasks.len()
            invariant
                k <= self.tasks@.len(),
                ts == task_views(self.tasks@),
                forall|j: int| 0 <= j < k ==> (#[trigger] ts[j]).id != id,
            decreases self.tasks@.len() - k,
        {
            assert(ts[k as int] == self.tasks@[k as int]@);
            if self.tasks[k].id == id {
                proof {
                    lemma_task_index_unique(ts, id, k as int);
                }
                return Some(k);
            }
            k += 1;
        }
        proof {
            lemma_task_index_unique(ts, id, k as int);
        }
        None
    }

    /// The task with the id.
    pub fn get(&self, id: TaskId) -> (r: Option<&Task>)
        ensures
            match r {
                Some(t) => self@.has_task(id) && t@ == self@.tasks[task_index(self@.tasks, id)],
                None => !self@.has_task(id),
            },
    {
        proof {
            lemma_task_index(self@.tasks, id);
        }
        match self.index_of(id) {
            Some(k) => {
                assert(task_views(self.tasks@)[k as int] == self.tasks@[k as int]@);
                Some(&self.tasks[k])
            },
            None => None,
        }
    }

    /// Position of a task in the sidebar.
    pub fn position(&self, id: TaskId) -> (r: Option<usize>)
        ensures
            match r {
                Some(k) => self@.has_task(id) && k == task_index(self@.tasks, id),
                None => !self@.has_task(id),
            },
    {
        self.index_of(id)
    }

    /// The task with the id, for editing.
    pub fn get_mut(&mut self, id: TaskId) -> (r: Option<&mut Task>)
        ensures
            match r {
                Some(t) => {
                    let k = task_index(old(self)@.tasks, id);
                    &&& old(self)@.has_task(id)
                    &&& t@ == old(self)@.tasks[k]
                    &&& final(self)@ == old(self)@.with_task(k, final(t)@)
                },
                None => !old(self)@.has_task(id) && final(self)@ == old(self)@,
            },
    {
        proof {
            lemma_task_index(self@.tasks, id);
        }
        match self.index_of(id) {
            Some(k) => {
                assert(task_views(self.tasks@)[k as int] == self.tasks@[k as int]@);
                let ghost before = *self;
                let t = &mut self.tasks[k];
                proof {
                    let done = before.tasks@.update(k as int, *final(t));
                    assert(task_views(done) =~= task_views(before.tasks@).update(
                        k as int,
                        final(t)@,
                    ));
                }
                Some(t)
            },
            None => None,
        }
    }
}

impl TaskList {
    /// Create a new task, appended at the end of the sidebar order, and return
    /// its id. Does not change the active task.
    pub fn add_task(&mut self, name: &str, category: &str) -> (r: TaskId)
        requires
            old(self)@.next_id < u64::MAX,
        ensures
            r == TaskId(old(self)@.next_id),
            final(self)@ == old(self)@.added(name@, category@),
            old(self)@.wf() ==> final(self)@.wf() && !old(self)@.has_task(r),
    {
        let ghost before = self@;
        let id = TaskId(self.next_id);
        self.next_id = self.next_id + 1;
        let mut task = Task::new(id, name, category);
        let colors = settings::task_palette();
        let slot: usize = (id.0 % 8) as usize;
        proof {
            assert(text::views(colors@).len() == colors@.len());
            assert(settings::palette().len() == 8);
            assert(text::views(colors@)[slot as int] == colors@[slot as int]@);
        }
        task.color = colors[slot].clone();
        let ghost ts = self.tasks@;
        self.tasks.push(task);
        proof {
            assert(task_views(self.tasks@) =~= task_views(ts).push(task@));
            assert(self@ =~= before.added(name@, category@));
            if before.wf() {
                lemma_added_wf(before, name@, category@);
            }
        }
        id
    }

    /// Update an existing task's user-editable properties (name, category,
    /// colour). No-op for an unknown id.
    pub fn set_task_props(&mut self, id: TaskId, name: &str, category: &str, color: &str)
        ensures
            final(self)@ == if old(self)@.has_task(id) {
                let k = task_index(old(self)@.tasks, id);
                old(self)@.with_task(
                    k,
                    TaskView {
                        name: name@,
                        category: category@,
                        color: color@,
                        ..old(self)@.tasks[k]
                    },
                )
            } else {
                old(self)@
            },
            old(self)@.wf() ==> final(self)@.wf(),
    {
        let ghost before = self@;
        if let Some(task) = self.get_mut(id) {
            task.name = text::copy_text(name);
            task.category = text::copy_text(category);
            task.color = text::copy_text(color);
        }
        proof {
            if before.has_task(id) {
                let k = task_index(before.tasks, id);
                lemma_task_index(before.tasks, id);
                let t = TaskView {
                    name: name@,
                    category: category@,
                    color: color@,
                    ..before.tasks[k]
                };
                assert(self@ =~= before.with_task(k, t));
                if before.wf() {
                    lemma_with_task_wf(before, k, t);
                }
            }
        }
    }

    /// Add `secs` of focus time to `task_id`: both its lifetime total and the
    /// per-day time log (under the current date).
    fn commit_interval(&mut self, task_id: TaskId, secs: u64)
        requires
            secs > 0,
            old(self)@.commit_fits(task_id, secs),
        ensures
            final(self)@ == old(self)@.committed(task_id, secs),
    {
        let ghost before = self@;
        let mut project = String::new();
        let mut category = String::new();
        if let Some(task) = self.get_mut(task_id) {
            project = task.name.clone();
            category = task.category.clone();
            let total: u64 = task.accumulated_secs + secs;
            task.accumulated_secs = total;
        }
        let date = self.current_date.clone();
        self.time_log.record(
            date.as_str(),
            task_id,
            project.as_str(),
            category.as_str(),
            secs,
        );
        proof {
            lemma_task_index(before.tasks, task_id);
            assert(self@ =~= before.committed(task_id, secs));
        }
    }

    /// Whether the list keeps its invariant. Lists built by its operations do; one
    /// restored from a file holds what the file says.
    pub fn is_consistent(&self) -> (r: bool)
        ensures
            r == self@.wf(),
    {
        let n: usize = self.tasks.len();
        let mut j: usize = 0;
        while j < n
            invariant
                n == self.tasks@.len(),
                j <= n,
                forall|a: int, b: int|
                    0 <= a < b < j ==> (#[trigger] self@.tasks[a]).id != (
                    #[trigger] self@.tasks[b]).id,
                forall|a: int| 0 <= a < j ==> (#[trigger] self@.tasks[a]).id.0 < self@.next_id,
            decreases n - j,
        {
            assert(self@.tasks[j as int].id == self.tasks@[j as int].id);
            if self.tasks[j].id.0 >= self.next_id {
                return false;
            }
            let mut i: usize = 0;
            while i < j
                invariant
                    n == self.tasks@.len(),
                    i <= j < n,
                    forall|a: int|
                        0 <= a < i ==> (#[trigger] self@.tasks[a]).id != self@.tasks[j as int].id,
                decreases j - i,
            {
                assert(self@.tasks[i as int].id == self.tasks@[i as int].id);
                assert(self@.tasks[j as int].id == self.tasks@[j as int].id);
                if self.tasks[i].id.0 == self.tasks[j].id.0 {
                    return false;
                }
                i += 1;
            }
            j += 1;
        }
        match self.active {
            Some(id) => {
                if !self.holds(id) {
                    return false;
                }
            },
            None => {
                if self.active_since.is_some() {
                    return false;
                }
            },
        }
        let keys = keys_of(&self.window_task);
        let mut k: usize = 0;
        while k < keys.len()
            invariant
                k <= keys@.len(),
                keys@.to_set() == self@.window_task.dom(),
                forall|a: int|
                    0 <= a < k ==> match self@.window_task[#[trigger] keys@[a]] {
                        Some(id) => self@.has_task(id),
                        None => true,
                    },
            decreases keys@.len() - k,
        {
            let w: u64 = keys[k];
            assert(keys@.to_set().contains(keys@[k as int]));
            if let Some(Some(id)) = self.window_task.get(&w) {
                if !self.holds(*id) {
                    return false;
                }
            }
            k += 1;
        }
        proof {
            assert forall|w: u64| #[trigger] self@.window_task.contains_key(w) implies match self@.window_task[w] {
                Some(id) => self@.has_task(id),
                None => true,
            } by {
                assert(keys@.to_set().contains(w));
                let a = choose|a: int| 0 <= a < keys@.len() && keys@[a] == w;
                assert(keys@[a] == w);
            }
        }
        self.time_log.has_one_row_each()
    }

    /// Whether a task with this id is in the list.
    fn holds(&self, id: TaskId) -> (r: bool)
        ensures
            r == self@.has_task(id),
    {
        proof {
            lemma_task_index(self@.tasks, id);
        }
        self.get(id).is_some()
    }

    /// Whether the sums that flushing forms can be held.
    pub fn can_flush(&self, now: u64) -> (r: bool)
        ensures
            r == self@.flush_fits(now),
    {
        if let Some(active) = self.active {
            if let Some(since) = self.active_since {
                let delta: u64 = now.saturating_sub(since);
                if delta > 0 {
                    if let Some(task) = self.get(active) {
                        if task.accumulated_secs > u64::MAX - delta {
                            return false;
                        }
                    }
                    return self.time_log.can_record(self.current_date.as_str(), active, delta);
                }
            }
        }
        true
    }

    /// Flush the running focus interval into the active task without switching,
    /// e.g. on a periodic persist tick. `now` is seconds.
    pub fn flush(&mut self, now: u64)
        requires
            old(self)@.flush_fits(now),
        ensures
            final(self)@ == old(self)@.flushed(now),
            old(self)@.wf() ==> final(self)@.wf(),
    {
        proof {
            if self@.wf() {
                lemma_flushed_wf(self@, now);
            }
        }
        let ghost before = self@;
        if let Some(active) = self.active {
            if let Some(since) = self.active_since {
                let delta: u64 = now.saturating_sub(since);
                if delta > 0 {
                    self.commit_interval(active, delta);
                    self.active_since = Some(now);
                    assert(self@ =~= before.flushed(now));
                }
            }
        }
    }

    /// Switch the active task, accumulating the elapsed focus time onto the
    /// previously active task. `now` is a monotonic timestamp in seconds.
    /// Switching to a task clears its notification; switching to an unknown
    /// task, or to the one already active, does nothing.
    pub fn set_active(&mut self, id: TaskId, now: u64)
        requires
            old(self)@.has_task(id) && old(self)@.active != Some(id) ==> old(self)@.flush_fits(now),
        ensures
            final(self)@ == old(self)@.activated(id, now),
            old(self)@.wf() ==> final(self)@.wf(),
    {
        proof {
            if self@.wf() {
                lemma_activated_wf(self@, id, now);
            }
            lemma_task_index(self@.tasks, id);
        }
        let ghost before = self@;
        if self.index_of(id).is_none() {
            return;
        }
        if self.active == Some(id) {
            return;
        }
        self.flush(now);
        self.active = Some(id);
        self.active_since = Some(now);
        let ghost mid = self@;
        assert(mid =~= ListView {
            active: Some(id),
            active_since: Some(now),
            ..before.flushed(now)
        });
        self.mark(id, false);
    }

    /// Set the notification mark of a task. No-op for an unknown id.
    fn mark(&mut self, id: TaskId, notification: bool)
        ensures
            final(self)@ == old(self)@.marked(id, notification),
    {
        let ghost before = self@;
        if let Some(task) = self.get_mut(id) {
            task.has_notification = notification;
        }
        proof {
            lemma_task_index(before.tasks, id);
            assert(self@ =~= before.marked(id, notification));
        }
    }

    /// Switch to desktop 0, the scratch desktop with no associated task.
    /// Flushes the running interval onto the previously active task first; no
    /// time accrues while desktop 0 is active.
    pub fn set_scratch_active(&mut self, now: u64)
        requires
            old(self)@.flush_fits(now),
        ensures
            final(self)@ == old(self)@.on_scratch(now),
            old(self)@.wf() ==> final(self)@.wf(),
    {
        proof {
            if self@.wf() {
                lemma_on_scratch_wf(self@, now);
            }
        }
        let ghost before = self@;
        if self.active.is_none() {
            return;
        }
        self.flush(now);
        self.active = None;
        self.active_since = None;
        assert(self@ =~= before.on_scratch(now));
    }

    /// Pause time accrual (e.g. when the user goes idle): subsequent flushes add
    /// nothing until [`resume`](Self::resume) is called. The caller should
    /// [`flush`](Self::flush) up to the moment activity stopped first.
    pub fn pause(&mut self)
        ensures
            final(self)@ == (ListView { active_since: None, ..old(self)@ }),
            old(self)@.wf() ==> final(self)@.wf(),
    {
        let ghost before = self@;
        self.active_since = None;
        assert(self@ =~= ListView { active_since: None, ..before });
        proof {
            lemma_same_desktops(before, self@);
        }
    }

    /// Resume time accrual after a pause, counting from `now`.
    pub fn resume(&mut self, now: u64)
        ensures
            final(self)@ == if old(self)@.active is Some && old(self)@.active_since is None {
                ListView { active_since: Some(now), ..old(self)@ }
            } else {
                old(self)@
            },
            old(self)@.wf() ==> final(self)@.wf(),
    {
        let ghost before = self@;
        if self.active.is_some() && self.active_since.is_none() {
            self.active_since = Some(now);
            assert(self@ =~= ListView { active_since: Some(now), ..before });
        }
        proof {
            lemma_same_desktops(before, self@);
        }
    }

    /// Whether time accrual is currently paused (a task is active but not being
    /// counted).
    pub fn is_paused(&self) -> (r: bool)
        ensures
            r == (self@.active is Some && self@.active_since is None),
    {
        self.active.is_some() && self.active_since.is_none()
    }
}

impl TaskList {
    /// Remove a task and any windows assigned to it. If it was active, the
    /// active desktop falls back to desktop 0; the supplied `now` flushes the
    /// running interval first.
    pub fn remove_task(&mut self, id: TaskId, now: u64)
        requires
            old(self)@.active == Some(id) ==> old(self)@.flush_fits(now),
        ensures
            final(self)@ == old(self)@.removed(id, now),
            old(self)@.wf() ==> final(self)@.wf() && !final(self)@.has_task(id),
    {
        proof {
            if self@.wf() {
                lemma_removed_wf(self@, id, now);
            }
        }
        let ghost before = self@;
        if self.active == Some(id) {
            self.set_scratch_active(now);
        }
        let ghost mid = self@;
        let mut kept: Vec<Task> = Vec::new();
        let mut i: usize = 0;
        while i < self.tasks.len()
            invariant
                i <= self.tasks@.len(),
                self@ == mid,
                task_views(kept@) == without_task(mid.tasks.take(i as int), id),
            decreases self.tasks@.len() - i,
        {
            proof {
                assert(mid.tasks.take(i + 1).drop_last() =~= mid.tasks.take(i as int));
                assert(mid.tasks[i as int] == self.tasks@[i as int]@);
            }
            let ghost prev = kept@;
            if self.tasks[i].id != id {
                kept.push(self.tasks[i].clone());
                assert(task_views(kept@) =~= task_views(prev).push(mid.tasks[i as int]));
            }
            i += 1;
        }
        assert(mid.tasks.take(i as int) =~= mid.tasks);
        self.tasks = kept;
        self.drop_windows(id);
        assert(self@ =~= before.removed(id, now));
    }

    /// Forget the windows assigned to a task.
    fn drop_windows(&mut self, id: TaskId)
        ensures
            final(self)@ == (ListView {
                window_task: old(self)@.window_task.restrict(
                    old(self)@.window_task.dom().filter(
                        |w: u64| old(self)@.window_task[w] != Some(id),
                    ),
                ),
                ..old(self)@
            }),
    {
        let ghost before = self@;
        let gone = self.windows_on(Some(id));
        let mut i: usize = 0;
        while i < gone.len()
            invariant
                i <= gone@.len(),
                self@ == (ListView { window_task: self@.window_task, ..before }),
                forall|w: u64| #[trigger]
                    self@.window_task.contains_key(w) <==> before.window_task.contains_key(w)
                        && !gone@.take(i as int).contains(WindowId(w)),
                forall|w: u64| #[trigger]
                    self@.window_task.contains_key(w) ==> self@.window_task[w]
                        == before.window_task[w],
            decreases gone@.len() - i,
        {
            let ghost prev = self@;
            let w: u64 = gone[i].0;
            self.window_task.remove(&w);
            i += 1;
            proof {
                assert(self@.window_task == prev.window_task.remove(w));
                assert forall|x: u64| #[trigger] self@.window_task.contains_key(x)
                    <==> before.window_task.contains_key(x) && !gone@.take(i as int).contains(
                    WindowId(x),
                ) by {
                    let a = gone@.take(i - 1);
                    let b = gone@.take(i as int);
                    assert(prev.window_task.contains_key(x) <==> before.window_task.contains_key(x)
                        && !a.contains(WindowId(x)));
                    if b.contains(WindowId(x)) {
                        let j = choose|j: int| 0 <= j < b.len() && b[j] == WindowId(x);
                        if j < a.len() {
                            assert(a[j] == WindowId(x));
                        }
                    }
                    if a.contains(WindowId(x)) {
                        let j = choose|j: int| 0 <= j < a.len() && a[j] == WindowId(x);
                        assert(b[j] == WindowId(x));
                    }
                    assert(b[i - 1] == WindowId(w));
                }
            }
        }
        proof {
            assert(gone@.take(i as int) =~= gone@);
            let want = before.window_task.restrict(
                before.window_task.dom().filter(|w: u64| before.window_task[w] != Some(id)),
            );
            assert forall|w: u64| #[trigger] self@.window_task.contains_key(w)
                == want.contains_key(w) by {
                assert(gone@.contains(WindowId(w)) <==> before.window_task.contains_key(w)
                    && before.window_task[w] == Some(id));
            }
            assert(self@.window_task =~= want);
        }
    }

    /// Windows assigned to `desktop` (`None` = desktop 0). Ordering is by window
    /// id, ascending.
    fn windows_on(&self, desktop: Option<TaskId>) -> (r: Vec<WindowId>)
        ensures
            self@.lists_desktop(r@, desktop),
    {
        let ghost m = self@.window_task;
        let keys = keys_of(&self.window_task);
        let mut out: Vec<WindowId> = Vec::new();
        let mut i: usize = 0;
        while i < keys.len()
            invariant
                i <= keys@.len(),
                m == self.window_task@,
                keys@.to_set() == m.dom(),
                keys@.no_duplicates(),
                forall|x: int, y: int|
                    0 <= x < y < out@.len() ==> (#[trigger] out@[x]).0 < (#[trigger] out@[y]).0,
                forall|w: WindowId| #[trigger]
                    out@.contains(w) <==> m.contains_key(w.0) && m[w.0] == desktop
                        && keys@.take(i as int).contains(w.0),
            decreases keys@.len() - i,
        {
            let w: u64 = keys[i];
            let ghost seen = keys@.take(i as int);
            let ghost next = keys@.take(i + 1);
            proof {
                assert(keys@.to_set().contains(w));
            }
            let ghost before = out@;
            let hit: bool = match self.window_task.get(&w) {
                Some(d) => *d == desktop,
                None => false,
            };
            if hit {
                proof {
                    if before.contains(WindowId(w)) {
                        assert(seen.contains(w));
                        let j = choose|j: int| 0 <= j < seen.len() && seen[j] == w;
                        assert(keys@[j] == keys@[i as int]);
                    }
                }
                insert_sorted(&mut out, WindowId(w));
            }
            i += 1;
            proof {
                assert forall|x: WindowId| #[trigger] out@.contains(x) <==> m.contains_key(x.0)
                    && m[x.0] == desktop && next.contains(x.0) by {
                    assert(before.contains(x) <==> m.contains_key(x.0) && m[x.0] == desktop
                        && seen.contains(x.0));
                    if next.contains(x.0) {
                        let j = choose|j: int| 0 <= j < next.len() && next[j] == x.0;
                        if j < seen.len() {
                            assert(seen[j] == x.0);
                        }
                    }
                    if seen.contains(x.0) {
                        let j = choose|j: int| 0 <= j < seen.len() && seen[j] == x.0;
                        assert(next[j] == x.0);
                    }
                    assert(next[seen.len() as int] == w);
                }
            }
        }
        proof {
            assert(keys@.take(i as int) =~= keys@);
            assert forall|w: WindowId| #[trigger] out@.contains(w) <==> m.contains_key(w.0)
                && m[w.0] == desktop by {
                assert(keys@.to_set().contains(w.0) == m.contains_key(w.0));
            }
        }
        out
    }
}

/// The windows that the map knows, each once.
fn keys_of(map: &HashMap<u64, Option<TaskId>>) -> (r: Vec<u64>)
    ensures
        r@.to_set() == map@.dom(),
        r@.no_duplicates(),
{
    let ghost all = vstd::std_specs::hash::spec_keys_iter(map).remaining();
    let mut out: Vec<u64> = Vec::new();
    for key in it: map.keys()
        invariant
            it.seq() == all,
            out@ == all.unref().take(it.index() as int),
    {
        out.push(*key);
        assert(out@ =~= all.unref().take(it.index() as int + 1));
    }
    proof {
        assert(out@ =~= all.unref());
        assert forall|i: int, j: int| 0 <= i < out@.len() && 0 <= j < out@.len() && i != j implies out@[i]
            != out@[j] by {
            assert(all[i] != all[j]);
        }
    }
    out
}

/// Puts `w` in its place in a list of windows in increasing order.
fn insert_sorted(list: &mut Vec<WindowId>, w: WindowId)
    requires
        forall|i: int, j: int|
            0 <= i < j < old(list)@.len() ==> (#[trigger] old(list)@[i]).0 < (
            #[trigger] old(list)@[j]).0,
        !old(list)@.contains(w),
    ensures
        forall|i: int, j: int|
            0 <= i < j < final(list)@.len() ==> (#[trigger] final(list)@[i]).0 < (
            #[trigger] final(list)@[j]).0,
        forall|x: WindowId| #[trigger]
            final(list)@.contains(x) <==> old(list)@.contains(x) || x == w,
{
    let ghost before = list@;
    let mut k: usize = 0;
    while k < list.len() && list[k].0 < w.0
        invariant
            k <= list@.len(),
            before == list@,
            forall|j: int| 0 <= j < k ==> (#[trigger] before[j]).0 < w.0,
        decreases list@.len() - k,
    {
        k += 1;
    }
    list.insert(k, w);
    proof {
        let after = list@;
        if k < before.len() {
            assert(before[k as int] != w);
        }
        assert forall|i: int, j: int| 0 <= i < j < after.len() implies (#[trigger] after[i]).0 < (
        #[trigger] after[j]).0 by {
            let x = if i < k {
                i
            } else {
                i - 1
            };
            let y = if j < k {
                j
            } else {
                j - 1
            };
            if i != k && j != k {
                assert(before[x].0 < before[y].0);
            } else if i == k {
                assert(before[k as int].0 > w.0);
                if y > k {
                    assert(before[k as int].0 < before[y].0);
                }
            }
        }
        assert forall|x: WindowId| #[trigger] after.contains(x) <==> before.contains(x) || x
            == w by {
            if after.contains(x) {
                let i = choose|i: int| 0 <= i < after.len() && after[i] == x;
                if i < k {
                    assert(before[i] == x);
                } else if i > k {
                    assert(before[i - 1] == x);
                }
            }
            if before.contains(x) {
                let i = choose|i: int| 0 <= i < before.len() && before[i] == x;
                if i < k {
                    assert(after[i] == x);
                } else {
                    assert(after[i + 1] == x);
                }
            }
            assert(after[k as int] == w);
        }
    }
}

impl TaskList {
    /// Move the task at `from` to position `to` (both clamped). No-op if out of
    /// range or equal.
    pub fn reorder(&mut self, from: usize, to: usize)
        ensures
            final(self)@ == old(self)@.reordered(from as int, to as int),
            old(self)@.wf() ==> final(self)@.wf(),
    {
        proof {
            if self@.wf() {
                lemma_reordered_wf(self@, from as int, to as int);
            }
        }
        let ghost before = self@;
        if from >= self.tasks.len() {
            return;
        }
        let at: usize = if to < self.tasks.len() { to } else { self.tasks.len() - 1 };
        if from == at {
            assert(before.tasks.remove(from as int).insert(at as int, before.tasks[from as int])
                =~= before.tasks);
            return;
        }
        let task = self.tasks.remove(from);
        self.tasks.insert(at, task);
        proof {
            assert(task_views(self.tasks@) =~= before.tasks.remove(from as int).insert(
                at as int,
                before.tasks[from as int],
            ));
            assert(self@ =~= before.reordered(from as int, to as int));
        }
    }

    /// Set the current local calendar day used to tag time-log entries
    /// ("YYYY-MM-DD"). The host updates this from its real clock.
    pub fn set_date(&mut self, today: &str)
        ensures
            final(self)@ == (ListView { current_date: today@, ..old(self)@ }),
            old(self)@.wf() ==> final(self)@.wf(),
    {
        let ghost before = self@;
        self.current_date = text::copy_text(today);
        assert(self@ =~= ListView { current_date: today@, ..before });
        proof {
            lemma_same_desktops(before, self@);
        }
    }

    /// The persisted time log, for reporting.
    pub fn time_log(&self) -> (r: &TimeLog)
        ensures
            r@ == self@.time_log,
    {
        &self.time_log
    }

    /// The user settings.
    pub fn settings(&self) -> (r: &Settings)
        ensures
            r@ == self@.settings,
    {
        &self.settings
    }

    /// Replace the user settings.
    pub fn set_settings(&mut self, settings: Settings)
        ensures
            final(self)@ == (ListView { settings: settings@, ..old(self)@ }),
            old(self)@.wf() ==> final(self)@.wf(),
    {
        let ghost before = self@;
        self.settings = settings;
        assert(self@ =~= ListView { settings: settings@, ..before });
        proof {
            lemma_same_desktops(before, self@);
        }
    }

    /// Replace the session snapshot (the running apps to restore on next start).
    pub fn set_session(&mut self, apps: Vec<SessionApp>)
        ensures
            final(self)@ == (ListView { session: app_views(apps@), ..old(self)@ }),
            old(self)@.wf() ==> final(self)@.wf(),
    {
        let ghost before = self@;
        self.session = apps;
        assert(self@ =~= ListView { session: app_views(apps@), ..before });
        proof {
            lemma_same_desktops(before, self@);
        }
    }

    /// Take the persisted session snapshot for restoring, leaving it empty (it
    /// is rebuilt from the live windows as they map).
    pub fn take_session(&mut self) -> (r: Vec<SessionApp>)
        ensures
            app_views(r@) == old(self)@.session,
            final(self)@ == (ListView { session: Seq::empty(), ..old(self)@ }),
            old(self)@.wf() ==> final(self)@.wf(),
    {
        let ghost before = self@;
        let mut taken: Vec<SessionApp> = Vec::new();
        std::mem::swap(&mut taken, &mut self.session);
        assert(self@ =~= ListView { session: Seq::empty(), ..before });
        proof {
            lemma_same_desktops(before, self@);
        }
        taken
    }

    /// Assign a newly mapped window to the active desktop (the active task, or
    /// desktop 0 when none is active). Returns the task it was assigned to, or
    /// `None` for desktop 0.
    pub fn assign_window(&mut self, window: WindowId) -> (r: Option<TaskId>)
        ensures
            r == old(self)@.active,
            final(self)@ == old(self)@.with_window(window, old(self)@.active),
            old(self)@.wf() ==> final(self)@.wf(),
    {
        let ghost before = self@;
        self.window_task.insert(window.0, self.active);
        assert(self@ =~= before.with_window(window, before.active));
        proof {
            lemma_with_window_wf(before, window, before.active);
        }
        self.active
    }

    /// Forget a window that has been unmapped.
    pub fn remove_window(&mut self, window: WindowId)
        ensures
            final(self)@ == (ListView {
                window_task: old(self)@.window_task.remove(window.0),
                minimized: old(self)@.minimized.remove(window.0),
                maximized: old(self)@.maximized.remove(window.0),
                ..old(self)@
            }),
            old(self)@.wf() ==> final(self)@.wf(),
    {
        let ghost before = self@;
        self.window_task.remove(&window.0);
        self.minimized.remove(&window.0);
        self.maximized.remove(&window.0);
        proof {
            let want = ListView {
                window_task: before.window_task.remove(window.0),
                minimized: before.minimized.remove(window.0),
                maximized: before.maximized.remove(window.0),
                ..before
            };
            assert(self@ =~= want);
            if before.wf() {
                assert forall|w: u64| #[trigger] want.window_task.contains_key(
                    w,
                ) implies match want.window_task[w] {
                    Some(x) => want.has_task(x),
                    None => true,
                } by {
                    assert(before.window_task.contains_key(w));
                }
            }
        }
    }

    /// Move a window to another desktop: `Some(task)` for a task (which must
    /// exist), or `None` for desktop 0 (the scratch desktop). No-op when the
    /// target task is unknown.
    pub fn move_window_to(&mut self, window: WindowId, target: Option<TaskId>)
        ensures
            final(self)@ == match target {
                Some(id) => if old(self)@.has_task(id) {
                    old(self)@.with_window(window, target)
                } else {
                    old(self)@
                },
                None => old(self)@.with_window(window, None),
            },
            old(self)@.wf() ==> final(self)@.wf(),
    {
        let ghost before = self@;
        if let Some(id) = target {
            proof {
                lemma_task_index(before.tasks, id);
            }
            if self.index_of(id).is_none() {
                return;
            }
        }
        self.window_task.insert(window.0, target);
        assert(self@ =~= before.with_window(window, target));
        proof {
            lemma_with_window_wf(before, window, target);
        }
    }

    /// Whether a window is minimized (hidden from the content area).
    pub fn is_minimized(&self, window: WindowId) -> (r: bool)
        ensures
            r == self@.minimized.contains(window.0),
    {
        self.minimized.contains(&window.0)
    }

    /// Set a window's minimized state.
    pub fn set_minimized(&mut self, window: WindowId, minimized: bool)
        ensures
            final(self)@ == (ListView {
                minimized: if minimized {
                    old(self)@.minimized.insert(window.0)
                } else {
                    old(self)@.minimized.remove(window.0)
                },
                ..old(self)@
            }),
            old(self)@.wf() ==> final(self)@.wf(),
    {
        let ghost before = self@;
        if minimized {
            self.minimized.insert(window.0);
        } else {
            self.minimized.remove(&window.0);
        }
        assert(self@ =~= ListView { minimized: self@.minimized, ..before });
        proof {
            lemma_same_desktops(before, self@);
        }
    }

    /// Whether a window is maximized (the client has been told so).
    pub fn is_maximized(&self, window: WindowId) -> (r: bool)
        ensures
            r == self@.maximized.contains(window.0),
    {
        self.maximized.contains(&window.0)
    }

    /// Set a window's maximized state.
    pub fn set_maximized(&mut self, window: WindowId, maximized: bool)
        ensures
            final(self)@ == (ListView {
                maximized: if maximized {
                    old(self)@.maximized.insert(window.0)
                } else {
                    old(self)@.maximized.remove(window.0)
                },
                ..old(self)@
            }),
            old(self)@.wf() ==> final(self)@.wf(),
    {
        let ghost before = self@;
        if maximized {
            self.maximized.insert(window.0);
        } else {
            self.maximized.remove(&window.0);
        }
        assert(self@ =~= ListView { maximized: self@.maximized, ..before });
        proof {
            lemma_same_desktops(before, self@);
        }
    }

    /// The task a window belongs to, or `None` if it's on desktop 0 or unknown.
    pub fn task_of_window(&self, window: WindowId) -> (r: Option<TaskId>)
        ensures
            r == self@.task_of(window),
    {
        match self.window_task.get(&window.0) {
            Some(d) => *d,
            None => None,
        }
    }

    /// Windows belonging to a task. Ordering is by window id, ascending.
    pub fn windows_for(&self, id: TaskId) -> (r: Vec<WindowId>)
        ensures
            self@.lists_desktop(r@, Some(id)),
    {
        self.windows_on(Some(id))
    }

    /// Windows on desktop 0 (the scratch desktop).
    pub fn scratch_windows(&self) -> (r: Vec<WindowId>)
        ensures
            self@.lists_desktop(r@, None),
    {
        self.windows_on(None)
    }

    /// Windows on the active desktop (the ones that should be visible).
    pub fn active_windows(&self) -> (r: Vec<WindowId>)
        ensures
            self@.lists_desktop(r@, self@.active),
    {
        self.windows_on(self.active)
    }

    /// Whether a window is on the active desktop (i.e. currently visible).
    pub fn is_visible(&self, window: WindowId) -> (r: bool)
        ensures
            r == self@.shows(window),
    {
        match self.window_task.get(&window.0) {
            Some(d) => *d == self.active,
            None => false,
        }
    }

    /// Mark a task as having a pending notification (no-op for the active task,
    /// which is already being looked at).
    pub fn notify(&mut self, id: TaskId)
        ensures
            final(self)@ == if old(self)@.active == Some(id) {
                old(self)@
            } else {
                old(self)@.marked(id, true)
            },
            old(self)@.wf() ==> final(self)@.wf(),
    {
        let ghost before = self@;
        if self.active == Some(id) {
            return;
        }
        self.mark(id, true);
        proof {
            lemma_task_index(before.tasks, id);
            if before.wf() && before.has_task(id) {
                let k = task_index(before.tasks, id);
                lemma_with_task_wf(
                    before,
                    k,
                    TaskView { has_notification: true, ..before.tasks[k] },
                );
            }
        }
    }

    /// Rebuild the volatile state (ids counter) after loading from disk, so new
    /// task ids don't collide with persisted ones.
    pub fn reindex_after_load(&mut self)
        requires
            ListView::id_after(old(self)@.tasks) <= u64::MAX,
        ensures
            final(self)@ == (ListView {
                next_id: ListView::id_after(old(self)@.tasks) as u64,
                ..old(self)@
            }),
    {
        let ghost before = self@;
        let mut next: u64 = 0;
        let mut i: usize = 0;
        proof {
            lemma_id_after(before.tasks);
        }
        while i < self.tasks.len()
            invariant
                i <= self.tasks@.len(),
                before.tasks == task_views(self.tasks@),
                before == self@,
                ListView::id_after(before.tasks) <= u64::MAX,
                forall|j: int|
                    0 <= j < before.tasks.len() ==> (#[trigger] before.tasks[j]).id.0
                        < ListView::id_after(before.tasks),
                next == ListView::id_after(before.tasks.take(i as int)),
            decreases self.tasks@.len() - i,
        {
            proof {
                assert(before.tasks.take(i + 1).drop_last() =~= before.tasks.take(i as int));
                assert(before.tasks[i as int] == self.tasks@[i as int]@);
            }
            let above: u64 = self.tasks[i].id.0 + 1;
            if above > next {
                next = above;
            }
            i += 1;
        }
        assert(before.tasks.take(i as int) =~= before.tasks);
        self.next_id = next;
        assert(self@ =~= ListView { next_id: next, ..before });
    }

    /// Previously entered origin-repo paths, most-recent first.
    pub fn repo_history(&self) -> (r: &[String])
        ensures
            text::views(r@) == self@.repo_history,
    {
        self.repo_history.as_slice()
    }

    /// Record an entered origin-repo path: de-duplicate and move it to the front,
    /// keeping the list bounded.
    pub fn record_repo(&mut self, repo: &str)
        ensures
            final(self)@ == old(self)@.repo_recorded(repo@),
            old(self)@.wf() ==> final(self)@.wf(),
    {
        let ghost before = self@;
        if is_blank(repo) {
            return;
        }
        let mut kept: Vec<String> = Vec::new();
        kept.push(text::copy_text(repo));
        let ghost head = seq![repo@];
        assert(text::views(kept@) =~= head);
        let mut i: usize = 0;
        assert(text::views(kept@) =~= head + without_text(before.repo_history.take(0), repo@));
        while i < self.repo_history.len()
            invariant
                i <= self.repo_history@.len(),
                before.repo_history == text::views(self.repo_history@),
                before == self@,
                head == seq![repo@],
                text::views(kept@) == head + without_text(
                    before.repo_history.take(i as int),
                    repo@,
                ),
            decreases self.repo_history@.len() - i,
        {
            let ghost prev = text::views(kept@);
            let ghost part = before.repo_history.take(i as int);
            proof {
                assert(before.repo_history.take(i + 1).drop_last() =~= part);
                assert(before.repo_history[i as int] == self.repo_history@[i as int]@);
            }
            if !text::same_text(self.repo_history[i].as_str(), repo) {
                kept.push(self.repo_history[i].clone());
                assert(text::views(kept@) =~= prev.push(before.repo_history[i as int]));
                assert(text::views(kept@) =~= head + without_text(part, repo@).push(
                    before.repo_history[i as int],
                ));
            }
            i += 1;
        }
        assert(before.repo_history.take(i as int) =~= before.repo_history);
        let ghost full = text::views(kept@);
        if kept.len() > HISTORY_LIMIT {
            kept.truncate(HISTORY_LIMIT);
        }
        self.repo_history = kept;
        proof {
            assert(text::views(self.repo_history@) =~= if full.len() > HISTORY_LIMIT {
                full.take(HISTORY_LIMIT as int)
            } else {
                full
            });
            assert(self@ =~= before.repo_recorded(repo@));
            lemma_same_desktops(before, self@);
        }
    }
}

// ---------------------------------------------------------------------------
// Taking apart and putting together
// ---------------------------------------------------------------------------

impl TaskList {
    /// A list with the given persisted parts, no windows, on desktop 0.
    pub fn from_parts(
        tasks: Vec<Task>,
        next_id: u64,
        repo_history: Vec<String>,
        time_entries: Vec<TimeEntry>,
        settings: Settings,
        session: Vec<SessionApp>,
    ) -> (r: TaskList)
        ensures
            r@ == (ListView {
                tasks: task_views(tasks@),
                next_id,
                repo_history: text::views(repo_history@),
                time_log: timelog::entry_views(time_entries@),
                settings: settings@,
                session: app_views(session@),
                ..ListView::empty()
            }),
    {
        let r = TaskList {
            tasks,
            window_task: HashMap::new(),
            active: None,
            active_since: None,
            minimized: HashSet::new(),
            maximized: HashSet::new(),
            next_id,
            repo_history,
            time_log: TimeLog::from_entries(time_entries),
            settings,
            session,
            current_date: String::new(),
        };
        proof {
            let want = ListView {
                tasks: task_views(tasks@),
                next_id,
                repo_history: text::views(repo_history@),
                time_log: timelog::entry_views(time_entries@),
                settings: settings@,
                session: app_views(session@),
                ..ListView::empty()
            };
            assert(r@ =~= want);
        }
        r
    }

    /// The id that the next task gets.
    pub fn next_task_id(&self) -> (r: u64)
        ensures
            r == self@.next_id,
    {
        self.next_id
    }

    /// Whether a task has the largest id there is, so that no id lies above.
    pub fn ids_exhausted(&self) -> (r: bool)
        ensures
            r == (ListView::id_after(self@.tasks) > u64::MAX),
    {
        let ghost ts = self@.tasks;
        let mut i: usize = 0;
        proof {
            lemma_id_after(ts);
        }
        while i < self.tasks.len()
            invariant
                i <= self.tasks@.len(),
                ts == task_views(self.tasks@),
                ListView::id_after(ts.take(i as int)) <= u64::MAX,
                forall|j: int|
                    0 <= j < ts.len() ==> (#[trigger] ts[j]).id.0 < ListView::id_after(ts),
            decreases self.tasks@.len() - i,
        {
            proof {
                assert(ts.take(i + 1).drop_last() =~= ts.take(i as int));
                assert(ts[i as int] == self.tasks@[i as int]@);
            }
            if self.tasks[i].id.0 == u64::MAX {
                return true;
            }
            i += 1;
        }
        assert(ts.take(i as int) =~= ts);
        false
    }

    /// Copies of the tasks.
    pub fn copy_tasks(&self) -> (r: Vec<Task>)
        ensures
            task_views(r@) == self@.tasks,
    {
        let mut out: Vec<Task> = Vec::new();
        let mut i: usize = 0;
        while i < self.tasks.len()
            invariant
                i <= self.tasks@.len(),
                out@ == self.tasks@.take(i as int),
            decreases self.tasks@.len() - i,
        {
            out.push(self.tasks[i].clone());
            i += 1;
            assert(out@ =~= self.tasks@.take(i as int));
        }
        assert(out@ =~= self.tasks@);
        out
    }

    /// A copy of the repository history.
    pub fn copy_history(&self) -> (r: Vec<String>)
        ensures
            text::views(r@) == self@.repo_history,
    {
        text::copy_all(&self.repo_history)
    }

    /// Copies of the session apps.
    pub fn copy_session(&self) -> (r: Vec<SessionApp>)
        ensures
            app_views(r@) == self@.session,
    {
        let mut out: Vec<SessionApp> = Vec::new();
        let mut i: usize = 0;
        while i < self.session.len()
            invariant
                i <= self.session@.len(),
                app_views(out@) == app_views(self.session@).take(i as int),
            decreases self.session@.len() - i,
        {
            let ghost before = out@;
            out.push(self.session[i].clone());
            i += 1;
            assert(app_views(out@) =~= app_views(before).push(self.session@[i - 1]@));
            assert(app_views(out@) =~= app_views(self.session@).take(i as int));
        }
        assert(app_views(out@) =~= app_views(self.session@));
        out
    }
}

} // verus!
