//! What survives a restart: the part of a task list that is written to disk.

use vstd::prelude::*;

use crate::settings::Settings;
use crate::task::{SessionApp, Task, TaskView};
use crate::tasklist;
use crate::tasklist::{ListView, TaskList};
use crate::text;
use crate::timelog;
use crate::timelog::TimeEntry;

verus! {

/// The persisted part of a [`TaskList`].
#[derive(Debug)]
pub struct SavedList {
    pub tasks: Vec<Task>,
    pub next_id: u64,
    pub repo_history: Vec<String>,
    pub time_entries: Vec<TimeEntry>,
    pub settings: Settings,
    pub session: Vec<SessionApp>,
}

/// A task without its pending notification.
pub open spec fn quiet(t: TaskView) -> TaskView {
    TaskView { has_notification: false, ..t }
}

/// The tasks without their pending notifications.
pub open spec fn quiet_tasks(s: Seq<TaskView>) -> Seq<TaskView> {
    s.map_values(|t: TaskView| quiet(t))
}

impl SavedList {
    /// The list that is in use right after loading: the persisted part, no
    /// windows, on desktop 0, no pending notifications.
    pub open spec fn loaded(&self) -> ListView {
        ListView {
            tasks: quiet_tasks(tasklist::task_views(self.tasks@)),
            next_id: self.next_id,
            repo_history: text::views(self.repo_history@),
            time_log: timelog::entry_views(self.time_entries@),
            settings: self.settings@,
            session: tasklist::app_views(self.session@),
            ..ListView::empty()
        }
    }

    /// The list that is in use right after loading, before its id counter is
    /// rebuilt.
    pub fn into_list(self) -> (r: TaskList)
        ensures
            r@ == self.loaded(),
    {
        let mut tasks = self.tasks;
        let ghost before = tasks@;
        let mut i: usize = 0;
        while i < tasks.len()
            invariant
                i <= tasks@.len(),
                tasks@.len() == before.len(),
                forall|j: int|
                    0 <= j < tasks@.len() ==> (#[trigger] tasks@[j])@ == if j < i {
                        quiet(before[j]@)
                    } else {
                        before[j]@
                    },
            decreases tasks@.len() - i,
        {
            let mut t = tasks[i].clone();
            t.has_notification = false;
            tasks.set(i, t);
            i += 1;
        }
        assert(tasklist::task_views(tasks@) =~= quiet_tasks(tasklist::task_views(before)));
        TaskList::from_parts(
            tasks,
            self.next_id,
            self.repo_history,
            self.time_entries,
            self.settings,
            self.session,
        )
    }

    /// The list to start with: loaded, with an id counter that lies above every
    /// persisted id. `None` when the ids leave no room for another task.
    pub fn restore(self) -> (r: Option<TaskList>)
        ensures
            match r {
                Some(l) => ListView::id_after(self.loaded().tasks) <= u64::MAX && l@ == (ListView {
                    next_id: ListView::id_after(self.loaded().tasks) as u64,
                    ..self.loaded()
                }),
                None => ListView::id_after(self.loaded().tasks) > u64::MAX,
            },
    {
        let mut list = self.into_list();
        if list.ids_exhausted() {
            return None;
        }
        list.reindex_after_load();
        Some(list)
    }
}

/// What is left of a list when it is written and read back.
pub open spec fn persisted(l: ListView) -> ListView {
    ListView {
        tasks: quiet_tasks(l.tasks),
        next_id: l.next_id,
        repo_history: l.repo_history,
        time_log: l.time_log,
        settings: l.settings,
        session: l.session,
        ..ListView::empty()
    }
}

impl TaskList {
    /// The part of the list that is written to disk.
    pub fn to_saved(&self) -> (r: SavedList)
        ensures
            r.loaded() == persisted(self@),
            tasklist::task_views(r.tasks@) == self@.tasks,
            r.next_id == self@.next_id,
            text::views(r.repo_history@) == self@.repo_history,
            timelog::entry_views(r.time_entries@) == self@.time_log,
            r.settings@ == self@.settings,
            tasklist::app_views(r.session@) == self@.session,
    {
        let r = SavedList {
            tasks: self.copy_tasks(),
            next_id: self.next_task_id(),
            repo_history: self.copy_history(),
            time_entries: self.time_log().copy_entries(),
            settings: self.settings().clone(),
            session: self.copy_session(),
        };
        assert(r.loaded() =~= persisted(self@));
        r
    }
}

/// Writing the list and reading it back keeps tasks, history, log, settings and
/// session, and drops windows, the active desktop and notifications.
pub proof fn law_round_trip(list: TaskList, saved: SavedList)
    requires
        tasklist::task_views(saved.tasks@) == list@.tasks,
        saved.next_id == list@.next_id,
        text::views(saved.repo_history@) == list@.repo_history,
        timelog::entry_views(saved.time_entries@) == list@.time_log,
        saved.settings@ == list@.settings,
        tasklist::app_views(saved.session@) == list@.session,
    ensures
        saved.loaded() == persisted(list@),
        saved.loaded().time_log == list@.time_log,
        saved.loaded().settings == list@.settings,
        saved.loaded().session == list@.session,
        saved.loaded().active is None,
{
}

/// Once the id counter has been rebuilt, a loaded list with distinct ids is
/// well-formed: no new task can collide with a persisted one.
pub proof fn law_reindexed_is_well_formed(l: ListView)
    requires
        ListView::id_after(l.tasks) <= u64::MAX,
        forall|i: int, j: int|
            0 <= i < j < l.tasks.len() ==> (#[trigger] l.tasks[i]).id != (#[trigger] l.tasks[j]).id,
        l.window_task == Map::<u64, Option<crate::model::TaskId>>::empty(),
        l.active is None,
        l.active_since is None,
        timelog::one_row_each(l.time_log),
    ensures
        (ListView { next_id: ListView::id_after(l.tasks) as u64, ..l }).wf(),
{
    tasklist::lemma_id_after(l.tasks);
}

/// What is saved is everything but the running state: no task is active, no
/// window is known and no notification is pending when it is loaded.
pub proof fn law_running_state_is_not_saved(l: ListView, i: int)
    ensures
        ({
            let r = persisted(l);
            &&& r.tasks.len() == l.tasks.len()
            &&& 0 <= i < l.tasks.len() ==> r.tasks[i] == (TaskView {
                has_notification: false,
                ..l.tasks[i]
            })
            &&& r.next_id == l.next_id
            &&& r.repo_history == l.repo_history
            &&& r.time_log == l.time_log
            &&& r.settings == l.settings
            &&& r.session == l.session
            &&& r.active is None
            &&& r.active_since is None
            &&& forall|w: u64|
                !r.window_task.contains_key(w) && !r.minimized.contains(w) && !r.maximized.contains(
                    w,
                )
            &&& r.current_date.len() == 0
        }),
{
}

} // verus!
