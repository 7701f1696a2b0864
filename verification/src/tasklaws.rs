//! Laws of the task list: what holds of every list and of operations taken
//! together.

use vstd::prelude::*;

use crate::model::{TaskId, WindowId};
use crate::task::TaskView;
use crate::tasklist;
use crate::tasklist::ListView;
use crate::timelog;
use crate::timelog::EntryView;

verus! {

// ---------------------------------------------------------------------------
// Time
// ---------------------------------------------------------------------------

/// Flushing adds the running interval to the active task and nothing to any
/// other.
pub proof fn law_flush_counts_the_active_task_only(l: ListView, now: u64, i: int)
    requires
        l.wf(),
        l.flush_fits(now),
        0 <= i < l.tasks.len(),
    ensures
        l.flushed(now).tasks.len() == l.tasks.len(),
        l.flushed(now).tasks[i].id == l.tasks[i].id,
        l.flushed(now).tasks[i].accumulated_secs == l.tasks[i].accumulated_secs + if l.active
            == Some(l.tasks[i].id) {
            l.running(now) as int
        } else {
            0
        },
{
    if let Some(id) = l.active {
        tasklist::lemma_task_index(l.tasks, id);
        let k = tasklist::task_index(l.tasks, id);
        if l.tasks[i].id == id && k != i {
            if k < i {
                assert(l.tasks[k].id != l.tasks[i].id);
            } else {
                assert(l.tasks[i].id != l.tasks[k].id);
            }
        }
    }
}

/// Seconds logged for a task, on all days.
pub open spec fn logged(log: Seq<EntryView>, task: TaskId) -> int
    decreases log.len(),
{
    if log.len() == 0 {
        0
    } else {
        logged(log.drop_last(), task) + if log.last().task_id == task {
            log.last().secs as int
        } else {
            0
        }
    }
}

/// Changing a row changes what is logged for its task by the difference.
proof fn lemma_logged_update(log: Seq<EntryView>, k: int, e: EntryView, task: TaskId)
    requires
        0 <= k < log.len(),
        e.task_id == log[k].task_id,
    ensures
        logged(log.update(k, e), task) == logged(log, task) + if e.task_id == task {
            e.secs - log[k].secs
        } else {
            0
        },
    decreases log.len(),
{
    let after = log.update(k, e);
    if k == log.len() - 1 {
        assert(after.drop_last() =~= log.drop_last());
    } else {
        assert(after.drop_last() =~= log.drop_last().update(k, e));
        lemma_logged_update(log.drop_last(), k, e, task);
    }
}

/// Every second of focus counts twice: what a flush adds to a task's lifetime
/// total it adds to the log as well, as long as the day is known.
pub proof fn law_total_and_log_grow_together(l: ListView, now: u64, i: int)
    requires
        l.wf(),
        l.flush_fits(now),
        l.current_date.len() > 0,
        0 <= i < l.tasks.len(),
    ensures
        logged(l.flushed(now).time_log, l.tasks[i].id) - logged(l.time_log, l.tasks[i].id)
            == l.flushed(now).tasks[i].accumulated_secs - l.tasks[i].accumulated_secs,
{
    law_flush_counts_the_active_task_only(l, now, i);
    let secs = l.running(now);
    if secs > 0 {
        let id = l.active->0;
        let log = l.time_log;
        let k = timelog::row_index(log, l.current_date, id);
        timelog::lemma_row_index(log, l.current_date, id);
        let after = l.flushed(now).time_log;
        if k < log.len() {
            lemma_logged_update(log, k, after[k], l.tasks[i].id);
            assert(after =~= log.update(k, after[k]));
        } else {
            assert(after.drop_last() =~= log);
        }
    }
}

/// Flushing twice at the same moment counts nothing more.
pub proof fn law_flush_is_idempotent(l: ListView, now: u64)
    ensures
        l.flushed(now).flushed(now) == l.flushed(now),
{
}

/// Recording two intervals of the same day and task is recording their sum.
pub proof fn law_records_merge(
    log: Seq<EntryView>,
    date: Seq<char>,
    task: TaskId,
    project: Seq<char>,
    category: Seq<char>,
    a: u64,
    b: u64,
)
    requires
        a + b <= u64::MAX,
        timelog::record_fits(log, date, task, (a + b) as u64),
        a > 0,
        b > 0,
    ensures
        timelog::recorded(
            timelog::recorded(log, date, task, project, category, a),
            date,
            task,
            project,
            category,
            b,
        ) == timelog::recorded(log, date, task, project, category, (a + b) as u64),
{
    let once = timelog::recorded(log, date, task, project, category, a);
    let twice = timelog::recorded(once, date, task, project, category, b);
    let both = timelog::recorded(log, date, task, project, category, (a + b) as u64);
    timelog::lemma_row_index(log, date, task);
    timelog::lemma_row_index(once, date, task);
    let k = timelog::row_index(log, date, task);
    let m = timelog::row_index(once, date, task);
    if date.len() > 0 {
        assert(once[k].date == date && once[k].task_id == task);
        if m < k {
            assert(once[m] == log[m]);
            assert(!(log[m].date == date && log[m].task_id == task));
        }
        assert(m == k);
        assert(twice =~= both);
    }
}

/// Flushing on the way changes nothing in the end: counting up to `mid` and then
/// up to `now` is counting up to `now`.
pub proof fn law_flush_splits(l: ListView, mid: u64, now: u64)
    requires
        l.wf(),
        mid <= now,
        l.flush_fits(now),
    ensures
        l.flushed(mid).flushed(now) == l.flushed(now),
{
    let m = l.flushed(mid);
    let a = l.running(mid);
    if a > 0 {
        let id = l.active->0;
        let k = tasklist::task_index(l.tasks, id);
        tasklist::lemma_task_index(l.tasks, id);
        assert(m.tasks.len() == l.tasks.len());
        assert forall|i: int| 0 <= i < m.tasks.len() implies (#[trigger] m.tasks[i]).id
            == l.tasks[i].id by {}
        tasklist::lemma_task_index_same_ids(m.tasks, l.tasks, id);
        let b = m.running(now);
        assert(l.running(now) == a + b);
        if b > 0 {
            let t = l.tasks[k];
            law_records_merge(l.time_log, l.current_date, id, t.name, t.category, a, b);
            assert(m.flushed(now) =~= l.flushed(now));
        } else {
            assert(mid == now);
        }
    }
}

/// While paused, flushing counts nothing.
pub proof fn law_paused_accrues_nothing(l: ListView, now: u64)
    ensures
        (ListView { active_since: None, ..l }).flushed(now) == (ListView {
            active_since: None,
            ..l
        }),
{
}

/// On desktop 0, flushing counts nothing.
pub proof fn law_desktop0_accrues_nothing(l: ListView, now: u64)
    requires
        l.active is None,
    ensures
        l.flushed(now) == l,
{
}

/// Switching away gives the previous task its interval and starts the clock of
/// the new one at `now`, with its notification cleared.
pub proof fn law_switching_accounts_the_interval(l: ListView, prev: TaskId, id: TaskId, now: u64)
    requires
        l.wf(),
        l.active == Some(prev),
        prev != id,
        l.has_task(id),
        l.flush_fits(now),
    ensures
        l.activated(id, now).active == Some(id),
        l.activated(id, now).active_since == Some(now),
        l.activated(id, now).tasks[tasklist::task_index(l.tasks, prev)].accumulated_secs
            == l.tasks[tasklist::task_index(l.tasks, prev)].accumulated_secs + l.running(now),
        l.activated(id, now).tasks[tasklist::task_index(l.tasks, id)].accumulated_secs
            == l.tasks[tasklist::task_index(l.tasks, id)].accumulated_secs,
        !l.activated(id, now).tasks[tasklist::task_index(l.tasks, id)].has_notification,
{
    let f = l.flushed(now);
    tasklist::lemma_task_index(l.tasks, prev);
    tasklist::lemma_task_index(l.tasks, id);
    assert forall|i: int| 0 <= i < f.tasks.len() implies (#[trigger] f.tasks[i]).id
        == l.tasks[i].id by {
        law_flush_counts_the_active_task_only(l, now, i);
    }
    law_flush_counts_the_active_task_only(l, now, tasklist::task_index(l.tasks, prev));
    law_flush_counts_the_active_task_only(l, now, tasklist::task_index(l.tasks, id));
    tasklist::lemma_task_index_same_ids(f.tasks, l.tasks, id);
    tasklist::lemma_task_index(f.tasks, id);
}

// ---------------------------------------------------------------------------
// Windows and desktops
// ---------------------------------------------------------------------------

/// A newly assigned window is visible until the desktop is switched, and belongs
/// to the active task.
pub proof fn law_assigned_window_is_visible(l: ListView, w: WindowId)
    ensures
        l.with_window(w, l.active).shows(w),
        l.with_window(w, l.active).task_of(w) == l.active,
{
}

/// Moving a window is what reading its desktop gives back, and leaves all other
/// windows where they are.
pub proof fn law_moved_window_is_found(
    l: ListView,
    w: WindowId,
    desktop: Option<TaskId>,
    other: WindowId,
)
    ensures
        l.with_window(w, desktop).task_of(w) == desktop,
        other != w ==> l.with_window(w, desktop).task_of(other) == l.task_of(other),
{
}

/// No window is listed on two desktops.
pub proof fn law_desktops_are_disjoint(
    l: ListView,
    a: Seq<WindowId>,
    b: Seq<WindowId>,
    x: Option<TaskId>,
    y: Option<TaskId>,
    w: WindowId,
)
    requires
        l.lists_desktop(a, x),
        l.lists_desktop(b, y),
        x != y,
    ensures
        !(a.contains(w) && b.contains(w)),
{
}

/// The windows of the active desktop are exactly the visible ones.
pub proof fn law_active_windows_are_the_visible_ones(l: ListView, r: Seq<WindowId>, w: WindowId)
    requires
        l.lists_desktop(r, l.active),
    ensures
        r.contains(w) <==> l.shows(w),
{
}

/// The listing of a desktop is determined by the list.
pub proof fn law_listing_is_determined(
    l: ListView,
    a: Seq<WindowId>,
    b: Seq<WindowId>,
    desktop: Option<TaskId>,
)
    requires
        l.lists_desktop(a, desktop),
        l.lists_desktop(b, desktop),
    ensures
        a == b,
{
    lemma_increasing_agree(a, b, 0);
}

proof fn lemma_increasing_agree(a: Seq<WindowId>, b: Seq<WindowId>, k: int)
    requires
        forall|i: int, j: int| 0 <= i < j < a.len() ==> (#[trigger] a[i]).0 < (#[trigger] a[j]).0,
        forall|i: int, j: int| 0 <= i < j < b.len() ==> (#[trigger] b[i]).0 < (#[trigger] b[j]).0,
        forall|w: WindowId| #[trigger] a.contains(w) <==> b.contains(w),
        0 <= k <= a.len(),
        k <= b.len(),
        forall|j: int| 0 <= j < k ==> a[j] == b[j],
    ensures
        a == b,
    decreases a.len() - k,
{
    if k < a.len() {
        assert(a.contains(a[k]));
        assert(b.contains(a[k]));
        let i = choose|i: int| 0 <= i < b.len() && b[i] == a[k];
        if i < k {
            assert(a[i].0 < a[k].0);
        }
        assert(b.contains(b[k]));
        assert(a.contains(b[k]));
        let j = choose|j: int| 0 <= j < a.len() && a[j] == b[k];
        if j < k {
            assert(b[j].0 < b[k].0);
        }
        if i > k && j > k {
            assert(b[k].0 < b[i].0);
            assert(a[k].0 < a[j].0);
        }
        lemma_increasing_agree(a, b, k + 1);
    } else if k < b.len() {
        assert(b.contains(b[k]));
        assert(a.contains(b[k]));
        let j = choose|j: int| 0 <= j < a.len() && a[j] == b[k];
        assert(b[j].0 < b[k].0);
    } else {
        assert(a =~= b);
    }
}

/// Removing a task drops its windows and no others.
pub proof fn law_removing_a_task_drops_its_windows(l: ListView, id: TaskId, now: u64, w: WindowId)
    ensures
        l.removed(id, now).window_task.contains_key(w.0) <==> l.window_task.contains_key(w.0)
            && l.window_task[w.0] != Some(id),
        l.removed(id, now).window_task.contains_key(w.0) ==> l.removed(
            id,
            now,
        ).window_task[w.0] == l.window_task[w.0],
        l.removed(id, now).active == if l.active == Some(id) {
            None
        } else {
            l.active
        },
{
}

// ---------------------------------------------------------------------------
// Order and notifications
// ---------------------------------------------------------------------------

/// Moving a task back restores the order.
pub proof fn law_reorder_is_undone(l: ListView, from: int, to: int)
    requires
        0 <= from < l.tasks.len(),
        0 <= to < l.tasks.len(),
    ensures
        l.reordered(from, to).reordered(to, from) == l,
        l.reordered(from, to).tasks[to] == l.tasks[from],
{
    assert(l.reordered(from, to).reordered(to, from).tasks =~= l.tasks);
}

/// Moving a task keeps the same tasks.
pub proof fn law_reorder_keeps_the_tasks(l: ListView, from: int, to: int)
    requires
        0 <= from,
        0 <= to,
    ensures
        l.reordered(from, to).tasks.to_multiset() == l.tasks.to_multiset(),
{
    if from < l.tasks.len() {
        let at = if to < l.tasks.len() {
            to
        } else {
            l.tasks.len() - 1
        };
        let rest = l.tasks.remove(from);
        vstd::seq_lib::to_multiset_insert(rest, at, l.tasks[from]);
        vstd::seq_lib::to_multiset_remove(l.tasks, from);
        assert(l.tasks.contains(l.tasks[from]));
        vstd::seq_lib::to_multiset_contains(l.tasks, l.tasks[from]);
        assert(l.reordered(from, to).tasks.to_multiset() =~= l.tasks.to_multiset());
    }
}

/// Looking at a task clears the notification that reached it meanwhile.
pub proof fn law_switching_clears_the_notification(l: ListView, id: TaskId, now: u64)
    requires
        l.wf(),
        l.has_task(id),
        l.active != Some(id),
        l.flush_fits(now),
    ensures
        l.marked(id, true).tasks[tasklist::task_index(l.tasks, id)].has_notification,
        !l.marked(id, true).activated(id, now).tasks[tasklist::task_index(
            l.tasks,
            id,
        )].has_notification,
{
    let k = tasklist::task_index(l.tasks, id);
    tasklist::lemma_task_index(l.tasks, id);
    let t = TaskView { has_notification: true, ..l.tasks[k] };
    let m = l.marked(id, true);
    tasklist::lemma_with_task_wf(l, k, t);
    tasklist::lemma_task_index_same_ids(m.tasks, l.tasks, id);
    tasklist::lemma_flushed_wf(m, now);
    let f = m.flushed(now);
    if m.running(now) > 0 {
        tasklist::lemma_task_index(m.tasks, m.active->0);
    }
    assert forall|i: int| 0 <= i < f.tasks.len() implies (#[trigger] f.tasks[i]).id
        == m.tasks[i].id by {}
    tasklist::lemma_task_index_same_ids(f.tasks, m.tasks, id);
}

// ---------------------------------------------------------------------------
// Repository history
// ---------------------------------------------------------------------------

/// Whether no text stands twice.
pub open spec fn distinct(h: Seq<Seq<char>>) -> bool {
    forall|i: int, j: int| 0 <= i < j < h.len() ==> #[trigger] h[i] != #[trigger] h[j]
}

proof fn lemma_without_text(h: Seq<Seq<char>>, repo: Seq<char>)
    ensures
        forall|i: int|
            0 <= i < tasklist::without_text(h, repo).len() ==> #[trigger] tasklist::without_text(
                h,
                repo,
            )[i] != repo && h.contains(tasklist::without_text(h, repo)[i]),
        distinct(h) ==> distinct(tasklist::without_text(h, repo)),
        tasklist::without_text(h, repo).len() <= h.len(),
    decreases h.len(),
{
    if h.len() > 0 {
        let d = h.drop_last();
        let r = tasklist::without_text(d, repo);
        let w = tasklist::without_text(h, repo);
        lemma_without_text(d, repo);
        assert forall|i: int| 0 <= i < w.len() implies #[trigger] w[i] != repo && h.contains(
            w[i],
        ) by {
            if i < r.len() {
                assert(w[i] == r[i]);
                assert(d.contains(r[i]));
                let j = choose|j: int| 0 <= j < d.len() && d[j] == r[i];
                assert(h[j] == w[i]);
            } else {
                assert(h[h.len() - 1] == w[i]);
            }
        }
        if distinct(h) {
            assert forall|i: int, j: int| 0 <= i < j < d.len() implies #[trigger] d[i]
                != #[trigger] d[j] by {
                assert(h[i] != h[j]);
            }
            assert forall|i: int, j: int| 0 <= i < j < w.len() implies #[trigger] w[i]
                != #[trigger] w[j] by {
                assert(w[i] == r[i]);
                if j < r.len() {
                    assert(r[i] != r[j]);
                } else {
                    assert(d.contains(r[i]));
                    let x = choose|x: int| 0 <= x < d.len() && d[x] == r[i];
                    assert(h[x] != h[h.len() - 1]);
                }
            }
        }
    }
}

/// The history is bounded, holds no repository twice, and the one entered last
/// comes first.
pub proof fn law_repo_history(l: ListView, repo: Seq<char>)
    requires
        repo.len() > 0,
    ensures
        l.repo_recorded(repo).repo_history.len() <= tasklist::HISTORY_LIMIT,
        l.repo_recorded(repo).repo_history[0] == repo,
        distinct(l.repo_history) ==> distinct(l.repo_recorded(repo).repo_history),
{
    let w = tasklist::without_text(l.repo_history, repo);
    let h = l.repo_recorded(repo).repo_history;
    lemma_without_text(l.repo_history, repo);
    if distinct(l.repo_history) {
        assert forall|i: int, j: int| 0 <= i < j < h.len() implies #[trigger] h[i]
            != #[trigger] h[j] by {
            if i > 0 {
                assert(w[i - 1] != w[j - 1]);
            } else {
                assert(w[j - 1] != repo);
            }
        }
    }
}

// ---------------------------------------------------------------------------
// What each operation does
// ---------------------------------------------------------------------------

/// The task with an id stands where the only task with that id stands.
proof fn lemma_index_is(l: ListView, id: TaskId, k: int)
    requires
        l.wf(),
        0 <= k < l.tasks.len(),
        l.tasks[k].id == id,
    ensures
        tasklist::task_index(l.tasks, id) == k,
{
    assert forall|j: int| 0 <= j < k implies (#[trigger] l.tasks[j]).id != id by {
        assert(l.tasks[j].id != l.tasks[k].id);
    }
    tasklist::lemma_task_index_unique(l.tasks, id, k);
}

/// Counting adds the seconds since the clock was started to the active task and
/// starts the clock anew; nothing else changes. A clock that went backwards
/// counts nothing.
pub proof fn law_flush_adds_the_elapsed_seconds(
    l: ListView,
    id: TaskId,
    k: int,
    since: u64,
    now: u64,
)
    requires
        l.wf(),
        l.flush_fits(now),
        l.active == Some(id),
        l.active_since == Some(since),
        0 <= k < l.tasks.len(),
        l.tasks[k].id == id,
    ensures
        now <= since ==> l.flushed(now) == l,
        since < now ==> {
            let r = l.flushed(now);
            &&& r.tasks == l.tasks.update(
                k,
                TaskView {
                    accumulated_secs: (l.tasks[k].accumulated_secs + (now - since)) as u64,
                    ..l.tasks[k]
                },
            )
            &&& l.tasks[k].accumulated_secs + (now - since) <= u64::MAX
            &&& r.active_since == Some(now)
            &&& r.active == l.active
            &&& r.window_task == l.window_task
            &&& r.minimized == l.minimized
            &&& r.maximized == l.maximized
            &&& r.next_id == l.next_id
            &&& r.repo_history == l.repo_history
            &&& r.settings == l.settings
            &&& r.session == l.session
            &&& r.current_date == l.current_date
        },
{
    lemma_index_is(l, id, k);
}

/// The counted seconds are logged on the current day under the task, with the
/// name and category that it has now: added to the row of that day and task, or
/// as a new row.
pub proof fn law_flush_logs_the_elapsed_seconds(
    l: ListView,
    id: TaskId,
    k: int,
    since: u64,
    now: u64,
    i: int,
)
    requires
        l.wf(),
        l.flush_fits(now),
        l.current_date.len() > 0,
        l.active == Some(id),
        l.active_since == Some(since),
        since < now,
        0 <= k < l.tasks.len(),
        l.tasks[k].id == id,
    ensures
        ({
            let before = l.time_log;
            let after = l.flushed(now).time_log;
            let name = l.tasks[k].name;
            let category = l.tasks[k].category;
            &&& 0 <= i < before.len() && before[i].date == l.current_date && before[i].task_id == id
                ==> after == before.update(
                i,
                EntryView {
                    date: l.current_date,
                    task_id: id,
                    project: name,
                    category,
                    secs: (before[i].secs + (now - since)) as u64,
                },
            ) && before[i].secs + (now - since) <= u64::MAX
            &&& (forall|j: int|
                0 <= j < before.len() ==> !((#[trigger] before[j]).date == l.current_date
                    && before[j].task_id == id)) ==> after == before.push(
                EntryView {
                    date: l.current_date,
                    task_id: id,
                    project: name,
                    category,
                    secs: (now - since) as u64,
                },
            )
        }),
{
    lemma_index_is(l, id, k);
    timelog::lemma_row_index(l.time_log, l.current_date, id);
    let f = timelog::row_index(l.time_log, l.current_date, id);
    if 0 <= i < l.time_log.len() && l.time_log[i].date == l.current_date && l.time_log[i].task_id
        == id {
        if f < i {
            assert(l.time_log[f].date == l.time_log[i].date);
        }
        assert(f == i);
    }
}

/// Without a date nothing is logged.
pub proof fn law_undated_time_is_not_logged(l: ListView, now: u64)
    requires
        l.current_date.len() == 0,
    ensures
        l.flushed(now).time_log == l.time_log,
{
}

/// Switching to another task stops the clock of the one before, starts it for the
/// new one and clears its notification; everything else about every task, the
/// windows and the settings stay as they are.
pub proof fn law_switching_changes_nothing_else(l: ListView, id: TaskId, now: u64, i: int)
    requires
        l.wf(),
        l.flush_fits(now),
        l.has_task(id),
        l.active != Some(id),
        0 <= i < l.tasks.len(),
    ensures
        ({
            let r = l.activated(id, now);
            let t = l.tasks[i];
            let secs = match (l.active, l.active_since) {
                (Some(a), Some(since)) => if t.id == a && now > since {
                    now - since
                } else {
                    0
                },
                _ => 0,
            };
            &&& r.active == Some(id)
            &&& r.active_since == Some(now)
            &&& r.tasks.len() == l.tasks.len()
            &&& r.tasks[i] == (TaskView {
                accumulated_secs: (t.accumulated_secs + secs) as u64,
                has_notification: t.has_notification && t.id != id,
                ..t
            })
            &&& r.window_task == l.window_task
            &&& r.minimized == l.minimized
            &&& r.maximized == l.maximized
            &&& r.next_id == l.next_id
            &&& r.repo_history == l.repo_history
            &&& r.settings == l.settings
            &&& r.session == l.session
            &&& r.current_date == l.current_date
        }),
{
    let f = l.flushed(now);
    law_flush_counts_the_active_task_only(l, now, i);
    assert forall|j: int| 0 <= j < l.tasks.len() implies (#[trigger] f.tasks[j]).id
        == l.tasks[j].id by {
        law_flush_counts_the_active_task_only(l, now, j);
    }
    law_flush_counts_the_active_task_only(l, now, 0);
    tasklist::lemma_task_index_same_ids(f.tasks, l.tasks, id);
    tasklist::lemma_task_index(l.tasks, id);
    if l.tasks[i].id == id {
        lemma_index_is(l, id, i);
    }
    if let Some(a) = l.active {
        tasklist::lemma_task_index(l.tasks, a);
        if l.tasks[i].id == a {
            lemma_index_is(l, a, i);
        }
    }
}

/// A task that does not exist cannot be switched to, and switching to the active
/// task changes nothing.
pub proof fn law_switching_to_nothing_new_is_noop(l: ListView, id: TaskId, now: u64)
    requires
        l.active == Some(id) || forall|i: int|
            0 <= i < l.tasks.len() ==> (#[trigger] l.tasks[i]).id != id,
    ensures
        l.activated(id, now) == l,
{
    tasklist::lemma_task_index(l.tasks, id);
}

/// Leaving for desktop 0 counts the running interval and stops the clock.
pub proof fn law_desktop0_stops_the_clock(l: ListView, now: u64)
    ensures
        l.on_scratch(now).active is None,
        l.active is Some ==> l.on_scratch(now).active_since is None,
        l.on_scratch(now).tasks == l.flushed(now).tasks,
        l.on_scratch(now).time_log == l.flushed(now).time_log,
        l.on_scratch(now).window_task == l.window_task,
        l.on_scratch(now).minimized == l.minimized,
        l.on_scratch(now).maximized == l.maximized,
{
}

/// A new task stands last, under the next id, with the given name and category, a
/// colour that repeats after eight tasks, and nothing else set.
pub proof fn law_added_task_stands_last(l: ListView, name: Seq<char>, category: Seq<char>)
    requires
        l.next_id < u64::MAX,
    ensures
        ({
            let r = l.added(name, category);
            let t = r.tasks.last();
            &&& r.tasks.drop_last() == l.tasks
            &&& r.tasks.len() == l.tasks.len() + 1
            &&& t.id.0 == l.next_id
            &&& r.next_id == l.next_id + 1
            &&& t.name == name
            &&& t.category == category
            &&& t.color == crate::settings::palette()[l.next_id as int % 8]
            &&& t.branch is None && t.repo is None && t.worktree_path is None && t.github is None
            &&& t.accumulated_secs == 0
            &&& !t.has_notification
            &&& r.active == l.active
            &&& r.active_since == l.active_since
            &&& r.window_task == l.window_task
            &&& r.time_log == l.time_log
        }),
{
    assert(l.added(name, category).tasks.drop_last() =~= l.tasks);
}

proof fn lemma_without_task_is_remove(tasks: Seq<TaskView>, id: TaskId, k: int)
    requires
        0 <= k < tasks.len(),
        tasks[k].id == id,
        forall|i: int| 0 <= i < tasks.len() && i != k ==> (#[trigger] tasks[i]).id != id,
    ensures
        tasklist::without_task(tasks, id) == tasks.remove(k),
    decreases tasks.len(),
{
    let d = tasks.drop_last();
    if k == tasks.len() - 1 {
        assert forall|i: int| 0 <= i < d.len() implies (#[trigger] d[i]).id != id by {
            assert(d[i] == tasks[i]);
        }
        lemma_without_task_is_same(d, id);
        assert(tasks.remove(k) =~= d);
    } else {
        assert forall|i: int| 0 <= i < d.len() && i != k implies (#[trigger] d[i]).id != id by {
            assert(d[i] == tasks[i]);
        }
        lemma_without_task_is_remove(d, id, k);
        assert(tasks.last() == tasks[tasks.len() - 1]);
        assert(tasks.remove(k) =~= d.remove(k).push(tasks.last()));
    }
}

proof fn lemma_without_task_is_same(tasks: Seq<TaskView>, id: TaskId)
    requires
        forall|i: int| 0 <= i < tasks.len() ==> (#[trigger] tasks[i]).id != id,
    ensures
        tasklist::without_task(tasks, id) == tasks,
    decreases tasks.len(),
{
    if tasks.len() > 0 {
        let d = tasks.drop_last();
        assert forall|i: int| 0 <= i < d.len() implies (#[trigger] d[i]).id != id by {
            assert(d[i] == tasks[i]);
        }
        lemma_without_task_is_same(d, id);
        assert(tasks.last() == tasks[tasks.len() - 1]);
        assert(d.push(tasks.last()) =~= tasks);
    }
}

/// Removing a task takes exactly that task out of the sidebar; the others keep
/// their order and their time. Without such a task nothing is taken out.
pub proof fn law_removing_takes_one_task_out(l: ListView, id: TaskId, now: u64, k: int)
    requires
        l.wf(),
        l.flush_fits(now),
    ensures
        0 <= k < l.tasks.len() && l.tasks[k].id == id ==> l.removed(id, now).tasks
            == l.tasks.remove(k),
        !l.has_task(id) ==> l.removed(id, now).tasks == l.tasks,
        l.removed(id, now).next_id == l.next_id,
        l.removed(id, now).repo_history == l.repo_history,
        l.removed(id, now).settings == l.settings,
        l.active != Some(id) ==> l.removed(id, now).time_log == l.time_log,
        l.active == Some(id) ==> l.removed(id, now).time_log == l.flushed(now).time_log,
{
    tasklist::lemma_task_index(l.tasks, id);
    if 0 <= k < l.tasks.len() && l.tasks[k].id == id {
        lemma_index_is(l, id, k);
        let m = if l.active == Some(id) {
            l.on_scratch(now)
        } else {
            l
        };
        assert(m.tasks.len() == l.tasks.len());
        assert forall|i: int| 0 <= i < m.tasks.len() && i != k implies (#[trigger] m.tasks[i]).id
            != id && m.tasks[i] == l.tasks[i] by {
            if i < k {
                assert(l.tasks[i].id != l.tasks[k].id);
            } else {
                assert(l.tasks[k].id != l.tasks[i].id);
            }
        }
        lemma_without_task_is_remove(m.tasks, id, k);
        assert(m.tasks.remove(k) =~= l.tasks.remove(k));
    }
    if !l.has_task(id) {
        lemma_without_task_is_same(l.tasks, id);
    }
}

/// Moving a task puts it at the new position, behind the end at the end, and
/// leaves the others in their order.
pub proof fn law_reorder_moves_one_task(l: ListView, from: int, to: int)
    requires
        0 <= from < l.tasks.len(),
        0 <= to,
    ensures
        ({
            let r = l.reordered(from, to).tasks;
            &&& r.len() == l.tasks.len()
            &&& to < l.tasks.len() ==> r[to] == l.tasks[from] && r.remove(to) == l.tasks.remove(
                from,
            )
            &&& to >= l.tasks.len() ==> r.last() == l.tasks[from] && r.drop_last()
                == l.tasks.remove(from)
        }),
{
    let r = l.reordered(from, to).tasks;
    if to < l.tasks.len() {
        assert(r.remove(to) =~= l.tasks.remove(from));
    } else {
        assert(r.drop_last() =~= l.tasks.remove(from));
    }
}

/// Marking a task changes its notification and nothing else.
pub proof fn law_marking_changes_one_task(l: ListView, id: TaskId, notification: bool, i: int)
    requires
        l.wf(),
        0 <= i < l.tasks.len(),
    ensures
        l.marked(id, notification).tasks.len() == l.tasks.len(),
        l.tasks[i].id == id ==> l.marked(id, notification).tasks[i] == (TaskView {
            has_notification: notification,
            ..l.tasks[i]
        }),
        l.tasks[i].id != id ==> l.marked(id, notification).tasks[i] == l.tasks[i],
        l.marked(id, notification).active == l.active,
        l.marked(id, notification).window_task == l.window_task,
{
    tasklist::lemma_task_index(l.tasks, id);
    if l.tasks[i].id == id {
        lemma_index_is(l, id, i);
    }
}

proof fn lemma_without_text_is_filter(h: Seq<Seq<char>>, repo: Seq<char>)
    ensures
        tasklist::without_text(h, repo) == h.filter(|x: Seq<char>| x != repo),
    decreases h.len(),
{
    reveal(Seq::filter);
    if h.len() > 0 {
        lemma_without_text_is_filter(h.drop_last(), repo);
    }
}

/// A recorded repository comes first, and behind it the others in their order,
/// twenty in all. An empty one is not recorded.
pub proof fn law_recorded_repo_comes_first(l: ListView, repo: Seq<char>)
    ensures
        ({
            let r = l.repo_recorded(repo).repo_history;
            let others = l.repo_history.filter(|x: Seq<char>| x != repo);
            &&& repo.len() == 0 ==> r == l.repo_history
            &&& repo.len() > 0 && others.len() < 20 ==> r == seq![repo] + others
            &&& repo.len() > 0 && others.len() >= 20 ==> r == seq![repo] + others.take(19)
        }),
{
    lemma_without_text_is_filter(l.repo_history, repo);
    let others = l.repo_history.filter(|x: Seq<char>| x != repo);
    if repo.len() > 0 && others.len() >= 20 {
        assert((seq![repo] + others).take(20) =~= seq![repo] + others.take(19));
    }
}

/// The id after a list is above every id in it, and is the lowest such.
pub proof fn law_next_id_is_the_lowest_free_above(tasks: Seq<TaskView>)
    ensures
        ListView::id_after(tasks) >= 0,
        forall|i: int|
            0 <= i < tasks.len() ==> (#[trigger] tasks[i]).id.0 < ListView::id_after(tasks),
        ListView::id_after(tasks) > 0 ==> exists|i: int|
            0 <= i < tasks.len() && (#[trigger] tasks[i]).id.0 + 1 == ListView::id_after(tasks),
    decreases tasks.len(),
{
    if tasks.len() > 0 {
        let d = tasks.drop_last();
        law_next_id_is_the_lowest_free_above(d);
        let n = tasks.len() - 1;
        assert(tasks.last() == tasks[n]);
        assert forall|i: int| 0 <= i < tasks.len() implies (#[trigger] tasks[i]).id.0
            < ListView::id_after(tasks) by {
            if i < n {
                assert(d[i] == tasks[i]);
            }
        }
        if tasks.last().id.0 + 1 <= ListView::id_after(d) {
            let j = choose|j: int|
                0 <= j < d.len() && (#[trigger] d[j]).id.0 + 1 == ListView::id_after(d);
            assert(tasks[j] == d[j]);
        } else {
            assert(tasks[n].id.0 + 1 == ListView::id_after(tasks));
        }
    }
}

/// A window is listed on the desktop it was put on, in the order of the ids, and
/// on no other; an unknown window is listed nowhere.
pub proof fn law_windows_are_listed_where_they_are(
    l: ListView,
    r: Seq<WindowId>,
    desktop: Option<TaskId>,
    w: WindowId,
)
    requires
        l.lists_desktop(r, desktop),
    ensures
        l.window_task.contains_key(w.0) ==> (r.contains(w) <==> l.task_of(w) == desktop),
        !l.window_task.contains_key(w.0) ==> !r.contains(w) && l.task_of(w) is None && !l.shows(w),
        forall|i: int, j: int|
            0 <= i < j < r.len() ==> (#[trigger] r[i]).0 < (#[trigger] r[j]).0,
        l.shows(w) <==> l.window_task.contains_key(w.0) && l.task_of(w) == l.active,
{
}

/// Time of a task that is gone is logged without a name, and added to no task.
pub proof fn law_time_of_a_lost_task(l: ListView, id: TaskId, secs: u64)
    requires
        forall|i: int| 0 <= i < l.tasks.len() ==> (#[trigger] l.tasks[i]).id != id,
    ensures
        l.committed(id, secs).tasks == l.tasks,
        l.committed(id, secs).time_log == timelog::recorded(
            l.time_log,
            l.current_date,
            id,
            Seq::empty(),
            Seq::empty(),
            secs,
        ),
        !l.has_task(id),
{
    tasklist::lemma_task_index(l.tasks, id);
}

/// Marking a task that does not exist changes nothing.
pub proof fn law_marking_nothing_is_noop(l: ListView, id: TaskId, notification: bool)
    requires
        forall|i: int| 0 <= i < l.tasks.len() ==> (#[trigger] l.tasks[i]).id != id,
    ensures
        l.marked(id, notification) == l,
{
    tasklist::lemma_task_index(l.tasks, id);
}

} // verus!
