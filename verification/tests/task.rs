use focuswm::github::parse_slug;
use focuswm::model::{TaskId, WindowId};
use focuswm::settings::{default_idle_minutes, task_palette, Settings};
use focuswm::task::{GithubLink, SessionApp};
use focuswm::tasklist::TaskList;
use focuswm::timelog::{TimeEntry, TimeLog};

#[test]
fn parse_slug_handles_url_forms() {
    let want = Some(("ogoffart".to_string(), "focuswm".to_string()));
    assert_eq!(parse_slug("https://github.com/ogoffart/focuswm"), want);
    assert_eq!(parse_slug("https://github.com/ogoffart/focuswm.git"), want);
    assert_eq!(parse_slug("https://github.com/ogoffart/focuswm/"), want);
    assert_eq!(parse_slug("git@github.com:ogoffart/focuswm.git"), want);
    assert_eq!(parse_slug("ssh://git@github.com/ogoffart/focuswm.git"), want);
    assert_eq!(parse_slug("ogoffart/focuswm"), want);
    // Non-GitHub or malformed inputs yield nothing.
    assert_eq!(parse_slug("https://gitlab.com/ogoffart/focuswm"), None);
    assert_eq!(parse_slug("/home/olivier/code/focuswm"), None);
    assert_eq!(parse_slug("ogoffart"), None);
}

#[test]
fn move_window_to_reassigns_desktop() {
    let mut list = TaskList::new();
    let a = list.add_task("A", "work");
    let b = list.add_task("B", "work");
    list.set_active(a, 0);
    let w = WindowId(1);
    list.assign_window(w); // lands on the active task, A
    assert_eq!(list.task_of_window(w), Some(a));
    // Move to B, then to desktop 0.
    list.move_window_to(w, Some(b));
    assert_eq!(list.task_of_window(w), Some(b));
    list.move_window_to(w, None);
    assert_eq!(list.task_of_window(w), None);
    // Moving to an unknown task is a no-op.
    list.move_window_to(w, Some(TaskId(999)));
    assert_eq!(list.task_of_window(w), None);
}

#[test]
fn add_assigns_increasing_ids() {
    let mut list = TaskList::new();
    let a = list.add_task("Fix bug", "work");
    let b = list.add_task("Write docs", "work");
    assert_eq!(a, TaskId(0));
    assert_eq!(b, TaskId(1));
    assert_eq!(list.tasks().len(), 2);
}

#[test]
fn switching_accumulates_time_on_previous_task() {
    let mut list = TaskList::new();
    let a = list.add_task("A", "work");
    let b = list.add_task("B", "work");
    list.set_active(a, 0);
    // 100s on A, then switch to B.
    list.set_active(b, 100);
    assert_eq!(list.get(a).unwrap().accumulated_secs, 100);
    assert_eq!(list.get(b).unwrap().accumulated_secs, 0);
    // 30s on B, then back to A.
    list.set_active(a, 130);
    assert_eq!(list.get(b).unwrap().accumulated_secs, 30);
    assert_eq!(list.active(), Some(a));
}

#[test]
fn flush_accumulates_without_switching() {
    let mut list = TaskList::new();
    let a = list.add_task("A", "work");
    list.set_active(a, 10);
    list.flush(40);
    assert_eq!(list.get(a).unwrap().accumulated_secs, 30);
    // A subsequent flush only counts time since the last flush.
    list.flush(50);
    assert_eq!(list.get(a).unwrap().accumulated_secs, 40);
}

#[test]
fn windows_follow_active_task() {
    let mut list = TaskList::new();
    let a = list.add_task("A", "work");
    let b = list.add_task("B", "work");
    list.set_active(a, 0);
    list.assign_window(WindowId(1));
    list.assign_window(WindowId(2));
    list.set_active(b, 5);
    list.assign_window(WindowId(3));

    assert_eq!(list.windows_for(a), vec![WindowId(1), WindowId(2)]);
    assert_eq!(list.windows_for(b), vec![WindowId(3)]);
    assert_eq!(list.active_windows(), vec![WindowId(3)]);
    assert!(list.is_visible(WindowId(3)));
    assert!(!list.is_visible(WindowId(1)));
}

#[test]
fn new_tasks_get_a_palette_colour_and_props_can_be_edited() {
    let mut list = TaskList::new();
    let palette = task_palette();
    let a = list.add_task("A", "work");
    let b = list.add_task("B", "work");
    // Colours are assigned round-robin by id, so the first two differ.
    assert_eq!(list.get(a).unwrap().color, palette[0]);
    assert_eq!(list.get(b).unwrap().color, palette[1]);
    // Editing replaces name, category and colour together.
    list.set_task_props(a, "Renamed", "personal", "#ffffff");
    let t = list.get(a).unwrap();
    assert_eq!(t.name, "Renamed");
    assert_eq!(t.category, "personal");
    assert_eq!(t.color, "#ffffff");
    // Unknown id is a no-op.
    list.set_task_props(TaskId(999), "x", "y", "z");
}

#[test]
fn minimized_and_maximized_state_tracks_and_clears_on_unmap() {
    let mut list = TaskList::new();
    let a = list.add_task("A", "work");
    list.set_active(a, 0);
    list.assign_window(WindowId(1));
    assert!(!list.is_minimized(WindowId(1)));
    list.set_minimized(WindowId(1), true);
    list.set_maximized(WindowId(1), true);
    assert!(list.is_minimized(WindowId(1)));
    assert!(list.is_maximized(WindowId(1)));
    list.set_minimized(WindowId(1), false);
    assert!(!list.is_minimized(WindowId(1)));
    // Unmapping the window clears any leftover state.
    list.set_minimized(WindowId(1), true);
    list.remove_window(WindowId(1));
    assert!(!list.is_minimized(WindowId(1)));
    assert!(!list.is_maximized(WindowId(1)));
}

#[test]
fn reorder_moves_tasks() {
    let mut list = TaskList::new();
    let a = list.add_task("A", "work");
    let b = list.add_task("B", "work");
    let c = list.add_task("C", "work");
    list.reorder(0, 2); // move A to the end
    let order: Vec<TaskId> = list.tasks().iter().map(|t| t.id).collect();
    assert_eq!(order, vec![b, c, a]);
    list.reorder(99, 0); // out of range -> no-op
    let order2: Vec<TaskId> = list.tasks().iter().map(|t| t.id).collect();
    assert_eq!(order2, vec![b, c, a]);
}

#[test]
fn removing_active_task_falls_back_to_desktop0_and_drops_windows() {
    let mut list = TaskList::new();
    let a = list.add_task("A", "work");
    let _b = list.add_task("B", "work");
    list.set_active(a, 0);
    list.assign_window(WindowId(1));
    list.remove_task(a, 50);
    assert_eq!(list.get(a), None);
    assert_eq!(list.task_of_window(WindowId(1)), None);
    // Falls back to desktop 0 rather than auto-selecting another task.
    assert_eq!(list.active(), None);
}

#[test]
fn desktop0_is_default_and_holds_its_own_windows() {
    let mut list = TaskList::new();
    let a = list.add_task("A", "work");
    // A fresh list starts on desktop 0 (no active task).
    assert_eq!(list.active(), None);
    // Windows opened on desktop 0 stay there and are visible.
    list.assign_window(WindowId(1));
    assert_eq!(list.scratch_windows(), vec![WindowId(1)]);
    assert_eq!(list.active_windows(), vec![WindowId(1)]);
    assert!(list.is_visible(WindowId(1)));

    // Switching to a task hides desktop 0's windows; new ones go to the task.
    list.set_active(a, 10);
    list.assign_window(WindowId(2));
    assert!(!list.is_visible(WindowId(1)));
    assert!(list.is_visible(WindowId(2)));
    assert_eq!(list.windows_for(a), vec![WindowId(2)]);

    // Back to desktop 0: its window is visible again, the task's is hidden.
    list.set_scratch_active(20);
    assert_eq!(list.active(), None);
    assert_eq!(list.active_windows(), vec![WindowId(1)]);
    assert!(!list.is_visible(WindowId(2)));
}

#[test]
fn desktop0_does_not_accrue_time() {
    let mut list = TaskList::new();
    let a = list.add_task("A", "work");
    list.set_active(a, 0);
    list.set_scratch_active(100); // 100s counted onto A, then desktop 0
    assert_eq!(list.get(a).unwrap().accumulated_secs, 100);
    // Time on desktop 0 is not tracked.
    list.flush(400);
    assert_eq!(list.get(a).unwrap().accumulated_secs, 100);
    assert!(!list.is_paused());
}

#[test]
fn notify_skips_active_task_and_clears_on_switch() {
    let mut list = TaskList::new();
    let a = list.add_task("A", "work");
    let b = list.add_task("B", "work");
    list.set_active(a, 0);
    list.notify(a); // active -> ignored
    assert!(!list.get(a).unwrap().has_notification);
    list.notify(b);
    assert!(list.get(b).unwrap().has_notification);
    list.set_active(b, 10); // looking at B clears it
    assert!(!list.get(b).unwrap().has_notification);
}

#[test]
fn time_log_records_per_day_per_task_on_flush() {
    let mut list = TaskList::new();
    let a = list.add_task("Fix bug", "work");
    let b = list.add_task("Docs", "writing");
    list.set_date("2024-03-01");
    list.set_active(a, 0);
    list.set_active(b, 100); // 100s -> A on 2024-03-01
    list.set_date("2024-03-02");
    list.flush(160); // 60s -> B on 2024-03-02

    let day1 = list.time_log().aggregate("2024-03-01", "2024-03-01");
    assert_eq!(day1.total, 100);
    assert_eq!(day1.by_category, vec![("work".to_string(), 100)]);
    assert_eq!(day1.by_project, vec![("Fix bug".to_string(), 100)]);

    let week = list.time_log().aggregate("2024-03-01", "2024-03-07");
    assert_eq!(week.total, 160);
    // Sorted by time descending: work(100) before writing(60).
    assert_eq!(
        week.by_category,
        vec![("work".to_string(), 100), ("writing".to_string(), 60)]
    );
}

#[test]
fn daily_totals_are_sorted_by_date() {
    let mut list = TaskList::new();
    let a = list.add_task("A", "work");
    list.set_date("2024-03-02");
    list.set_active(a, 0);
    list.flush(50);
    list.set_date("2024-03-01");
    list.flush(80); // 30s on the earlier date
    let daily = list.time_log().daily_totals("2024-03-01", "2024-03-31");
    assert_eq!(
        daily,
        vec![
            ("2024-03-01".to_string(), 30),
            ("2024-03-02".to_string(), 50)
        ]
    );
}

#[test]
fn aggregate_excludes_out_of_range_days() {
    let mut list = TaskList::new();
    let a = list.add_task("A", "work");
    list.set_date("2024-03-10");
    list.set_active(a, 0);
    list.flush(120); // 2 min on 2024-03-10
    list.set_date("2024-03-20");
    list.flush(180); // 1 min on 2024-03-20
    // Range covering only the first day.
    let agg = list.time_log().aggregate("2024-03-01", "2024-03-15");
    assert_eq!(agg.total, 120);
    // Empty range.
    let none = list.time_log().aggregate("2025-01-01", "2025-12-31");
    assert_eq!(none.total, 0);
    assert!(none.by_category.is_empty());
}

#[test]
fn default_idle_minutes_is_five() {
    assert_eq!(default_idle_minutes(), 5);
    assert_eq!(Settings::default().idle_minutes, 5);
}

#[test]
fn pause_stops_accrual_and_resume_restarts_it() {
    let mut list = TaskList::new();
    let a = list.add_task("A", "work");
    list.set_active(a, 0);
    list.flush(100); // 100s active
    // Go idle: flush up to last activity (100), then pause.
    list.pause();
    assert!(list.is_paused());
    list.flush(500); // idle window — counts nothing
    assert_eq!(list.get(a).unwrap().accumulated_secs, 100);
    // Resume and accrue again.
    list.resume(500);
    list.flush(560);
    assert_eq!(list.get(a).unwrap().accumulated_secs, 160);
}

#[test]
fn settings_round_trip_and_defaults() {
    let list = TaskList::new();
    assert!(list.settings().categories.contains(&"work".to_string()));
    // Focus-follows-mouse defaults on (and old configs without the field
    // deserialize to the same default via serde).
    assert!(list.settings().focus_follows_mouse);
    assert!(Settings::default().focus_follows_mouse);
    let mut list = list;
    // A GitHub token isn't configured by default.
    assert!(Settings::default().github_token.is_empty());
    list.set_settings(Settings {
        terminal: "foot".into(),
        browser: "firefox".into(),
        categories: vec!["x".into()],
        idle_minutes: 10,
        focus_follows_mouse: false,
        github_token: "ghp_test".into(),
    });
    assert_eq!(list.settings().terminal, "foot");
    assert_eq!(list.settings().categories, vec!["x".to_string()]);
    assert!(!list.settings().focus_follows_mouse);
    assert_eq!(list.settings().github_token, "ghp_test");
}

#[test]
fn session_snapshot_persists_and_takes_once() {
    let mut list = TaskList::new();
    let a = list.add_task("A", "work");
    list.set_session(vec![
        SessionApp { task: Some(a), cmd: vec!["foot".into()], cwd: Some("/tmp".into()) },
        SessionApp { task: None, cmd: vec!["firefox".into()], cwd: None },
    ]);
    // Survives serialization (the persist path) including the task ids.
    let mut loaded = list.to_saved().into_list();
    let apps = loaded.take_session();
    assert_eq!(apps.len(), 2);
    assert_eq!(apps[0].task, Some(a));
    assert_eq!(apps[0].cmd, vec!["foot".to_string()]);
    assert_eq!(apps[1].task, None);
    // Taking leaves it empty (it's rebuilt from live windows afterwards).
    assert!(loaded.take_session().is_empty());
    // A file without the field loads to no session.
    let mut bare = TaskList::new().to_saved().into_list();
    assert!(bare.take_session().is_empty());
}

#[test]
fn repo_history_dedups_and_orders_most_recent_first() {
    let mut list = TaskList::new();
    list.record_repo("/home/me/a");
    list.record_repo("/home/me/b");
    list.record_repo("/home/me/a"); // re-entered -> moves to front
    assert_eq!(list.repo_history(), &["/home/me/a", "/home/me/b"]);
    list.record_repo(""); // ignored
    assert_eq!(list.repo_history().len(), 2);
}

#[test]
fn reindex_after_load_avoids_id_collisions() {
    let mut list = TaskList::new();
    list.add_task("A", "work");
    list.add_task("B", "work");
    // Simulate a load that reset next_id but kept tasks.
    let mut saved = list.to_saved();
    saved.next_id = 0;
    let mut list = saved.into_list();
    list.reindex_after_load();
    let c = list.add_task("C", "work");
    assert_eq!(c, TaskId(2));
}

#[test]
fn github_link_persists_through_json() {
    let mut list = TaskList::new();
    let a = list.add_task("A", "work");
    list.get_mut(a).unwrap().github = Some(GithubLink {
        slug: "ogoffart/focuswm".into(),
        number: 42,
        title: "Fix it".into(),
        url: "https://github.com/ogoffart/focuswm/pull/42".into(),
        last_seen: Some(1_700_000_000),
    });
    let back = list.to_saved().into_list();
    let link = back.get(a).unwrap().github.as_ref().unwrap();
    assert_eq!(link.number, 42);
    assert_eq!(link.slug, "ogoffart/focuswm");
    assert_eq!(link.last_seen, Some(1_700_000_000));
}

#[test]
fn tasklist_json_round_trip_preserves_tasks_settings_and_log() {
    let mut list = TaskList::new();
    list.set_date("2026-01-02");
    let a = list.add_task("A", "work");
    list.add_task("B", "personal");
    list.set_active(a, 0);
    list.flush(600); // 10 min on A
    list.record_repo("~/code/x");
    let mut s = list.settings().clone();
    s.terminal = "foot".into();
    list.set_settings(s);

    let mut back = list.to_saved().into_list();
    back.reindex_after_load();

    assert_eq!(back.tasks().len(), 2);
    assert_eq!(back.settings().terminal, "foot");
    assert_eq!(back.repo_history(), &["~/code/x".to_string()]);
    // The 10 minutes on A survived in the time log.
    let agg = back.time_log().aggregate("2026-01-01", "2026-01-31");
    assert_eq!(agg.total, 600);
}

#[test]
fn record_repo_dedups_moves_to_front_and_caps_at_twenty() {
    let mut list = TaskList::new();
    for i in 0..25 {
        list.record_repo(&format!("repo-{i}"));
    }
    assert_eq!(list.repo_history().len(), 20, "history is capped at 20");
    assert_eq!(list.repo_history()[0], "repo-24", "most recent is first");
    // Re-recording an existing entry moves it to the front without growing.
    list.record_repo("repo-10");
    assert_eq!(list.repo_history()[0], "repo-10");
    assert_eq!(list.repo_history().len(), 20);
    // Empty paths are ignored.
    list.record_repo("");
    assert_eq!(list.repo_history().len(), 20);
}

#[test]
fn removing_a_non_active_task_keeps_the_active_one() {
    let mut list = TaskList::new();
    let a = list.add_task("A", "work");
    let b = list.add_task("B", "work");
    list.set_active(a, 0);
    let w = WindowId(1);
    list.assign_window(w);
    list.remove_task(b, 10);
    assert_eq!(list.active(), Some(a), "active task is untouched");
    assert_eq!(list.tasks().len(), 1);
    assert_eq!(list.task_of_window(w), Some(a), "A's window survives");
}

#[test]
fn switch_to_desktop0_flushes_time_onto_previous_task() {
    let mut list = TaskList::new();
    list.set_date("2026-03-03");
    let a = list.add_task("A", "work");
    list.set_active(a, 100);
    list.set_scratch_active(400); // 300s on A, then desktop 0
    assert_eq!(list.active(), None);
    let agg = list.time_log().aggregate("2026-03-01", "2026-03-31");
    assert_eq!(agg.total, 300);
    // No time accrues while desktop 0 is active.
    list.flush(1000);
    let agg = list.time_log().aggregate("2026-03-01", "2026-03-31");
    assert_eq!(agg.total, 300);
}

#[test]
fn aggregate_groups_by_category_and_project_sorted_desc() {
    let mut log = TimeLog::default();
    log.record("2026-04-01", TaskId(1), "Alpha", "work", 100);
    log.record("2026-04-01", TaskId(2), "Beta", "work", 300);
    log.record("2026-04-02", TaskId(3), "Gamma", "learning", 200);
    let agg = log.aggregate("2026-04-01", "2026-04-30");
    assert_eq!(agg.total, 600);
    // Categories: work=400, learning=200 (sorted by seconds desc).
    assert_eq!(agg.by_category, vec![("work".into(), 400), ("learning".into(), 200)]);
    // Projects sorted desc: Beta=300, Gamma=200, Alpha=100.
    assert_eq!(
        agg.by_project,
        vec![("Beta".into(), 300), ("Gamma".into(), 200), ("Alpha".into(), 100)]
    );
}

#[test]
fn time_log_keeps_denormalized_project_after_task_rename() {
    let mut list = TaskList::new();
    list.set_date("2026-05-05");
    let a = list.add_task("OldName", "work");
    list.set_active(a, 0);
    list.flush(120);
    // Rename the task; the already-logged interval keeps the old project name.
    list.set_task_props(a, "NewName", "work", "");
    let agg = list.time_log().aggregate("2026-05-01", "2026-05-31");
    assert_eq!(agg.by_project, vec![("OldName".into(), 120)]);
}

#[test]
fn set_task_props_updates_name_category_and_colour() {
    let mut list = TaskList::new();
    let a = list.add_task("A", "work");
    list.set_task_props(a, "Renamed", "personal", "#ff0000");
    let t = list.get(a).unwrap();
    assert_eq!(t.name, "Renamed");
    assert_eq!(t.category, "personal");
    assert_eq!(t.color, "#ff0000");
}

#[test]
fn flushing_twice_at_the_same_time_counts_once() {
    let mut list = TaskList::new();
    list.set_date("2026-06-01");
    let a = list.add_task("A", "work");
    list.set_active(a, 0);
    list.flush(50);
    list.flush(50);
    assert_eq!(list.get(a).unwrap().accumulated_secs, 50);
    assert_eq!(list.time_log().entries().len(), 1);
}

#[test]
fn flushing_in_two_steps_counts_the_same() {
    let mut one = TaskList::new();
    one.set_date("2026-06-01");
    let a = one.add_task("A", "work");
    one.set_active(a, 0);
    one.flush(75);
    let mut two = TaskList::new();
    two.set_date("2026-06-01");
    two.add_task("A", "work");
    two.set_active(a, 0);
    two.flush(30);
    two.flush(75);
    assert_eq!(one.get(a).unwrap(), two.get(a).unwrap());
    assert_eq!(one.time_log().entries()[0].secs, two.time_log().entries()[0].secs);
}

#[test]
fn a_clock_that_goes_back_counts_nothing() {
    let mut list = TaskList::new();
    let a = list.add_task("A", "work");
    list.set_active(a, 100);
    list.flush(40);
    assert_eq!(list.get(a).unwrap().accumulated_secs, 0);
    list.flush(110);
    assert_eq!(list.get(a).unwrap().accumulated_secs, 10);
}

#[test]
fn reordering_back_restores_the_order() {
    let mut list = TaskList::new();
    let a = list.add_task("A", "work");
    let b = list.add_task("B", "work");
    let c = list.add_task("C", "work");
    list.reorder(2, 0);
    let order: Vec<TaskId> = list.tasks().iter().map(|t| t.id).collect();
    assert_eq!(order, vec![c, a, b]);
    list.reorder(0, 2);
    let order: Vec<TaskId> = list.tasks().iter().map(|t| t.id).collect();
    assert_eq!(order, vec![a, b, c]);
    // Positions behind the end are clamped.
    list.reorder(0, 99);
    let order: Vec<TaskId> = list.tasks().iter().map(|t| t.id).collect();
    assert_eq!(order, vec![b, c, a]);
}

#[test]
fn switching_to_an_unknown_task_does_nothing() {
    let mut list = TaskList::new();
    let a = list.add_task("A", "work");
    list.set_active(a, 0);
    list.set_active(TaskId(7), 10);
    assert_eq!(list.active(), Some(a));
    assert_eq!(list.get(a).unwrap().accumulated_secs, 0);
}

#[test]
fn overflowing_totals_are_noticed() {
    let mut list = TaskList::new();
    let a = list.add_task("A", "work");
    list.set_active(a, 0);
    list.get_mut(a).unwrap().accumulated_secs = u64::MAX - 5;
    assert!(list.can_flush(5));
    assert!(!list.can_flush(6));
    let mut log = TimeLog::default();
    log.record("2026-01-01", TaskId(1), "A", "work", u64::MAX - 1);
    assert!(log.can_record("2026-01-01", TaskId(1), 1));
    assert!(!log.can_record("2026-01-01", TaskId(1), 2));
    assert!(log.can_record("2026-01-02", TaskId(1), 2));
}

#[test]
fn restoring_reindexes_and_quiets() {
    let mut list = TaskList::new();
    let a = list.add_task("A", "work");
    let b = list.add_task("B", "work");
    list.notify(b);
    list.set_active(a, 0);
    list.assign_window(WindowId(4));
    let mut saved = list.to_saved();
    saved.next_id = 0;
    let list = saved.restore().unwrap();
    assert_eq!(list.next_task_id(), 2);
    assert_eq!(list.active(), None);
    assert_eq!(list.task_of_window(WindowId(4)), None);
    assert!(!list.get(b).unwrap().has_notification);
    // The largest id leaves no room for another.
    let mut full = TaskList::new();
    full.add_task("A", "work");
    let mut saved = full.to_saved();
    saved.tasks[0].id = TaskId(u64::MAX);
    assert!(saved.restore().is_none());
}

#[test]
fn records_without_time_or_date_are_ignored() {
    let mut log = TimeLog::default();
    log.record("2026-01-01", TaskId(1), "A", "work", 0);
    log.record("", TaskId(1), "A", "work", 9);
    assert!(log.entries().is_empty());
    log.record("2026-01-01", TaskId(1), "A", "work", 4);
    log.record("2026-01-01", TaskId(1), "Renamed", "play", 3);
    assert_eq!(log.entries().len(), 1);
    assert_eq!(log.entries()[0].secs, 7);
}

#[test]
fn ties_are_reported_in_order_of_label() {
    let mut log = TimeLog::default();
    log.record("2026-01-01", TaskId(1), "Beta", "b", 10);
    log.record("2026-01-01", TaskId(2), "Alpha", "a", 10);
    log.record("2026-01-01", TaskId(3), "", "", 10);
    let agg = log.aggregate("2026-01-01", "2026-01-01");
    assert_eq!(agg.total, 30);
    assert_eq!(agg.by_project.len(), 3);
}

#[test]
fn damaged_lists_are_noticed() {
    let mut list = TaskList::new();
    let a = list.add_task("A", "work");
    list.add_task("B", "work");
    list.set_active(a, 0);
    list.assign_window(WindowId(1));
    assert!(list.is_consistent());
    // Two tasks with one id.
    let mut saved = list.to_saved();
    saved.tasks[1].id = a;
    assert!(!saved.into_list().is_consistent());
    // An id that would be handed out again.
    let mut saved = list.to_saved();
    saved.next_id = 1;
    assert!(!saved.into_list().is_consistent());
    // Two rows for one day and task.
    let mut saved = list.to_saved();
    let row = TimeEntry {
        date: "2024-03-01".into(),
        task_id: a,
        project: "A".into(),
        category: "work".into(),
        secs: 1,
    };
    saved.time_entries = vec![row.clone(), row];
    assert!(!saved.into_list().is_consistent());
}

#[test]
fn the_log_holds_what_the_tasks_have_accumulated() {
    let mut list = TaskList::new();
    let a = list.add_task("A", "work");
    let b = list.add_task("B", "work");
    list.set_date("2024-03-01");
    list.set_active(a, 0);
    list.set_active(b, 25);
    list.set_date("2024-03-02");
    list.set_active(a, 40);
    list.flush(41);
    for id in [a, b] {
        let logged: u64 =
            list.time_log().entries().iter().filter(|e| e.task_id == id).map(|e| e.secs).sum();
        assert_eq!(logged, list.get(id).unwrap().accumulated_secs);
    }
    assert_eq!(list.get(a).unwrap().accumulated_secs, 26);
}
