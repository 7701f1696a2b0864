use focuswm::desk::{
    active_name, create_task, delete_task, lock, move_task, needs_repaint, reorder_task, snapshot,
    switch_task, switch_to_desktop0, task_at, task_items, tick, unlock, NewTask, OutputSize,
};
use focuswm::event::Command;
use focuswm::focus::{
    cycle_window, dnd_drop, dnd_motion, first_window, focus_window, maximize_request_applies,
    move_to_desktop, pointer_button, pointer_moved, resized_by_hand, snapped, stacking,
    toggle_maximized, toggle_minimized, window_added, window_removed, window_under, Placed,
    Refocus,
};
use focuswm::form::{
    open_settings, open_task_settings, parse_categories, parse_idle, save_settings,
    save_task_settings, SettingsForm,
};
use focuswm::geom::{WinGeom, PX};
use focuswm::github::{
    hit_from_issue, link_issue, poll_requests, record_activity, resolve_token, result_rows,
    search_hits, search_request, Issue, IssueHit, Request,
};
use focuswm::model::{TaskId, WindowId};
use focuswm::task::GithubLink;
use focuswm::tasklist::TaskList;

fn w(id: u64) -> WindowId {
    WindowId(id)
}

#[test]
fn the_focused_window_stacks_on_top() {
    assert_eq!(stacking(vec![w(1), w(2), w(3)], Some(w(1))), vec![w(2), w(3), w(1)]);
    assert_eq!(stacking(vec![w(1), w(2)], Some(w(9))), vec![w(1), w(2)]);
    assert_eq!(stacking(vec![w(1), w(2)], None), vec![w(1), w(2)]);
}

#[test]
fn cycling_goes_round() {
    let wins = vec![w(1), w(2), w(3)];
    assert_eq!(cycle_window(&wins, Some(w(3)), true), Some(w(1)));
    assert_eq!(cycle_window(&wins, Some(w(1)), false), Some(w(3)));
    assert_eq!(cycle_window(&wins, Some(w(2)), true), Some(w(3)));
    assert_eq!(cycle_window(&wins, None, true), Some(w(2)));
    assert_eq!(cycle_window(&vec![], None, true), None);
    for c in [w(1), w(2), w(3)] {
        let next = cycle_window(&wins, Some(c), true);
        assert_eq!(cycle_window(&wins, next, false), Some(c));
    }
}

fn three_windows() -> TaskList {
    let mut list = TaskList::new();
    for i in 1..4 {
        window_added(&mut list, w(i));
    }
    list
}

#[test]
fn minimizing_moves_the_focus() {
    let mut list = three_windows();
    assert_eq!(first_window(&list), Some(w(1)));
    let r = toggle_minimized(&mut list, Some(w(1)), w(1));
    assert_eq!(r, Refocus { focused: Some(w(2)), tell: Some(w(2)) });
    // Minimizing another window leaves the focus alone.
    let r = toggle_minimized(&mut list, r.focused, w(3));
    assert_eq!(r, Refocus { focused: Some(w(2)), tell: None });
    let r = toggle_minimized(&mut list, r.focused, w(2));
    assert_eq!(r, Refocus { focused: None, tell: None });
    // Restoring focuses the window.
    let r = toggle_minimized(&mut list, None, w(3));
    assert_eq!(r, Refocus { focused: Some(w(3)), tell: Some(w(3)) });
    assert!(list.is_minimized(w(1)) && !list.is_minimized(w(3)));
    focus_window(&mut list, w(1));
    assert!(!list.is_minimized(w(1)));
}

#[test]
fn closing_and_moving_windows_passes_the_focus_on() {
    let mut list = three_windows();
    let a = list.add_task("A", "work");
    let r = window_removed(&mut list, Some(w(2)), w(2));
    assert_eq!(r, Refocus { focused: Some(w(3)), tell: Some(w(3)) });
    let r = window_removed(&mut list, Some(w(3)), w(9));
    assert_eq!(r, Refocus { focused: Some(w(3)), tell: None });
    let r = move_to_desktop(&mut list, Some(w(3)), w(3), a.0 as i32);
    assert_eq!(r, Refocus { focused: Some(w(1)), tell: Some(w(1)) });
    assert_eq!(list.task_of_window(w(3)), Some(a));
    let r = move_to_desktop(&mut list, Some(w(1)), w(3), -1);
    assert_eq!(r, Refocus { focused: Some(w(1)), tell: None });
    assert_eq!(list.task_of_window(w(3)), None);
}

#[test]
fn maximizing_is_tracked() {
    let mut list = three_windows();
    assert!(maximize_request_applies(&list, w(1), true));
    assert!(toggle_maximized(&mut list, w(1)));
    assert!(!maximize_request_applies(&list, w(1), true));
    assert!(resized_by_hand(&mut list, w(1)));
    assert!(!resized_by_hand(&mut list, w(1)));
    assert!(snapped(&mut list, w(1), 3));
    assert!(list.is_maximized(w(1)));
    assert!(!snapped(&mut list, w(1), 1));
    assert!(!list.is_maximized(w(1)));
}

#[test]
fn the_pointer_finds_the_topmost_window() {
    let g = |x: i64, y: i64| WinGeom { x: x * PX, y: y * PX, w: 100 * PX, h: 100 * PX };
    let stack = vec![
        Placed { id: w(1), minimized: false, frame: Some((g(0, 0), false)) },
        Placed { id: w(2), minimized: false, frame: Some((g(50, 0), true)) },
        Placed { id: w(3), minimized: true, frame: Some((g(0, 0), false)) },
        Placed { id: w(4), minimized: false, frame: None },
    ];
    assert_eq!(window_under(&stack, 60 * PX, 40 * PX), Some((w(2), 10 * PX, 10 * PX)));
    // The title bar of the upper one lets the lower one through.
    assert_eq!(window_under(&stack, 60 * PX, 10 * PX), Some((w(1), 60 * PX, 10 * PX)));
    assert_eq!(window_under(&stack, 500 * PX, 10 * PX), None);
}

#[test]
fn pointer_input_is_routed() {
    let list = TaskList::new();
    let motion = Command::PointerMotion { id: w(2), x: 5, y: 6 };
    let (f, c) = pointer_moved(&list, Some(w(1)), w(2), true, 5, 6);
    assert_eq!((f, c), (Some(w(2)), vec![Command::FocusWindow(w(2)), motion]));
    let (f, c) = pointer_moved(&list, Some(w(1)), w(2), false, 5, 6);
    assert_eq!(f, Some(w(1)));
    assert_eq!(c.len(), 1);
    let (f, c) = pointer_button(Some(w(1)), w(2), 5, 6, 2, true);
    assert_eq!(f, Some(w(2)));
    assert_eq!(c[1], Command::PointerButton { id: w(2), button: 0x111, pressed: true });
    let (f, _) = pointer_button(Some(w(1)), w(2), 5, 6, 1, false);
    assert_eq!(f, Some(w(1)));
    assert_eq!(dnd_motion(None), None);
    assert_eq!(
        dnd_motion(Some((w(2), 5, 6))),
        Some(Command::PointerMotion { id: w(2), x: 5, y: 6 })
    );
    assert_eq!(dnd_drop(Some((w(2), 5, 6)), w(1), 1).len(), 2);
    assert_eq!(
        dnd_drop(None, w(1), 3),
        vec![Command::PointerButton { id: w(1), button: 0x112, pressed: false }]
    );
}

fn new_task(name: &str, repo: &str) -> NewTask {
    NewTask {
        name: name.into(),
        category: "work".into(),
        branch: "".into(),
        repo: repo.into(),
        link: None,
    }
}

#[test]
fn creating_and_deleting_tasks() {
    let mut list = TaskList::new();
    let a = create_task(&mut list, new_task("A", "/r"), "2026-01-01", 0);
    assert_eq!(list.active(), Some(a));
    assert_eq!(list.get(a).unwrap().repo.as_deref(), Some("/r"));
    assert_eq!(list.get(a).unwrap().branch, None);
    assert_eq!(list.repo_history(), &["/r".to_string()]);
    window_added(&mut list, w(5));
    let b = create_task(&mut list, new_task("B", ""), "2026-01-01", 60);
    assert_eq!(list.get(a).unwrap().accumulated_secs, 60);
    assert_eq!(list.get(b).unwrap().repo, None);
    let closed = delete_task(&mut list, a, "2026-01-01", 90);
    assert_eq!(closed, vec![Command::CloseWindow(w(5))]);
    assert_eq!(list.get(a), None);
    assert_eq!(list.active(), Some(b));
    assert!(delete_task(&mut list, b, "2026-01-01", 90).is_empty());
    assert_eq!(list.active(), None);
}

#[test]
fn moving_tasks_in_the_sidebar() {
    let mut list = TaskList::new();
    let a = list.add_task("A", "work");
    let b = list.add_task("B", "work");
    let c = list.add_task("C", "work");
    let order = |l: &TaskList| l.tasks().iter().map(|t| t.id).collect::<Vec<TaskId>>();
    move_task(&mut list, c, -1);
    assert_eq!(order(&list), vec![a, c, b]);
    // Above the top is ignored; behind the end is clamped.
    move_task(&mut list, a, -1);
    assert_eq!(order(&list), vec![a, c, b]);
    move_task(&mut list, a, 9);
    assert_eq!(order(&list), vec![c, b, a]);
    // A drag ends at the top.
    reorder_task(&mut list, a, -1000 * PX);
    assert_eq!(order(&list), vec![a, c, b]);
    reorder_task(&mut list, a, 10 * PX);
    assert_eq!(order(&list), vec![a, c, b]);
    reorder_task(&mut list, a, 64 * PX);
    assert_eq!(order(&list), vec![c, a, b]);
    assert_eq!(task_at(&list, 1), Some(a));
    assert_eq!(task_at(&list, 3), None);
    assert_eq!(task_at(&list, -1), None);
}

#[test]
fn the_sidebar_shows_the_tasks() {
    let mut list = TaskList::new();
    assert_eq!(active_name(&list), "Desktop 0");
    let a = list.add_task("A", "work");
    list.get_mut(a).unwrap().accumulated_secs = 150;
    list.set_active(a, 0);
    let items = task_items(&list);
    assert_eq!(items.len(), 1);
    assert_eq!((items[0].id, items[0].minutes), (0, 2));
    assert_eq!((items[0].name.as_str(), items[0].category.as_str()), ("A", "work"));
    assert_eq!(items[0].tint.r, 0x89);
    assert_eq!(active_name(&list), "A");
}

#[test]
fn idle_time_is_not_counted() {
    let mut list = TaskList::new();
    let a = list.add_task("A", "work");
    list.set_active(a, 0);
    // Active: counted up to now.
    assert!(!tick(&mut list, "2026-01-01", 100, 10, false));
    assert_eq!(list.get(a).unwrap().accumulated_secs, 100);
    // Idle for the default five minutes: counted up to the last input.
    assert!(tick(&mut list, "2026-01-01", 450, 300, false));
    assert_eq!(list.get(a).unwrap().accumulated_secs, 150);
    assert!(list.is_paused());
    // Still idle: nothing more, and no second lock.
    assert!(!tick(&mut list, "2026-01-01", 600, 450, false));
    assert_eq!(list.get(a).unwrap().accumulated_secs, 150);
    // A client keeps the desktop awake.
    assert!(!tick(&mut list, "2026-01-01", 700, 550, true));
    assert!(!list.is_paused());
    lock(&mut list, "2026-01-01", 720);
    assert_eq!(list.get(a).unwrap().accumulated_secs, 170);
    assert!(list.is_paused());
    unlock(&mut list, 800);
    snapshot(&mut list, "2026-01-02", 830);
    assert_eq!(list.get(a).unwrap().accumulated_secs, 200);
    assert_eq!(list.time_log().aggregate("2026-01-02", "2026-01-02").total, 30);
}

#[test]
fn a_static_desktop_idles() {
    assert!(needs_repaint(true, 1000, false));
    assert!(needs_repaint(false, 149, false));
    assert!(!needs_repaint(false, 150, false));
    assert!(needs_repaint(false, 150, true));
    let mut size = OutputSize { width: 0, height: 0 };
    assert_eq!(
        size.sync(1252, 700),
        Some(Command::ResizeOutput { width: 1000, height: 700 })
    );
    assert_eq!(size.sync(1252, 700), None);
}

#[test]
fn settings_are_read_from_their_form() {
    assert_eq!(parse_categories(" a, ,b c ,"), vec!["a".to_string(), "b c".to_string()]);
    assert_eq!(parse_categories(" , "), focuswm::settings::default_categories());
    assert_eq!(parse_idle(" 12 "), 12);
    assert_eq!(parse_idle("+7"), 7);
    assert_eq!(parse_idle("18446744073709551615"), u64::MAX);
    for bad in ["", "+", "-1", "1.5", "18446744073709551616", "x"] {
        assert_eq!(parse_idle(bad), 5);
    }
    let mut list = TaskList::new();
    let form = SettingsForm {
        terminal: "foot".into(),
        browser: "".into(),
        categories_csv: "x,y".into(),
        idle_minutes: "0".into(),
        focus_follows_mouse: false,
    };
    save_settings(&mut list, form);
    assert_eq!(list.settings().idle_minutes, 0);
    // Saving what the dialog shows changes nothing.
    let before = list.settings().clone();
    let form = open_settings(list.settings());
    assert_eq!(form.categories_csv, "x, y");
    save_settings(&mut list, form);
    assert_eq!(*list.settings(), before);
}

#[test]
fn task_settings_are_read_from_their_form() {
    let mut list = TaskList::new();
    let a = list.add_task("A", "meeting");
    let b = list.add_task("B", "elsewhere");
    let f = open_task_settings(&list, a).unwrap();
    assert_eq!((f.name.as_str(), f.category_index, f.color_index), ("A", 2, 0));
    list.get_mut(b).unwrap().color = "#F38BA8".into();
    let f = open_task_settings(&list, b).unwrap();
    assert_eq!((f.category_index, f.color_index), (0, 3));
    list.get_mut(b).unwrap().color = "#000000".into();
    assert_eq!(open_task_settings(&list, b).unwrap().color_index, 1);
    assert_eq!(open_task_settings(&list, TaskId(9)), None);
    save_task_settings(&mut list, b, "C", "work", 4);
    assert_eq!(list.get(b).unwrap().color, "#cba6f7");
    save_task_settings(&mut list, b, "C", "work", 99);
    assert_eq!(list.get(b).unwrap().color, "#89b4fa");
}

fn issue(url: &str, number: u64) -> Issue {
    Issue { html_url: url.into(), number, title: "T".into(), updated_at: 5 }
}

#[test]
fn search_results_are_hits_on_github() {
    let hit = hit_from_issue(issue("https://github.com/o/r/issues/3", 3)).unwrap();
    assert_eq!((hit.slug.as_str(), hit.number, hit.updated_at), ("o/r", 3, 5));
    assert_eq!(hit_from_issue(issue("https://example.org/o/r", 3)), None);
    let mut issues = vec![issue("https://example.org/o/r", 0)];
    for n in 1..14 {
        issues.push(issue("https://github.com/o/r", n));
    }
    let hits = search_hits(issues);
    assert_eq!(hits.len(), 10);
    assert_eq!((hits[0].number, hits[9].number), (1, 10));
    // A hit's slug names the same repository again.
    assert_eq!(
        focuswm::github::parse_slug(&hits[0].slug),
        Some(("o".to_string(), "r".to_string()))
    );
}

#[test]
fn requests_and_tokens() {
    assert_eq!(search_request("  "), None);
    assert_eq!(search_request(" bug "), Some(Request::Search { query: "bug".into() }));
    assert_eq!(resolve_token(" tok ", Some("env".into())), Some("tok".to_string()));
    assert_eq!(resolve_token(" ", Some(" env ".into())), Some(" env ".to_string()));
    assert_eq!(resolve_token("", Some("  ".into())), None);
    assert_eq!(resolve_token("", None), None);
}

#[test]
fn activity_raises_the_dot_once() {
    let mut list = TaskList::new();
    let a = list.add_task("A", "work");
    let b = list.add_task("B", "work");
    list.get_mut(b).unwrap().github = Some(GithubLink {
        slug: "o/r".into(),
        number: 42,
        title: "old".into(),
        url: "u".into(),
        last_seen: None,
    });
    list.set_active(a, 0);
    assert_eq!(
        poll_requests(&list),
        vec![Request::Poll { task_id: b.0, slug: "o/r".into(), number: 42 }]
    );
    // The first look is the baseline.
    assert_eq!(record_activity(&mut list, b, 100, "v", "new"), None);
    assert_eq!(list.get(b).unwrap().github.as_ref().unwrap().title, "new");
    assert!(!list.get(b).unwrap().has_notification);
    assert_eq!(record_activity(&mut list, b, 100, "v", "new"), None);
    assert_eq!(
        record_activity(&mut list, b, 101, "v", "new"),
        Some("New activity on o/r#42".to_string())
    );
    assert!(list.get(b).unwrap().has_notification);
    assert_eq!(record_activity(&mut list, b, 50, "v", "new"), None);
    assert_eq!(list.get(b).unwrap().github.as_ref().unwrap().last_seen, Some(101));
    // Unlinked and unknown tasks are left alone.
    assert_eq!(record_activity(&mut list, a, 50, "v", "new"), None);
    assert_eq!(record_activity(&mut list, TaskId(9), 50, "v", "new"), None);
}

#[test]
fn picking_an_issue_marks_its_row() {
    let hit = |n| IssueHit {
        slug: "o/r".into(),
        number: n,
        title: "T".into(),
        url: "u".into(),
        updated_at: 0,
    };
    let mut rows = result_rows(&vec![hit(1), hit(2)], &None);
    assert!(!rows[0].selected && !rows[1].selected);
    let link = link_issue(&mut rows, "o/r", 2, "T", "u");
    assert_eq!(link.as_ref().unwrap().number, 2);
    assert_eq!(link.as_ref().unwrap().last_seen, None);
    assert!(!rows[0].selected && rows[1].selected);
    let again = result_rows(&vec![hit(2)], &link);
    assert!(again[0].selected);
    assert_eq!(link_issue(&mut rows, "", 0, "", ""), None);
    assert!(rows.is_empty());
}

#[test]
fn switching_counts_time_and_finds_the_first_window() {
    let mut list = TaskList::new();
    let a = list.add_task("A", "work");
    let b = list.add_task("B", "work");
    list.assign_window(w(9));
    assert_eq!(switch_task(&mut list, a, "2024-03-01", 10), None);
    list.assign_window(w(5));
    list.assign_window(w(3));
    assert_eq!(switch_task(&mut list, b, "2024-03-01", 70), None);
    assert_eq!(list.get(a).unwrap().accumulated_secs, 60);
    assert_eq!(list.time_log().entries()[0].secs, 60);
    assert_eq!(switch_task(&mut list, a, "2024-03-01", 75), Some(w(3)));
    // An unknown task changes nothing.
    assert_eq!(switch_task(&mut list, TaskId(99), "2024-03-01", 80), Some(w(3)));
    assert_eq!(list.active(), Some(a));
    assert_eq!(switch_to_desktop0(&mut list, "2024-03-01", 85), Some(w(9)));
    assert_eq!(list.active(), None);
    assert_eq!(list.get(a).unwrap().accumulated_secs, 70);
}
