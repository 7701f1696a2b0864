use focuswm::event::Command;
use focuswm::model::{TaskId, WindowId};
use focuswm::pinned::TaskList;
use focuswm::task::Task;


#[test]
fn task_add_assigns_increasing_ids() {
    let mut list = TaskList::new();
    let a = list.add_task("Fix bug", "work");
    let b = list.add_task("Write docs", "work");
    assert_eq!(a, TaskId(0));
    assert_eq!(b, TaskId(1));
    assert_eq!(list.tasks().len(), 2);
}

#[test]
fn task_switching_accumulates_time_on_previous_task() {
    let mut list = TaskList::new();
    let a = list.add_task("A", "work");
    let b = list.add_task("B", "work");
    list.set_active(a, 0);
    // 100s on A, then switch to B.
    list.set_active(b, 100);
    assert_eq!(list.get(a).unwrap().accumulated_secs, 100);
    assert_eq!(list.get(b).unwrap().accumulated_secs, 0);
    // 30s on B, then back to A.
    list.set_active(a, 130);
    assert_eq!(list.get(b).unwrap().accumulated_secs, 30);
    assert_eq!(list.active(), Some(a));
}

#[test]
fn task_flush_accumulates_without_switching() {
    let mut list = TaskList::new();
    let a = list.add_task("A", "work");
    list.set_active(a, 10);
    list.flush(40);
    assert_eq!(list.get(a).unwrap().accumulated_secs, 30);
    // A subsequent flush only counts time since the last flush.
    list.flush(50);
    assert_eq!(list.get(a).unwrap().accumulated_secs, 40);
}

#[test]
fn task_windows_follow_active_task() {
    let mut list = TaskList::new();
    let a = list.add_task("A", "work");
    let b = list.add_task("B", "work");
    list.set_active(a, 0);
    list.assign_window(WindowId(1));
    list.assign_window(WindowId(2));
    list.set_active(b, 5);
    list.assign_window(WindowId(3));

    assert_eq!(list.windows_for(a), vec![WindowId(1), WindowId(2)]);
    assert_eq!(list.windows_for(b), vec![WindowId(3)]);
    assert_eq!(list.active_windows(), vec![WindowId(3)]);
    assert!(list.is_visible(WindowId(3)));
    assert!(!list.is_visible(WindowId(1)));
}

#[test]
fn task_reorder_moves_tasks() {
    let mut list = TaskList::new();
    let a = list.add_task("A", "work");
    let b = list.add_task("B", "work");
    let c = list.add_task("C", "work");
    list.reorder(0, 2); // move A to the end
    let order: Vec<TaskId> = list.tasks().iter().map(|t| t.id).collect();
    assert_eq!(order, vec![b, c, a]);
    list.reorder(99, 0); // out of range -> no-op
    let order2: Vec<TaskId> = list.tasks().iter().map(|t| t.id).collect();
    assert_eq!(order2, vec![b, c, a]);
}

#[test]
fn removing_active_task_picks_a_new_active_and_drops_windows() {
    let mut list = TaskList::new();
    let a = list.add_task("A", "work");
    let b = list.add_task("B", "work");
    list.set_active(a, 0);
    list.assign_window(WindowId(1));
    list.remove_task(a, 50);
    assert_eq!(list.get(a), None);
    assert_eq!(list.task_of_window(WindowId(1)), None);
    assert_eq!(list.active(), Some(b));
}

#[test]
fn task_notify_skips_active_task_and_clears_on_switch() {
    let mut list = TaskList::new();
    let a = list.add_task("A", "work");
    let b = list.add_task("B", "work");
    list.set_active(a, 0);
    list.notify(a); // active -> ignored
    assert!(!list.get(a).unwrap().has_notification);
    list.notify(b);
    assert!(list.get(b).unwrap().has_notification);
    list.set_active(b, 10); // looking at B clears it
    assert!(!list.get(b).unwrap().has_notification);
}

#[test]
fn task_reindex_after_load_avoids_id_collisions() {
    let mut list = TaskList::new();
    list.add_task("A", "work");
    list.add_task("B", "work");
    // Simulate a load that reset next_id but kept tasks.
    let tasks: Vec<Task> = list.tasks().to_vec();
    let mut list = TaskList::from_tasks(tasks);
    list.reindex_after_load();
    let c = list.add_task("C", "work");
    assert_eq!(c, TaskId(2));
}

#[test]
fn windows_without_a_task_belong_nowhere() {
    let mut list = TaskList::new();
    assert_eq!(list.assign_window(WindowId(1)), None);
    assert_eq!(list.task_of_window(WindowId(1)), None);
    assert!(list.active_windows().is_empty());
    assert!(!list.is_visible(WindowId(1)));
}

#[test]
fn the_first_task_starts() {
    let mut list = TaskList::new();
    list.start(0);
    assert_eq!(list.active(), None);
    let a = list.add_task("A", "work");
    list.add_task("B", "work");
    list.start(5);
    assert_eq!(list.active(), Some(a));
    list.flush(15);
    assert_eq!(list.get(a).unwrap().accumulated_secs, 10);
    // Removing an inactive task changes nothing else.
    list.remove_task(TaskId(1), 20);
    assert_eq!(list.active(), Some(a));
    list.remove_task(a, 20);
    assert!(list.is_empty());
    assert_eq!(list.active(), None);
}

#[test]
fn a_new_size_fills_every_visible_window() {
    let mut list = TaskList::new();
    let a = list.add_task("A", "work");
    list.set_active(a, 0);
    list.assign_window(WindowId(3));
    assert_eq!(
        list.fill(800, 600),
        vec![
            Command::ResizeOutput { width: 800, height: 600 },
            Command::ResizeWindow { id: WindowId(3), width: 800, height: 600 },
        ]
    );
    list.remove_window(WindowId(3));
    assert_eq!(list.fill(1, 1), vec![Command::ResizeOutput { width: 1, height: 1 }]);
    list.get_mut(a).unwrap().branch = Some("b".into());
    assert_eq!(list.get(a).unwrap().branch.as_deref(), Some("b"));
}
