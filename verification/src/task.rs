//! Tasks: the unit of organization.
//!
//! Each task is one virtual desktop. A [`TaskList`] owns the ordered set of
//! tasks, the mapping of client windows to the task they belong to, which task
//! is currently active, and the per-task accumulated focus time.
//!
//! All time bookkeeping is driven by an externally supplied monotonic timestamp
//! (seconds), so the logic is deterministic.

use vstd::prelude::*;

use crate::model::TaskId;
use crate::text;

verus! {

/// A single task: one virtual desktop with its metadata and accumulated time.
#[derive(Debug, PartialEq, Eq)]
pub struct Task {
    pub id: TaskId,
    pub name: String,
    /// Category, used to group time-tracking reports.
    pub category: String,
    /// Accent colour for the sidebar, as a "#rrggbb" hex string. Empty for tasks
    /// persisted before colours existed.
    pub color: String,
    /// Branch name requested in the wizard (drives the git worktree).
    pub branch: Option<String>,
    /// Origin repository url requested in the wizard.
    pub repo: Option<String>,
    /// Path of the git worktree created for the task, once it exists.
    pub worktree_path: Option<String>,
    /// Total focused time, in seconds, persisted across runs.
    pub accumulated_secs: u64,
    /// Whether the task has a pending notification (shown in the sidebar).
    pub has_notification: bool,
    /// A linked GitHub issue or pull request whose activity drives the task's
    /// notification dot.
    pub github: Option<GithubLink>,
}

/// A GitHub issue or pull request linked to a task. New activity on it (a newer
/// `updated_at` than `last_seen`) raises the task's notification dot.
#[derive(Debug, PartialEq, Eq)]
pub struct GithubLink {
    /// `owner/repo`.
    pub slug: String,
    /// Issue or PR number.
    pub number: u64,
    /// Title, for display.
    pub title: String,
    /// Web URL, opened when the user acts on the notification.
    pub url: String,
    /// `updated_at` (epoch seconds) last seen by a poll; `None` until first seen.
    pub last_seen: Option<i64>,
}

/// One running app in the session snapshot: its command line, working
/// directory, and the desktop its window was on (`None` = desktop 0).
#[derive(Debug, PartialEq, Eq)]
pub struct SessionApp {
    pub task: Option<TaskId>,
    /// The client process's argv, read at window creation.
    pub cmd: Vec<String>,
    pub cwd: Option<String>,
}

/// What a [`Task`] holds.
#[verifier::ext_equal]
pub struct TaskView {
    pub id: TaskId,
    pub name: Seq<char>,
    pub category: Seq<char>,
    pub color: Seq<char>,
    pub branch: Option<Seq<char>>,
    pub repo: Option<Seq<char>>,
    pub worktree_path: Option<Seq<char>>,
    pub accumulated_secs: u64,
    pub has_notification: bool,
    pub github: Option<LinkView>,
}

/// What a [`GithubLink`] holds.
#[verifier::ext_equal]
pub struct LinkView {
    pub slug: Seq<char>,
    pub number: u64,
    pub title: Seq<char>,
    pub url: Seq<char>,
    pub last_seen: Option<i64>,
}

/// What a [`SessionApp`] holds.
#[verifier::ext_equal]
pub struct AppView {
    pub task: Option<TaskId>,
    pub cmd: Seq<Seq<char>>,
    pub cwd: Option<Seq<char>>,
}

/// The view of an optional string.
pub open spec fn opt_view(s: Option<String>) -> Option<Seq<char>> {
    match s {
        Some(t) => Some(t@),
        None => None,
    }
}

impl View for GithubLink {
    type V = LinkView;

    open spec fn view(&self) -> LinkView {
        LinkView {
            slug: self.slug@,
            number: self.number,
            title: self.title@,
            url: self.url@,
            last_seen: self.last_seen,
        }
    }
}

impl View for Task {
    type V = TaskView;

    open spec fn view(&self) -> TaskView {
        TaskView {
            id: self.id,
            name: self.name@,
            category: self.category@,
            color: self.color@,
            branch: opt_view(self.branch),
            repo: opt_view(self.repo),
            worktree_path: opt_view(self.worktree_path),
            accumulated_secs: self.accumulated_secs,
            has_notification: self.has_notification,
            github: match self.github {
                Some(l) => Some(l@),
                None => None,
            },
        }
    }
}

impl View for SessionApp {
    type V = AppView;

    open spec fn view(&self) -> AppView {
        AppView { task: self.task, cmd: text::views(self.cmd@), cwd: opt_view(self.cwd) }
    }
}

impl Clone for GithubLink {
    fn clone(&self) -> (r: Self)
        ensures
            r == *self,
    {
        GithubLink {
            slug: self.slug.clone(),
            number: self.number,
            title: self.title.clone(),
            url: self.url.clone(),
            last_seen: self.last_seen,
        }
    }
}

impl Clone for Task {
    fn clone(&self) -> (r: Self)
        ensures
            r == *self,
    {
        Task {
            id: self.id,
            name: self.name.clone(),
            category: self.category.clone(),
            color: self.color.clone(),
            branch: text::copy_opt(&self.branch),
            repo: text::copy_opt(&self.repo),
            worktree_path: text::copy_opt(&self.worktree_path),
            accumulated_secs: self.accumulated_secs,
            has_notification: self.has_notification,
            github: match &self.github {
                Some(l) => Some(l.clone()),
                None => None,
            },
        }
    }
}

impl Clone for SessionApp {
    fn clone(&self) -> (r: Self)
        ensures
            r@ == self@,
    {
        SessionApp {
            task: self.task,
            cmd: text::copy_all(&self.cmd),
            cwd: text::copy_opt(&self.cwd),
        }
    }
}

/// A task as it is created: no colour, no repository, no time.
pub open spec fn fresh_task(id: TaskId, name: Seq<char>, category: Seq<char>) -> TaskView {
    TaskView {
        id,
        name,
        category,
        color: Seq::empty(),
        branch: None,
        repo: None,
        worktree_path: None,
        accumulated_secs: 0,
        has_notification: false,
        github: None,
    }
}

impl Task {
    /// A task with the given name and category and nothing else yet.
    pub fn new(id: TaskId, name: &str, category: &str) -> (r: Self)
        ensures
            r@ == fresh_task(id, name@, category@),
    {
        let r = Task {
            id,
            name: text::copy_text(name),
            category: text::copy_text(category),
            color: String::new(),
            branch: None,
            repo: None,
            worktree_path: None,
            accumulated_secs: 0,
            has_notification: false,
            github: None,
        };
        assert(r@ =~= fresh_task(id, name@, category@));
        r
    }
}

} // verus!
