//! Shared data models describing client windows and desktops.

use vstd::prelude::*;

verus! {

/// Stable identifier for a top-level window, assigned by the compositor.
#[derive(Debug, Clone, Copy, PartialEq, Eq, Hash, PartialOrd, Ord, Structural)]
pub struct WindowId(pub u64);

/// Stable identifier for a task / virtual desktop.
#[derive(Debug, Clone, Copy, PartialEq, Eq, Hash, PartialOrd, Ord, Structural)]
pub struct TaskId(pub u64);

/// Information about a top-level client window, used to drive the desktop view.
#[derive(Debug, PartialEq, Eq)]
pub struct WindowInfo {
    pub id: WindowId,
    pub app_id: String,
    pub title: String,
}

impl Clone for WindowInfo {
    fn clone(&self) -> (r: Self)
        ensures
            r == *self,
    {
        WindowInfo { id: self.id, app_id: self.app_id.clone(), title: self.title.clone() }
    }
}

impl Default for WindowId {
    fn default() -> (r: Self)
        ensures
            r == WindowId(0),
    {
        WindowId(0)
    }
}

impl Default for WindowInfo {
    fn default() -> (r: Self)
        ensures
            r.id == WindowId(0),
            r.app_id@.len() == 0,
            r.title@.len() == 0,
    {
        WindowInfo::new(WindowId(0))
    }
}

/// The label of a window with the given title and app id: the title, falling
/// back to the app id, falling back to a placeholder.
pub open spec fn window_label(title: Seq<char>, app_id: Seq<char>) -> Seq<char> {
    if title.len() > 0 {
        title
    } else if app_id.len() > 0 {
        app_id
    } else {
        "(untitled)"@
    }
}

impl WindowInfo {
    /// A window that has not told its app id or title yet.
    pub fn new(id: WindowId) -> (r: Self)
        ensures
            r.id == id,
            r.app_id@.len() == 0,
            r.title@.len() == 0,
    {
        WindowInfo { id, app_id: String::new(), title: String::new() }
    }

    /// A human-friendly label: the title, falling back to the app id, falling
    /// back to a placeholder.
    pub fn label(&self) -> (r: &str)
        ensures
            r@ == window_label(self.title@, self.app_id@),
    {
        if !is_blank(self.title.as_str()) {
            self.title.as_str()
        } else if !is_blank(self.app_id.as_str()) {
            self.app_id.as_str()
        } else {
            "(untitled)"
        }
    }
}

/// Whether a string holds no character at all.
pub fn is_blank(s: &str) -> (r: bool)
    ensures
        r == (s@.len() == 0),
{
    let n: usize = s.unicode_len();
    n == 0
}

/// A window is labelled by its title, whatever its application is; without one by
/// the application, and it is never without a label.
pub proof fn law_window_label(title: Seq<char>, app_id: Seq<char>, other: Seq<char>)
    ensures
        title.len() > 0 ==> window_label(title, app_id) == title && window_label(title, other)
            == title,
        title.len() == 0 && app_id.len() > 0 ==> window_label(title, app_id) == app_id,
        title.len() == 0 && app_id.len() == 0 ==> window_label(title, app_id) == "(untitled)"@,
        window_label(title, app_id).len() > 0,
{
    reveal_strlit("(untitled)");
}

} // verus!
