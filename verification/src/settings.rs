//! User settings and the built-in choices they start from.

use vstd::prelude::*;

use crate::text;

verus! {

/// User settings, persisted with the task list.
#[derive(Debug, PartialEq, Eq)]
pub struct Settings {
    /// Terminal command (empty = auto-detect).
    pub terminal: String,
    /// Browser command (empty = auto-detect).
    pub browser: String,
    /// Categories offered in the wizard.
    pub categories: Vec<String>,
    /// Minutes of no input after which time tracking pauses (0 = never).
    pub idle_minutes: u64,
    /// Whether hovering a window gives it keyboard focus (focus-follows-mouse).
    pub focus_follows_mouse: bool,
    /// GitHub personal-access token for the issue/PR integration (empty = fall
    /// back to the `GITHUB_TOKEN` environment variable).
    pub github_token: String,
}

/// What [`Settings`] hold.
#[verifier::ext_equal]
pub struct SettingsView {
    pub terminal: Seq<char>,
    pub browser: Seq<char>,
    pub categories: Seq<Seq<char>>,
    pub idle_minutes: u64,
    pub focus_follows_mouse: bool,
    pub github_token: Seq<char>,
}

impl View for Settings {
    type V = SettingsView;

    open spec fn view(&self) -> SettingsView {
        SettingsView {
            terminal: self.terminal@,
            browser: self.browser@,
            categories: text::views(self.categories@),
            idle_minutes: self.idle_minutes,
            focus_follows_mouse: self.focus_follows_mouse,
            github_token: self.github_token@,
        }
    }
}

/// The settings of a fresh installation.
pub open spec fn default_settings() -> SettingsView {
    SettingsView {
        terminal: Seq::empty(),
        browser: Seq::empty(),
        categories: category_names(),
        idle_minutes: 5,
        focus_follows_mouse: true,
        github_token: Seq::empty(),
    }
}

/// The built-in categories.
pub open spec fn category_names() -> Seq<Seq<char>> {
    seq!["work"@, "personal"@, "meeting"@, "learning"@, "other"@]
}

/// The accent colours offered for tasks.
pub open spec fn palette() -> Seq<Seq<char>> {
    seq![
        "#89b4fa"@,
        "#a6e3a1"@,
        "#f9e2af"@,
        "#f38ba8"@,
        "#cba6f7"@,
        "#fab387"@,
        "#94e2d5"@,
        "#f5c2e7"@,
    ]
}

impl Clone for Settings {
    fn clone(&self) -> (r: Settings)
        ensures
            r@ == self@,
    {
        Settings {
            terminal: self.terminal.clone(),
            browser: self.browser.clone(),
            categories: text::copy_all(&self.categories),
            idle_minutes: self.idle_minutes,
            focus_follows_mouse: self.focus_follows_mouse,
            github_token: self.github_token.clone(),
        }
    }
}

impl Default for Settings {
    fn default() -> (r: Settings)
        ensures
            r@ == default_settings(),
    {
        let r = Settings {
            terminal: String::new(),
            browser: String::new(),
            categories: default_categories(),
            idle_minutes: default_idle_minutes(),
            focus_follows_mouse: default_focus_follows_mouse(),
            github_token: String::new(),
        };
        assert(r@ =~= default_settings());
        r
    }
}

/// Default for focus-follows-mouse: on.
pub fn default_focus_follows_mouse() -> (r: bool)
    ensures
        r,
{
    true
}

/// Default idle timeout, in minutes.
pub fn default_idle_minutes() -> (r: u64)
    ensures
        r == 5,
{
    5
}

/// The palette of accent colours offered for tasks (Catppuccin Mocha hues,
/// matching the dark theme). New tasks are assigned one round-robin by id, and
/// the task-settings dialog offers these as swatches.
pub fn task_palette() -> (r: Vec<String>)
    ensures
        text::views(r@) == palette(),
{
    let mut out: Vec<String> = Vec::new();
    out.push(text::copy_text("#89b4fa"));
    out.push(text::copy_text("#a6e3a1"));
    out.push(text::copy_text("#f9e2af"));
    out.push(text::copy_text("#f38ba8"));
    out.push(text::copy_text("#cba6f7"));
    out.push(text::copy_text("#fab387"));
    out.push(text::copy_text("#94e2d5"));
    out.push(text::copy_text("#f5c2e7"));
    assert(text::views(out@) =~= palette());
    out
}

/// The built-in default category list.
pub fn default_categories() -> (r: Vec<String>)
    ensures
        text::views(r@) == category_names(),
{
    let mut out: Vec<String> = Vec::new();
    out.push(text::copy_text("work"));
    out.push(text::copy_text("personal"));
    out.push(text::copy_text("meeting"));
    out.push(text::copy_text("learning"));
    out.push(text::copy_text("other"));
    assert(text::views(out@) =~= category_names());
    out
}

/// By default nothing is configured, the user is idle after five minutes and the
/// focus follows the pointer; there are five categories.
pub proof fn law_default_settings()
    ensures
        ({
            let s = default_settings();
            &&& s.terminal.len() == 0 && s.browser.len() == 0 && s.github_token.len() == 0
            &&& s.idle_minutes == 5
            &&& s.focus_follows_mouse
            &&& s.categories == seq![
                "work"@,
                "personal"@,
                "meeting"@,
                "learning"@,
                "other"@,
            ]
        }),
{
}

} // verus!
