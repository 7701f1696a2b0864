//! The settings dialogs: what they show, and what saving them means.

use vstd::prelude::*;

use crate::model::TaskId;
use crate::scan;
use crate::settings;
use crate::settings::{Settings, SettingsView};
use crate::tasklist;
use crate::tasklist::{ListView, TaskList};
use crate::text;

verus! {

// ---------------------------------------------------------------------------
// Settings
// ---------------------------------------------------------------------------

/// The fields of the settings dialog.
#[derive(Debug, PartialEq, Eq)]
pub struct SettingsForm {
    pub terminal: String,
    pub browser: String,
    /// The categories, separated by commas.
    pub categories_csv: String,
    pub idle_minutes: String,
    pub focus_follows_mouse: bool,
}

/// What a [`SettingsForm`] holds.
#[verifier::ext_equal]
pub struct FormView {
    pub terminal: Seq<char>,
    pub browser: Seq<char>,
    pub categories_csv: Seq<char>,
    pub idle_minutes: Seq<char>,
    pub focus_follows_mouse: bool,
}

impl View for SettingsForm {
    type V = FormView;

    open spec fn view(&self) -> FormView {
        FormView {
            terminal: self.terminal@,
            browser: self.browser@,
            categories_csv: self.categories_csv@,
            idle_minutes: self.idle_minutes@,
            focus_follows_mouse: self.focus_follows_mouse,
        }
    }
}

/// The form for given settings.
pub open spec fn form_of(s: SettingsView) -> FormView {
    FormView {
        terminal: s.terminal,
        browser: s.browser,
        categories_csv: text::joined(s.categories, ", "@),
        idle_minutes: scan::decimal(s.idle_minutes as nat),
        focus_follows_mouse: s.focus_follows_mouse,
    }
}

/// The pieces that are not blank, trimmed.
pub open spec fn kept(parts: Seq<Seq<char>>) -> Seq<Seq<char>>
    decreases parts.len(),
{
    if parts.len() == 0 {
        Seq::empty()
    } else {
        let before = kept(parts.drop_last());
        let t = text::trimmed(parts.last());
        if t.len() > 0 {
            before.push(t)
        } else {
            before
        }
    }
}

/// The categories that a comma-separated text names; the built-in ones where it
/// names none.
pub open spec fn categories_of(csv: Seq<char>) -> Seq<Seq<char>> {
    let c = kept(scan::pieces(csv, ','));
    if c.len() == 0 {
        settings::category_names()
    } else {
        c
    }
}

/// The digits behind an optional plus sign.
pub open spec fn unsigned(s: Seq<char>) -> Seq<char> {
    if s.len() > 1 && s[0] == '+' {
        s.drop_first()
    } else {
        s
    }
}

/// The idle timeout that a text names; the default where it is not a number.
pub open spec fn idle_of(s: Seq<char>) -> u64 {
    match scan::parsed(unsigned(text::trimmed(s)), u64::MAX as int) {
        Some(n) => n as u64,
        None => 5,
    }
}

/// The settings that a form stands for. The token is not part of the form and is
/// kept.
pub open spec fn settings_of(f: FormView, token: Seq<char>) -> SettingsView {
    SettingsView {
        terminal: f.terminal,
        browser: f.browser,
        categories: categories_of(f.categories_csv),
        idle_minutes: idle_of(f.idle_minutes),
        focus_follows_mouse: f.focus_follows_mouse,
        github_token: token,
    }
}

/// The dialog's fields for the current settings.
pub fn open_settings(s: &Settings) -> (r: SettingsForm)
    ensures
        r@ == form_of(s@),
{
    let digits = scan::decimal_chars(s.idle_minutes);
    SettingsForm {
        terminal: s.terminal.clone(),
        browser: s.browser.clone(),
        categories_csv: text::join(&s.categories, ", "),
        idle_minutes: text::text_of(&digits),
        focus_follows_mouse: s.focus_follows_mouse,
    }
}

/// The categories that a comma-separated text names.
pub fn parse_categories(csv: &str) -> (r: Vec<String>)
    ensures
        text::views(r@) == categories_of(csv@),
{
    let v = text::chars_of(csv);
    let parts = scan::split_at_char(&v, ',');
    let ghost all = scan::rows(parts@);
    let mut out: Vec<String> = Vec::new();
    let mut i: usize = 0;
    assert(text::views(out@) =~= kept(all.take(0)));
    while i < parts.len()
        invariant
            i <= parts@.len(),
            all == scan::rows(parts@),
            text::views(out@) == kept(all.take(i as int)),
        decreases parts@.len() - i,
    {
        assert(all.take(i as int + 1).drop_last() =~= all.take(i as int));
        assert(all.take(i as int + 1).last() == parts@[i as int]@);
        let t = text::trim_chars(&parts[i]);
        if t.len() > 0 {
            let ghost before = out@;
            let name = text::text_of(&t);
            out.push(name);
            assert(text::views(out@) =~= text::views(before).push(name@));
        }
        i += 1;
    }
    assert(all.take(i as int) =~= all);
    assert(text::views(out@).len() == out@.len());
    if out.len() == 0 {
        settings::default_categories()
    } else {
        out
    }
}

/// The idle timeout that a text names, in minutes.
pub fn parse_idle(s: &str) -> (r: u64)
    ensures
        r == idle_of(s@),
{
    let v = text::chars_of(s);
    let t = text::trim_chars(&v);
    let parsed = if t.len() > 1 && t[0] == '+' {
        let digits = text::slice_copy(&t, 1, t.len());
        assert(digits@ =~= t@.drop_first());
        scan::parse_digits(&digits, u64::MAX)
    } else {
        scan::parse_digits(&t, u64::MAX)
    };
    match parsed {
        Some(n) => n,
        None => settings::default_idle_minutes(),
    }
}

/// Saves the settings dialog.
pub fn save_settings(list: &mut TaskList, form: SettingsForm)
    ensures
        final(list)@ == (ListView {
            settings: settings_of(form@, old(list)@.settings.github_token),
            ..old(list)@
        }),
        old(list)@.wf() ==> final(list)@.wf(),
{
    let token = list.settings().github_token.clone();
    let s = Settings {
        terminal: form.terminal,
        browser: form.browser,
        categories: parse_categories(&form.categories_csv),
        idle_minutes: parse_idle(&form.idle_minutes),
        focus_follows_mouse: form.focus_follows_mouse,
        github_token: token,
    };
    list.set_settings(s);
}

// ---------------------------------------------------------------------------
// Task settings
// ---------------------------------------------------------------------------

/// The fields of a task's settings dialog.
#[derive(Debug, PartialEq, Eq)]
pub struct TaskForm {
    pub name: String,
    /// Position of the task's category among the configured ones.
    pub category_index: usize,
    /// Position of the task's colour in the palette.
    pub color_index: usize,
}

/// An ASCII letter in lower case; any other character as it is.
pub open spec fn lower(c: char) -> char {
    if 0x41 <= c as int <= 0x5a {
        (c as int + 32) as char
    } else {
        c
    }
}

/// Whether two texts are equal up to the case of ASCII letters.
pub open spec fn same_ignoring_case(a: Seq<char>, b: Seq<char>) -> bool {
    a.len() == b.len() && forall|i: int| 0 <= i < a.len() ==> lower(#[trigger] a[i]) == lower(b[i])
}

/// The position of the first text equal to `s`, or the number of texts.
pub open spec fn index_of(v: Seq<Seq<char>>, s: Seq<char>) -> int
    decreases v.len(),
{
    if v.len() == 0 || v[0] == s {
        0
    } else {
        1 + index_of(v.drop_first(), s)
    }
}

/// The position of the first text equal to `s` up to case, or the number of
/// texts.
pub open spec fn index_ignoring_case(v: Seq<Seq<char>>, s: Seq<char>) -> int
    decreases v.len(),
{
    if v.len() == 0 || same_ignoring_case(v[0], s) {
        0
    } else {
        1 + index_ignoring_case(v.drop_first(), s)
    }
}

/// The category shown for a task: its own, or the first.
pub open spec fn shown_category(categories: Seq<Seq<char>>, category: Seq<char>) -> int {
    let k = index_of(categories, category);
    if k < categories.len() {
        k
    } else {
        0
    }
}

/// The swatch shown for a task: that of its colour, or the one for its position.
pub open spec fn shown_swatch(color: Seq<char>, position: int) -> int {
    let k = index_ignoring_case(settings::palette(), color);
    if k < settings::palette().len() {
        k
    } else {
        position % 8
    }
}

/// The code point of an ASCII letter in lower case.
fn lower_code(c: char) -> (r: u32)
    ensures
        r == lower(c) as int,
{
    let v: u32 = text::code_point(c);
    if 0x41 <= v && v <= 0x5a {
        v + 32
    } else {
        v
    }
}

/// Executable form of [`same_ignoring_case`].
fn equal_ignoring_case(a: &str, b: &str) -> (r: bool)
    ensures
        r == same_ignoring_case(a@, b@),
{
    let x = text::chars_of(a);
    let y = text::chars_of(b);
    if x.len() != y.len() {
        return false;
    }
    let mut i: usize = 0;
    while i < x.len()
        invariant
            i <= x@.len(),
            x@.len() == y@.len(),
            x@ == a@,
            y@ == b@,
            forall|j: int| 0 <= j < i ==> lower(#[trigger] x@[j]) == lower(y@[j]),
        decreases x@.len() - i,
    {
        if lower_code(x[i]) != lower_code(y[i]) {
            assert(lower(x@[i as int]) != lower(y@[i as int]));
            return false;
        }
        i += 1;
    }
    true
}

/// Executable form of [`index_of`].
fn position(v: &Vec<String>, s: &str) -> (r: usize)
    ensures
        r == index_of(text::views(v@), s@),
        r <= v@.len(),
{
    let ghost all = text::views(v@);
    let mut i: usize = 0;
    assert(all.skip(0) =~= all);
    while i < v.len()
        invariant
            i <= v@.len(),
            all == text::views(v@),
            index_of(all, s@) == i + index_of(all.skip(i as int), s@),
        decreases v@.len() - i,
    {
        assert(all.skip(i as int)[0] == v@[i as int]@);
        if text::same_text(&v[i], s) {
            return i;
        }
        assert(all.skip(i as int).drop_first() =~= all.skip(i as int + 1));
        i += 1;
    }
    i
}

/// Executable form of [`index_ignoring_case`].
fn position_ignoring_case(v: &Vec<String>, s: &str) -> (r: usize)
    ensures
        r == index_ignoring_case(text::views(v@), s@),
        r <= v@.len(),
{
    let ghost all = text::views(v@);
    let mut i: usize = 0;
    assert(all.skip(0) =~= all);
    while i < v.len()
        invariant
            i <= v@.len(),
            all == text::views(v@),
            index_ignoring_case(all, s@) == i + index_ignoring_case(all.skip(i as int), s@),
        decreases v@.len() - i,
    {
        assert(all.skip(i as int)[0] == v@[i as int]@);
        if equal_ignoring_case(&v[i], s) {
            return i;
        }
        assert(all.skip(i as int).drop_first() =~= all.skip(i as int + 1));
        i += 1;
    }
    i
}

/// The dialog's fields for a task; none for a task that does not exist.
pub fn open_task_settings(list: &TaskList, id: TaskId) -> (r: Option<TaskForm>)
    ensures
        match r {
            Some(f) => {
                let k = tasklist::task_index(list@.tasks, id);
                let t = list@.tasks[k];
                &&& list@.has_task(id)
                &&& f.name@ == t.name
                &&& f.category_index == shown_category(list@.settings.categories, t.category)
                &&& f.color_index == shown_swatch(t.color, k)
            },
            None => !list@.has_task(id),
        },
{
    let tasks = list.tasks();
    proof {
        tasklist::lemma_task_index(list@.tasks, id);
    }
    let pos: usize = match list.position(id) {
        Some(k) => k,
        None => return None,
    };
    let task = &tasks[pos];
    assert(list@.tasks[pos as int] == task@);
    let categories = &list.settings().categories;
    let c: usize = position(categories, &task.category);
    let palette = settings::task_palette();
    assert(text::views(palette@).len() == 8);
    let p: usize = position_ignoring_case(&palette, &task.color);
    assert(text::views(categories@).len() == categories@.len());
    Some(
        TaskForm {
            name: task.name.clone(),
            category_index: if c < categories.len() { c } else { 0 },
            color_index: if p < palette.len() { p } else { pos % 8 },
        },
    )
}

/// The colour of a swatch; the first one for an index outside the palette.
pub open spec fn swatch(index: i32) -> Seq<char> {
    if 0 <= index < settings::palette().len() {
        settings::palette()[index as int]
    } else {
        settings::palette()[0]
    }
}

/// Saves a task's settings dialog.
pub fn save_task_settings(list: &mut TaskList, id: TaskId, name: &str, category: &str, color_index: i32)
    ensures
        final(list)@ == if old(list)@.has_task(id) {
            let k = tasklist::task_index(old(list)@.tasks, id);
            old(list)@.with_task(
                k,
                crate::task::TaskView {
                    name: name@,
                    category: category@,
                    color: swatch(color_index),
                    ..old(list)@.tasks[k]
                },
            )
        } else {
            old(list)@
        },
        old(list)@.wf() ==> final(list)@.wf(),
{
    let palette = settings::task_palette();
    assert(text::views(palette@).len() == 8);
    let k: usize = if 0 <= color_index && color_index < 8 { color_index as usize } else { 0 };
    assert(text::views(palette@)[k as int] == palette@[k as int]@);
    list.set_task_props(id, name, category, &palette[k]);
}

// ---------------------------------------------------------------------------
// Laws
// ---------------------------------------------------------------------------

/// A piece without separators behind a separator is one more piece.
proof fn lemma_pieces_append(s: Seq<char>, t: Seq<char>, sep: char)
    requires
        forall|i: int| 0 <= i < t.len() ==> t[i] != sep,
    ensures
        scan::pieces(s + seq![sep] + t, sep) == scan::pieces(s, sep).push(t),
    decreases s.len(),
{
    let all = s + seq![sep] + t;
    scan::lemma_first_of(s, sep);
    let k = scan::first_of(s, sep);
    if k >= s.len() {
        assert(all[s.len() as int] == sep);
        assert forall|j: int| 0 <= j < s.len() implies all[j] != sep by {
            assert(all[j] == s[j]);
        }
        scan::lemma_first_of_unique(all, sep, s.len() as int);
        assert(all.take(s.len() as int) =~= s);
        assert(all.skip(s.len() as int + 1) =~= t);
        scan::lemma_first_of_unique(t, sep, t.len() as int);
        assert(scan::pieces(t, sep) =~= seq![t]);
        assert(scan::pieces(s, sep) =~= seq![s]);
        assert(scan::pieces(all, sep) =~= seq![s, t]);
        assert(scan::pieces(s, sep).push(t) =~= seq![s, t]);
    } else {
        assert(all[k] == s[k]);
        assert forall|j: int| 0 <= j < k implies all[j] != sep by {
            assert(all[j] == s[j]);
        }
        scan::lemma_first_of_unique(all, sep, k);
        assert(all.take(k) =~= s.take(k));
        let rest = s.skip(k + 1);
        assert(all.skip(k + 1) =~= rest + seq![sep] + t);
        lemma_pieces_append(rest, t, sep);
        assert(scan::pieces(all, sep) =~= seq![s.take(k)] + scan::pieces(rest, sep).push(t));
        assert(scan::pieces(s, sep) =~= seq![s.take(k)] + scan::pieces(rest, sep));
        assert(scan::pieces(all, sep) =~= scan::pieces(s, sep).push(t));
    }
}

/// Whether a category survives a comma-separated list: it is trimmed, not blank
/// and without a comma.
pub open spec fn plain_category(c: Seq<char>) -> bool {
    &&& c.len() > 0
    &&& text::trimmed(c) == c
    &&& forall|i: int| 0 <= i < c.len() ==> c[i] != ','
}

/// What is joined is found again.
proof fn lemma_joined_kept(parts: Seq<Seq<char>>)
    requires
        parts.len() > 0,
        forall|i: int| 0 <= i < parts.len() ==> plain_category(#[trigger] parts[i]),
    ensures
        kept(scan::pieces(text::joined(parts, ", "@), ',')) == parts,
    decreases parts.len(),
{
    reveal_strlit(", ");
    let last = parts.last();
    assert(plain_category(last));
    if parts.len() == 1 {
        scan::lemma_first_of_unique(last, ',', last.len() as int);
        let p = scan::pieces(last, ',');
        assert(p =~= seq![last]);
        assert(p.drop_last() =~= Seq::<Seq<char>>::empty());
        assert(kept(p.drop_last()) == Seq::<Seq<char>>::empty());
        assert(p.last() == last);
        assert(kept(p) =~= seq![last]);
        assert(parts =~= seq![last]);
    } else {
        let front = parts.drop_last();
        assert forall|i: int| 0 <= i < front.len() implies plain_category(#[trigger] front[i]) by {
            assert(front[i] == parts[i]);
        }
        lemma_joined_kept(front);
        let s = text::joined(front, ", "@);
        let t = seq![' '] + last;
        assert(s + ", "@ + last =~= s + seq![','] + t);
        assert forall|i: int| 0 <= i < t.len() implies t[i] != ',' by {
            if i > 0 {
                assert(t[i] == last[i - 1]);
            }
        }
        lemma_pieces_append(s, t, ',');
        let p = scan::pieces(s, ',').push(t);
        assert(p.drop_last() =~= scan::pieces(s, ','));
        assert(t.drop_first() =~= last);
        assert(text::is_space(t[0]));
        assert(text::trimmed(t) == text::trimmed(last));
        assert(kept(p) =~= front.push(last));
        assert(parts =~= front.push(last));
    }
}

/// Opening the settings and saving them unchanged keeps them, as long as no
/// category is blank, holds a comma, or has white space at its ends, and there
/// is at least one: the dialog cannot express such a list.
pub proof fn law_unchanged_form_keeps_the_settings(s: SettingsView)
    requires
        s.categories.len() > 0,
        forall|i: int| 0 <= i < s.categories.len() ==> plain_category(#[trigger] s.categories[i]),
    ensures
        settings_of(form_of(s), s.github_token) == s,
{
    lemma_joined_kept(s.categories);
    let d = scan::decimal(s.idle_minutes as nat);
    scan::lemma_decimal_digits(s.idle_minutes as nat);
    assert(text::is_digit(d[0]));
    assert(text::is_digit(d.last()));
    assert(text::trimmed(d) == d);
    assert(unsigned(d) == d);
    assert(settings_of(form_of(s), s.github_token) =~= s);
}

/// Saved settings always offer a category, and none of them is blank.
pub proof fn law_categories_are_never_blank(csv: Seq<char>)
    ensures
        categories_of(csv).len() > 0,
        forall|i: int| 0 <= i < categories_of(csv).len() ==> (#[trigger] categories_of(csv)[i]).len() > 0,
{
    lemma_kept_not_blank(scan::pieces(csv, ','));
    reveal_strlit("work");
    reveal_strlit("personal");
    reveal_strlit("meeting");
    reveal_strlit("learning");
    reveal_strlit("other");
}

proof fn lemma_kept_not_blank(parts: Seq<Seq<char>>)
    ensures
        forall|i: int| 0 <= i < kept(parts).len() ==> (#[trigger] kept(parts)[i]).len() > 0,
    decreases parts.len(),
{
    if parts.len() > 0 {
        let before = kept(parts.drop_last());
        lemma_kept_not_blank(parts.drop_last());
        assert forall|i: int| 0 <= i < kept(parts).len() implies (#[trigger] kept(parts)[i]).len()
            > 0 by {
            if i < before.len() {
                assert(kept(parts)[i] == before[i]);
            }
        }
    }
}

/// The categories are the parts between the commas, trimmed, in order and without
/// the blank ones; if none is left, the standard ones.
pub proof fn law_categories_are_the_parts_between_commas(parts: Seq<Seq<char>>)
    requires
        parts.len() > 0,
        forall|i: int| 0 <= i < parts.len() ==> !(#[trigger] parts[i]).contains(','),
    ensures
        ({
            let named = parts.map_values(|p: Seq<char>| text::trimmed(p)).filter(
                |p: Seq<char>| p.len() > 0,
            );
            let r = categories_of(text::joined(parts, seq![',']));
            &&& named.len() > 0 ==> r == named
            &&& named.len() == 0 ==> r == seq![
                "work"@,
                "personal"@,
                "meeting"@,
                "learning"@,
                "other"@,
            ]
        }),
{
    lemma_pieces_of_joined(parts);
    lemma_kept_is_filter(parts);
}

proof fn lemma_pieces_of_joined(parts: Seq<Seq<char>>)
    requires
        parts.len() > 0,
        forall|i: int| 0 <= i < parts.len() ==> !(#[trigger] parts[i]).contains(','),
    ensures
        scan::pieces(text::joined(parts, seq![',']), ',') == parts,
    decreases parts.len(),
{
    let last = parts.last();
    assert(last == parts[parts.len() - 1]);
    assert forall|i: int| 0 <= i < last.len() implies last[i] != ',' by {
        assert(last.contains(last[i]));
    }
    if parts.len() == 1 {
        scan::lemma_first_of_unique(last, ',', last.len() as int);
        assert(scan::pieces(last, ',') =~= seq![last]);
        assert(parts =~= seq![last]);
    } else {
        let front = parts.drop_last();
        assert forall|i: int| 0 <= i < front.len() implies !(#[trigger] front[i]).contains(',') by {
            assert(front[i] == parts[i]);
        }
        lemma_pieces_of_joined(front);
        lemma_pieces_append(text::joined(front, seq![',']), last, ',');
        assert(front.push(last) =~= parts);
    }
}

proof fn lemma_kept_is_filter(parts: Seq<Seq<char>>)
    ensures
        kept(parts) == parts.map_values(|p: Seq<char>| text::trimmed(p)).filter(
            |p: Seq<char>| p.len() > 0,
        ),
    decreases parts.len(),
{
    reveal(Seq::filter);
    let m = parts.map_values(|p: Seq<char>| text::trimmed(p));
    if parts.len() > 0 {
        lemma_kept_is_filter(parts.drop_last());
        assert(m.drop_last() =~= parts.drop_last().map_values(|p: Seq<char>| text::trimmed(p)));
        assert(m.last() == text::trimmed(parts.last()));
    }
}

/// The idle minutes are the number in the field, with white space around it and a
/// plus sign before it allowed.
pub proof fn law_idle_minutes_are_read_as_written(s: Seq<char>, n: nat)
    requires
        n <= u64::MAX,
    ensures
        text::trimmed(s) == scan::decimal(n) ==> idle_of(s) == n,
        text::trimmed(s) == seq!['+'] + scan::decimal(n) ==> idle_of(s) == n,
{
    scan::lemma_decimal_digits(n);
    let d = scan::decimal(n);
    assert(text::is_digit(d[0]));
    assert((seq!['+'] + d).drop_first() =~= d);
    assert((seq!['+'] + d)[0] == '+');
}

/// Where the field holds no number, the idle time is five minutes.
pub proof fn law_idle_minutes_default_to_five(s: Seq<char>, i: int)
    requires
        ({
            let t = text::trimmed(s);
            t.len() == 0 || (0 <= i < t.len() && !('0' as int <= t[i] as int <= '9' as int) && (i
                > 0 || t[0] != '+' || t.len() == 1))
        }),
    ensures
        idle_of(s) == 5,
{
    let t = text::trimmed(s);
    let u = unsigned(t);
    if t.len() > 0 && scan::all_digits(u) {
        if u == t {
            assert(text::is_digit(u[i]));
        } else {
            assert(u[i - 1] == t[i]);
            assert(text::is_digit(u[i - 1]));
        }
    }
}

/// The dialog shows the settings and hands back what stands in its fields.
pub proof fn law_form_fields(s: SettingsView, f: FormView, token: Seq<char>)
    ensures
        form_of(s).terminal == s.terminal,
        form_of(s).browser == s.browser,
        form_of(s).focus_follows_mouse == s.focus_follows_mouse,
        settings_of(f, token).terminal == f.terminal,
        settings_of(f, token).browser == f.browser,
        settings_of(f, token).focus_follows_mouse == f.focus_follows_mouse,
        settings_of(f, token).github_token == token,
{
}

/// The category shown for a task is the first with its name, or the first of all.
pub proof fn law_shown_category_is_the_tasks_own(
    categories: Seq<Seq<char>>,
    category: Seq<char>,
    k: int,
)
    requires
        0 <= k < categories.len() ==> categories[k] == category,
        forall|j: int| 0 <= j < k && j < categories.len() ==> #[trigger] categories[j] != category,
        0 <= k <= categories.len(),
    ensures
        k < categories.len() ==> shown_category(categories, category) == k,
        k == categories.len() ==> shown_category(categories, category) == 0,
{
    lemma_index_of_is(categories, category, k);
}

proof fn lemma_index_of_is(v: Seq<Seq<char>>, s: Seq<char>, k: int)
    requires
        0 <= k <= v.len(),
        k < v.len() ==> v[k] == s,
        forall|j: int| 0 <= j < k ==> #[trigger] v[j] != s,
    ensures
        index_of(v, s) == k,
    decreases v.len(),
{
    if k > 0 {
        let d = v.drop_first();
        assert(v[0] != s);
        assert forall|j: int| 0 <= j < k - 1 implies #[trigger] d[j] != s by {
            assert(d[j] == v[j + 1]);
        }
        lemma_index_of_is(d, s, k - 1);
    }
}

/// The swatch shown for a task is the first with its colour, the case of letters
/// aside; a colour outside the palette shows the one of the task's position.
pub proof fn law_shown_swatch_is_the_tasks_own(color: Seq<char>, position: int, k: int)
    requires
        0 <= k <= 8,
        k < 8 ==> same_ignoring_case(settings::palette()[k], color),
        forall|j: int|
            0 <= j < k ==> !same_ignoring_case(#[trigger] settings::palette()[j], color),
    ensures
        k < 8 ==> shown_swatch(color, position) == k,
        k == 8 ==> shown_swatch(color, position) == position % 8,
{
    lemma_index_ignoring_case_is(settings::palette(), color, k);
}

proof fn lemma_index_ignoring_case_is(v: Seq<Seq<char>>, s: Seq<char>, k: int)
    requires
        0 <= k <= v.len(),
        k < v.len() ==> same_ignoring_case(v[k], s),
        forall|j: int| 0 <= j < k ==> !same_ignoring_case(#[trigger] v[j], s),
    ensures
        index_ignoring_case(v, s) == k,
    decreases v.len(),
{
    if k > 0 {
        let d = v.drop_first();
        assert(!same_ignoring_case(v[0], s));
        assert forall|j: int| 0 <= j < k - 1 implies !same_ignoring_case(#[trigger] d[j], s) by {
            assert(d[j] == v[j + 1]);
        }
        lemma_index_ignoring_case_is(d, s, k - 1);
    }
}

/// Ignoring case, two texts are the same when at every place the characters are
/// equal or the two cases of one ASCII letter.
pub proof fn law_case_is_ignored_for_ascii_letters(a: Seq<char>, b: Seq<char>, i: int)
    requires
        same_ignoring_case(a, b),
        0 <= i < a.len(),
    ensures
        a.len() == b.len(),
        a[i] == b[i] || (a[i] as int + 32 == b[i] as int && 'A' as int <= a[i] as int
            <= 'Z' as int) || (b[i] as int + 32 == a[i] as int && 'A' as int <= b[i] as int
            <= 'Z' as int),
{
    assert(lower(a[i]) == lower(b[i]));
}

/// Texts that differ in the case of ASCII letters alone are the same.
pub proof fn law_case_changes_are_ignored(a: Seq<char>, b: Seq<char>)
    requires
        a.len() == b.len(),
        forall|i: int|
            0 <= i < a.len() ==> (#[trigger] a[i]) == b[i] || (a[i] as int + 32 == b[i] as int
                && 'A' as int <= a[i] as int <= 'Z' as int) || (b[i] as int + 32 == a[i] as int
                && 'A' as int <= b[i] as int <= 'Z' as int),
    ensures
        same_ignoring_case(a, b),
{
    assert forall|i: int| 0 <= i < a.len() implies lower(#[trigger] a[i]) == lower(b[i]) by {}
}

/// The swatches have the palette's colours in order; an unknown one has the first.
pub proof fn law_swatches_are_the_palette(index: i32)
    ensures
        swatch(index) == if 0 <= index < 8 {
            seq![
                "#89b4fa"@,
                "#a6e3a1"@,
                "#f9e2af"@,
                "#f38ba8"@,
                "#cba6f7"@,
                "#fab387"@,
                "#94e2d5"@,
                "#f5c2e7"@,
            ][index as int]
        } else {
            "#89b4fa"@
        },
{
}

} // verus!
