//! The log of focus time: one row per day and task, and reports over a range of
//! days.

use vstd::prelude::*;

use crate::model::{is_blank, TaskId};
use crate::text;

verus! {

/// One day's accumulated focus time for one task.
#[derive(Debug, PartialEq, Eq)]
pub struct TimeEntry {
    /// Local calendar day, "YYYY-MM-DD".
    pub date: String,
    pub task_id: TaskId,
    /// Task name at the time, denormalized so reports survive task edits/deletes.
    pub project: String,
    pub category: String,
    pub secs: u64,
}

/// What a [`TimeEntry`] holds.
#[verifier::ext_equal]
pub struct EntryView {
    pub date: Seq<char>,
    pub task_id: TaskId,
    pub project: Seq<char>,
    pub category: Seq<char>,
    pub secs: u64,
}

impl View for TimeEntry {
    type V = EntryView;

    open spec fn view(&self) -> EntryView {
        EntryView {
            date: self.date@,
            task_id: self.task_id,
            project: self.project@,
            category: self.category@,
            secs: self.secs,
        }
    }
}

impl Clone for TimeEntry {
    fn clone(&self) -> (r: TimeEntry)
        ensures
            r@ == self@,
    {
        TimeEntry {
            date: self.date.clone(),
            task_id: self.task_id,
            project: self.project.clone(),
            category: self.category.clone(),
            secs: self.secs,
        }
    }
}

/// A log of per-day, per-task focus time, with one row per (date, task).
#[derive(Debug)]
pub struct TimeLog {
    entries: Vec<TimeEntry>,
}

/// The views of a sequence of entries.
pub open spec fn entry_views(s: Seq<TimeEntry>) -> Seq<EntryView> {
    s.map_values(|e: TimeEntry| e@)
}

impl View for TimeLog {
    type V = Seq<EntryView>;

    closed spec fn view(&self) -> Seq<EntryView> {
        entry_views(self.entries@)
    }
}

impl Default for TimeLog {
    fn default() -> (r: Self)
        ensures
            r@ == Seq::<EntryView>::empty(),
    {
        let r = TimeLog { entries: Vec::new() };
        assert(r@ =~= Seq::<EntryView>::empty());
        r
    }
}

// ---------------------------------------------------------------------------
// Recording
// ---------------------------------------------------------------------------

/// Position of the first row for `(date, task)` in the log, or its length.
pub open spec fn row_index(log: Seq<EntryView>, date: Seq<char>, task: TaskId) -> int
    decreases log.len(),
{
    if log.len() == 0 || (log[0].date == date && log[0].task_id == task) {
        0
    } else {
        1 + row_index(log.drop_first(), date, task)
    }
}

/// The row found is for that day and task, and none before it is.
pub proof fn lemma_row_index(log: Seq<EntryView>, date: Seq<char>, task: TaskId)
    ensures
        0 <= row_index(log, date, task) <= log.len(),
        row_index(log, date, task) < log.len() ==> log[row_index(log, date, task)].date == date
            && log[row_index(log, date, task)].task_id == task,
        forall|j: int|
            0 <= j < row_index(log, date, task) ==> !(#[trigger] log[j].date == date
                && log[j].task_id == task),
    decreases log.len(),
{
    if log.len() > 0 && !(log[0].date == date && log[0].task_id == task) {
        let d = log.drop_first();
        lemma_row_index(d, date, task);
        assert forall|j: int| 0 <= j < row_index(log, date, task) implies !(#[trigger] log[j].date
            == date && log[j].task_id == task) by {
            if j > 0 {
                assert(d[j - 1] == log[j]);
            }
        }
    }
}

proof fn lemma_row_index_unique(log: Seq<EntryView>, date: Seq<char>, task: TaskId, k: int)
    requires
        0 <= k <= log.len(),
        k < log.len() ==> log[k].date == date && log[k].task_id == task,
        forall|j: int|
            0 <= j < k ==> !(#[trigger] log[j].date == date && log[j].task_id == task),
    ensures
        row_index(log, date, task) == k,
{
    lemma_row_index(log, date, task);
    let f = row_index(log, date, task);
    if f < k {
        assert(!(log[f].date == date && log[f].task_id == task));
    }
}

/// The log after adding `secs` under `(date, task)`: merged into the first row
/// for them, or appended as a new row. Nothing is logged without a date or time.
pub open spec fn recorded(
    log: Seq<EntryView>,
    date: Seq<char>,
    task: TaskId,
    project: Seq<char>,
    category: Seq<char>,
    secs: u64,
) -> Seq<EntryView> {
    let k = row_index(log, date, task);
    if secs == 0 || date.len() == 0 {
        log
    } else if k < log.len() {
        log.update(
            k,
            EntryView {
                date,
                task_id: task,
                project,
                category,
                secs: (log[k].secs + secs) as u64,
            },
        )
    } else {
        log.push(EntryView { date, task_id: task, project, category, secs })
    }
}

/// Whether adding `secs` under `(date, task)` stays within what a row can hold.
pub open spec fn record_fits(
    log: Seq<EntryView>,
    date: Seq<char>,
    task: TaskId,
    secs: u64,
) -> bool {
    let k = row_index(log, date, task);
    secs == 0 || date.len() == 0 || k >= log.len() || log[k].secs + secs <= u64::MAX
}

/// At most one row per day and task.
pub open spec fn one_row_each(log: Seq<EntryView>) -> bool {
    forall|i: int, j: int|
        0 <= i < j < log.len() ==> !(#[trigger] log[i].date == #[trigger] log[j].date
            && log[i].task_id == log[j].task_id)
}

impl TimeLog {
    /// Whether no two rows share a day and a task.
    pub fn has_one_row_each(&self) -> (r: bool)
        ensures
            r == one_row_each(self@),
    {
        let n: usize = self.entries.len();
        let mut j: usize = 0;
        while j < n
            invariant
                n == self.entries@.len(),
                j <= n,
                forall|a: int, b: int|
                    0 <= a < b < j ==> !(#[trigger] self@[a].date == #[trigger] self@[b].date
                        && self@[a].task_id == self@[b].task_id),
            decreases n - j,
        {
            let mut i: usize = 0;
            while i < j
                invariant
                    n == self.entries@.len(),
                    i <= j < n,
                    forall|a: int|
                        0 <= a < i ==> !((#[trigger] self@[a]).date == self@[j as int].date
                            && self@[a].task_id == self@[j as int].task_id),
                decreases j - i,
            {
                assert(self@[i as int] == self.entries@[i as int]@);
                assert(self@[j as int] == self.entries@[j as int]@);
                if self.entries[i].task_id == self.entries[j].task_id && text::same_text(
                    self.entries[i].date.as_str(),
                    self.entries[j].date.as_str(),
                ) {
                    assert(self@[i as int].date == self@[j as int].date);
                    return false;
                }
                i += 1;
            }
            j += 1;
        }
        true
    }

    /// Whether adding `secs` under a day and a task stays within what a row can
    /// hold.
    pub fn can_record(&self, date: &str, task_id: TaskId, secs: u64) -> (r: bool)
        ensures
            r == record_fits(self@, date@, task_id, secs),
    {
        if secs == 0 || is_blank(date) {
            return true;
        }
        let ghost log = self@;
        let mut k: usize = 0;
        assert(log.skip(0) =~= log);
        while k < self.entries.len()
            invariant
                k <= self.entries@.len(),
                log == self@,
                row_index(log, date@, task_id) == k + row_index(
                    log.skip(k as int),
                    date@,
                    task_id,
                ),
                secs > 0,
                date@.len() > 0,
            decreases self.entries@.len() - k,
        {
            assert(log.skip(k as int)[0] == self.entries@[k as int]@);
            if self.entries[k].task_id == task_id && text::same_text(
                self.entries[k].date.as_str(),
                date,
            ) {
                return self.entries[k].secs <= u64::MAX - secs;
            }
            assert(log.skip(k as int).drop_first() =~= log.skip(k as int + 1));
            k += 1;
        }
        true
    }

    /// The rows of the log.
    pub fn entries(&self) -> (r: &[TimeEntry])
        ensures
            entry_views(r@) == self@,
    {
        self.entries.as_slice()
    }

    /// A log with the given rows.
    pub fn from_entries(entries: Vec<TimeEntry>) -> (r: TimeLog)
        ensures
            r@ == entry_views(entries@),
    {
        TimeLog { entries }
    }

    /// Copies of the rows of the log.
    pub fn copy_entries(&self) -> (r: Vec<TimeEntry>)
        ensures
            entry_views(r@) == self@,
    {
        let mut out: Vec<TimeEntry> = Vec::new();
        let mut i: usize = 0;
        while i < self.entries.len()
            invariant
                i <= self.entries@.len(),
                entry_views(out@) == entry_views(self.entries@).take(i as int),
            decreases self.entries@.len() - i,
        {
            let ghost before = out@;
            out.push(self.entries[i].clone());
            i += 1;
            assert(entry_views(out@) =~= entry_views(before).push(self.entries@[i - 1]@));
            assert(entry_views(out@) =~= entry_views(self.entries@).take(i as int));
        }
        assert(entry_views(out@) =~= entry_views(self.entries@));
        out
    }

    /// Add `secs` under `(date, task_id)`, merging with an existing row.
    pub fn record(
        &mut self,
        date: &str,
        task_id: TaskId,
        project: &str,
        category: &str,
        secs: u64,
    )
        requires
            record_fits(old(self)@, date@, task_id, secs),
        ensures
            final(self)@ == recorded(old(self)@, date@, task_id, project@, category@, secs),
            one_row_each(old(self)@) ==> one_row_each(final(self)@),
    {
        proof {
            lemma_recorded_one_row(self@, date@, task_id, project@, category@, secs);
        }
        if secs == 0 || is_blank(date) {
            return;
        }
        let ghost log = self@;
        let mut k: usize = 0;
        while k < self.entries.len() && !(self.entries[k].task_id == task_id && text::same_text(
            self.entries[k].date.as_str(),
            date,
        ))
            invariant
                k <= self.entries@.len(),
                log == self@,
                forall|j: int|
                    0 <= j < k ==> !(#[trigger] log[j].date == date@ && log[j].task_id == task_id),
            decreases self.entries@.len() - k,
        {
            assert(log[k as int] == self.entries@[k as int]@);
            k += 1;
        }
        proof {
            if k < log.len() {
                assert(log[k as int] == self.entries@[k as int]@);
            }
            lemma_row_index_unique(log, date@, task_id, k as int);
        }
        if k < self.entries.len() {
            let total: u64 = self.entries[k].secs + secs;
            let row = TimeEntry {
                date: text::copy_text(date),
                task_id,
                project: text::copy_text(project),
                category: text::copy_text(category),
                secs: total,
            };
            self.entries.set(k, row);
        } else {
            self.entries.push(
                TimeEntry {
                    date: text::copy_text(date),
                    task_id,
                    project: text::copy_text(project),
                    category: text::copy_text(category),
                    secs,
                },
            );
        }
        assert(self@ =~= recorded(log, date@, task_id, project@, category@, secs));
    }
}

/// Recording keeps at most one row per day and task.
pub proof fn lemma_recorded_one_row(
    log: Seq<EntryView>,
    date: Seq<char>,
    task: TaskId,
    project: Seq<char>,
    category: Seq<char>,
    secs: u64,
)
    ensures
        one_row_each(log) ==> one_row_each(recorded(log, date, task, project, category, secs)),
{
    lemma_row_index(log, date, task);
    if one_row_each(log) {
        let after = recorded(log, date, task, project, category, secs);
        assert forall|i: int, j: int| 0 <= i < j < after.len() implies !(#[trigger] after[i].date
            == #[trigger] after[j].date && after[i].task_id == after[j].task_id) by {
            if j < log.len() {
                assert(!(log[i].date == log[j].date && log[i].task_id == log[j].task_id));
            } else {
                assert(!(log[i].date == date && log[i].task_id == task));
            }
        }
    }
}

// ---------------------------------------------------------------------------
// Reports
// ---------------------------------------------------------------------------

/// What the rows of a report are grouped by.
#[derive(Debug, Clone, Copy, PartialEq, Eq, Structural)]
pub enum Facet {
    Category,
    Project,
    Day,
}

/// The label under which an entry is counted.
pub open spec fn facet_of(e: EntryView, f: Facet) -> Seq<char> {
    match f {
        Facet::Category => e.category,
        Facet::Project => e.project,
        Facet::Day => e.date,
    }
}

/// Whether the entry lies in the inclusive range of days.
pub open spec fn in_range(e: EntryView, since: Seq<char>, until: Seq<char>) -> bool {
    !text::text_lt(e.date, since) && !text::text_lt(until, e.date)
}

/// Seconds in the range, over all entries.
pub open spec fn total_secs(log: Seq<EntryView>, since: Seq<char>, until: Seq<char>) -> int
    decreases log.len(),
{
    if log.len() == 0 {
        0
    } else {
        let rest = total_secs(log.drop_last(), since, until);
        if in_range(log.last(), since, until) {
            rest + log.last().secs
        } else {
            rest
        }
    }
}

/// Seconds in the range under one label.
pub open spec fn label_secs(
    log: Seq<EntryView>,
    since: Seq<char>,
    until: Seq<char>,
    f: Facet,
    label: Seq<char>,
) -> int
    decreases log.len(),
{
    if log.len() == 0 {
        0
    } else {
        let rest = label_secs(log.drop_last(), since, until, f, label);
        if in_range(log.last(), since, until) && facet_of(log.last(), f) == label {
            rest + log.last().secs
        } else {
            rest
        }
    }
}

/// Whether an entry in the range has the label.
pub open spec fn label_present(
    log: Seq<EntryView>,
    since: Seq<char>,
    until: Seq<char>,
    f: Facet,
    label: Seq<char>,
) -> bool {
    exists|i: int|
        0 <= i < log.len() && in_range(#[trigger] log[i], since, until) && facet_of(log[i], f)
            == label
}

/// The views of report rows.
pub open spec fn row_views(s: Seq<(String, u64)>) -> Seq<(Seq<char>, u64)> {
    s.map_values(|r: (String, u64)| (r.0@, r.1))
}

/// Whether `rows` has the row `(label, secs)`.
pub open spec fn has_row(rows: Seq<(Seq<char>, u64)>, label: Seq<char>) -> bool {
    exists|i: int| 0 <= i < rows.len() && (#[trigger] rows[i]).0 == label
}

/// The rows are exactly the labels present in the range, each once and with its
/// seconds.
pub open spec fn is_tally(
    rows: Seq<(Seq<char>, u64)>,
    log: Seq<EntryView>,
    since: Seq<char>,
    until: Seq<char>,
    f: Facet,
) -> bool {
    &&& forall|i: int|
        0 <= i < rows.len() ==> label_present(log, since, until, f, (#[trigger] rows[i]).0)
            && rows[i].1 == label_secs(log, since, until, f, rows[i].0)
    &&& forall|label: Seq<char>|
        label_present(log, since, until, f, label) ==> has_row(rows, label)
    &&& forall|i: int, j: int|
        0 <= i < j < rows.len() ==> (#[trigger] rows[i]).0 != (#[trigger] rows[j]).0
}

/// The orders in which report rows come.
#[derive(Debug, Clone, Copy, PartialEq, Eq, Structural)]
pub enum RowOrder {
    /// Most seconds first, equal seconds by label.
    ByTime,
    /// By label.
    ByLabel,
}

/// Whether row `a` comes before row `b`.
pub open spec fn row_before(o: RowOrder, a: (Seq<char>, u64), b: (Seq<char>, u64)) -> bool {
    match o {
        RowOrder::ByTime => a.1 > b.1 || (a.1 == b.1 && text::text_lt(a.0, b.0)),
        RowOrder::ByLabel => text::text_lt(a.0, b.0),
    }
}

/// Whether the rows come in the given order.
pub open spec fn rows_sorted(rows: Seq<(Seq<char>, u64)>, o: RowOrder) -> bool {
    forall|i: int, j: int|
        0 <= i < j < rows.len() ==> row_before(o, #[trigger] rows[i], #[trigger] rows[j])
}

/// No label adds up to more than the total.
pub proof fn lemma_label_within_total(
    log: Seq<EntryView>,
    since: Seq<char>,
    until: Seq<char>,
    f: Facet,
    label: Seq<char>,
)
    ensures
        0 <= label_secs(log, since, until, f, label) <= total_secs(log, since, until),
    decreases log.len(),
{
    if log.len() > 0 {
        lemma_label_within_total(log.drop_last(), since, until, f, label);
    }
}

proof fn lemma_total_grows(log: Seq<EntryView>, since: Seq<char>, until: Seq<char>, k: int)
    requires
        0 <= k <= log.len(),
    ensures
        0 <= total_secs(log.take(k), since, until) <= total_secs(log, since, until),
    decreases log.len(),
{
    if log.len() == 0 || k == log.len() {
        assert(log.take(k) =~= log);
        lemma_label_within_total(log, since, until, Facet::Day, Seq::empty());
    } else {
        lemma_total_grows(log.drop_last(), since, until, k);
        assert(log.drop_last().take(k) =~= log.take(k));
    }
}

proof fn lemma_label_grows(
    log: Seq<EntryView>,
    since: Seq<char>,
    until: Seq<char>,
    f: Facet,
    label: Seq<char>,
    k: int,
)
    requires
        0 <= k <= log.len(),
    ensures
        0 <= label_secs(log.take(k), since, until, f, label) <= label_secs(
            log,
            since,
            until,
            f,
            label,
        ),
    decreases log.len(),
{
    if log.len() == 0 || k == log.len() {
        assert(log.take(k) =~= log);
        lemma_label_within_total(log, since, until, f, label);
    } else {
        lemma_label_grows(log.drop_last(), since, until, f, label, k);
        assert(log.drop_last().take(k) =~= log.take(k));
    }
}

/// A label that is not present has no seconds.
pub proof fn lemma_absent_label(
    log: Seq<EntryView>,
    since: Seq<char>,
    until: Seq<char>,
    f: Facet,
    label: Seq<char>,
)
    requires
        !label_present(log, since, until, f, label),
    ensures
        label_secs(log, since, until, f, label) == 0,
    decreases log.len(),
{
    if log.len() > 0 {
        let d = log.drop_last();
        if label_present(d, since, until, f, label) {
            let i = choose|i: int|
                0 <= i < d.len() && in_range(#[trigger] d[i], since, until) && facet_of(d[i], f)
                    == label;
            assert(log[i] == d[i]);
            assert(false);
        }
        lemma_absent_label(d, since, until, f, label);
        assert(log.last() == log[log.len() - 1]);
    }
}

/// How the labels present change when one entry is added at the end.
proof fn lemma_present_push(
    log: Seq<EntryView>,
    since: Seq<char>,
    until: Seq<char>,
    f: Facet,
    label: Seq<char>,
    k: int,
)
    requires
        0 <= k < log.len(),
    ensures
        label_present(log.take(k + 1), since, until, f, label) <==> (label_present(
            log.take(k),
            since,
            until,
            f,
            label,
        ) || (in_range(log[k], since, until) && facet_of(log[k], f) == label)),
        label_secs(log.take(k + 1), since, until, f, label) == label_secs(
            log.take(k),
            since,
            until,
            f,
            label,
        ) + if in_range(log[k], since, until) && facet_of(log[k], f) == label {
            log[k].secs as int
        } else {
            0
        },
{
    let a = log.take(k);
    let b = log.take(k + 1);
    assert(b.drop_last() =~= a);
    if label_present(b, since, until, f, label) {
        let i = choose|i: int|
            0 <= i < b.len() && in_range(#[trigger] b[i], since, until) && facet_of(b[i], f)
                == label;
        if i < k {
            assert(a[i] == b[i]);
        }
    }
    if label_present(a, since, until, f, label) {
        let i = choose|i: int|
            0 <= i < a.len() && in_range(#[trigger] a[i], since, until) && facet_of(a[i], f)
                == label;
        assert(a[i] == b[i]);
    }
    if in_range(log[k], since, until) && facet_of(log[k], f) == label {
        assert(b[k] == log[k]);
    }
}

impl TimeEntry {
    /// The label under which the entry is counted.
    fn facet(&self, f: Facet) -> (r: &String)
        ensures
            r@ == facet_of(self@, f),
    {
        match f {
            Facet::Category => &self.category,
            Facet::Project => &self.project,
            Facet::Day => &self.date,
        }
    }

    /// Whether the entry lies in the inclusive range of days.
    fn within(&self, since: &str, until: &str) -> (r: bool)
        ensures
            r == in_range(self@, since@, until@),
    {
        !text::text_less(self.date.as_str(), since) && !text::text_less(until, self.date.as_str())
    }
}

/// Position of the row with the label, or the number of rows.
fn row_of(rows: &Vec<(String, u64)>, label: &str) -> (r: usize)
    ensures
        r <= rows@.len(),
        r < rows@.len() ==> row_views(rows@)[r as int].0 == label@,
        forall|j: int| 0 <= j < r ==> (#[trigger] row_views(rows@)[j]).0 != label@,
{
    let mut i: usize = 0;
    while i < rows.len() && !text::same_text(rows[i].0.as_str(), label)
        invariant
            i <= rows@.len(),
            forall|j: int| 0 <= j < i ==> (#[trigger] row_views(rows@)[j]).0 != label@,
        decreases rows@.len() - i,
    {
        i += 1;
    }
    i
}

impl TimeLog {
    /// The seconds per label in the range, one row per label.
    fn tally(&self, since: &str, until: &str, f: Facet) -> (rows: Vec<(String, u64)>)
        requires
            forall|label: Seq<char>|
                #[trigger] label_secs(self@, since@, until@, f, label) <= u64::MAX,
        ensures
            is_tally(row_views(rows@), self@, since@, until@, f),
    {
        let ghost log = self@;
        let mut rows: Vec<(String, u64)> = Vec::new();
        let mut i: usize = 0;
        while i < self.entries.len()
            invariant
                i <= self.entries@.len(),
                log == self@,
                log.len() == self.entries@.len(),
                forall|label: Seq<char>|
                    #[trigger] label_secs(log, since@, until@, f, label) <= u64::MAX,
                is_tally(row_views(rows@), log.take(i as int), since@, until@, f),
            decreases self.entries@.len() - i,
        {
            let e = &self.entries[i];
            let ghost before = row_views(rows@);
            let ghost part = log.take(i as int);
            let ghost next = log.take(i + 1);
            assert(log[i as int] == e@);
            if e.within(since, until) {
                let label: &String = e.facet(f);
                let k: usize = row_of(&rows, label.as_str());
                proof {
                    lemma_present_push(log, since@, until@, f, label@, i as int);
                    lemma_label_grows(log, since@, until@, f, label@, i + 1);
                    assert(label_secs(log, since@, until@, f, label@) <= u64::MAX);
                }
                if k < rows.len() {
                    assert(before[k as int].0 == label@);
                    let sum: u64 = rows[k].1 + e.secs;
                    let name = label.clone();
                    rows.set(k, (name, sum));
                    assert(row_views(rows@) =~= before.update(k as int, (label@, sum)));
                } else {
                    proof {
                        if label_present(part, since@, until@, f, label@) {
                            assert(has_row(before, label@));
                        }
                        lemma_absent_label(part, since@, until@, f, label@);
                    }
                    rows.push((label.clone(), e.secs));
                    assert(row_views(rows@) =~= before.push((label@, e.secs)));
                }
                proof {
                    let after = row_views(rows@);
                    assert forall|j: int| 0 <= j < after.len() implies label_present(
                        next,
                        since@,
                        until@,
                        f,
                        (#[trigger] after[j]).0,
                    ) && after[j].1 == label_secs(next, since@, until@, f, after[j].0) by {
                        lemma_present_push(log, since@, until@, f, after[j].0, i as int);
                        if j != k {
                            assert(after[j] == before[j]);
                            assert(before[j].0 != label@);
                        }
                    }
                    assert forall|l: Seq<char>| label_present(
                        next,
                        since@,
                        until@,
                        f,
                        l,
                    ) implies has_row(after, l) by {
                        lemma_present_push(log, since@, until@, f, l, i as int);
                        if l == label@ {
                            assert(after[k as int].0 == l);
                        } else {
                            assert(has_row(before, l));
                            let j = choose|j: int|
                                0 <= j < before.len() && (#[trigger] before[j]).0 == l;
                            assert(after[j] == before[j]);
                        }
                    }
                    assert forall|x: int, y: int| 0 <= x < y < after.len() implies (
                    #[trigger] after[x]).0 != (#[trigger] after[y]).0 by {
                        if y < before.len() {
                            assert(before[x].0 != before[y].0);
                        } else {
                            assert(before[x].0 != label@);
                        }
                    }
                    assert(is_tally(after, next, since@, until@, f));
                }
            } else {
                proof {
                    assert forall|j: int| 0 <= j < before.len() implies label_present(
                        next,
                        since@,
                        until@,
                        f,
                        (#[trigger] before[j]).0,
                    ) && before[j].1 == label_secs(next, since@, until@, f, before[j].0) by {
                        lemma_present_push(log, since@, until@, f, before[j].0, i as int);
                    }
                    assert forall|l: Seq<char>| label_present(
                        next,
                        since@,
                        until@,
                        f,
                        l,
                    ) implies has_row(before, l) by {
                        lemma_present_push(log, since@, until@, f, l, i as int);
                    }
                    assert(is_tally(before, next, since@, until@, f));
                }
            }
            i += 1;
        }
        assert(log.take(i as int) =~= log);
        rows
    }
}

// ---------------------------------------------------------------------------
// Sorting
// ---------------------------------------------------------------------------

/// Whether row `a` comes before row `b`.
fn comes_before(o: RowOrder, a: &(String, u64), b: &(String, u64)) -> (r: bool)
    ensures
        r == row_before(o, (a.0@, a.1), (b.0@, b.1)),
{
    match o {
        RowOrder::ByTime => a.1 > b.1 || (a.1 == b.1 && text::text_less(
            a.0.as_str(),
            b.0.as_str(),
        )),
        RowOrder::ByLabel => text::text_less(a.0.as_str(), b.0.as_str()),
    }
}

/// The order of rows is transitive.
proof fn lemma_row_before_transitive(
    o: RowOrder,
    a: (Seq<char>, u64),
    b: (Seq<char>, u64),
    c: (Seq<char>, u64),
)
    requires
        row_before(o, a, b),
        row_before(o, b, c),
    ensures
        row_before(o, a, c),
{
    if text::text_lt(a.0, b.0) && text::text_lt(b.0, c.0) {
        text::lemma_text_lt_transitive(a.0, b.0, c.0);
    }
}

/// Rows with different labels are ordered one way or the other.
proof fn lemma_row_before_total(o: RowOrder, a: (Seq<char>, u64), b: (Seq<char>, u64))
    requires
        a.0 != b.0,
    ensures
        row_before(o, a, b) || row_before(o, b, a),
{
    text::lemma_text_lt_total(a.0, b.0);
}

/// Rows that come in order have no repetition.
proof fn lemma_row_before_irreflexive(o: RowOrder, a: (Seq<char>, u64))
    ensures
        !row_before(o, a, a),
{
    text::lemma_text_lt_irreflexive(a.0);
}

proof fn lemma_insert_contains<A>(s: Seq<A>, k: int, x: A)
    requires
        0 <= k <= s.len(),
    ensures
        forall|y: A| s.insert(k, x).contains(y) <==> (s.contains(y) || y == x),
{
    let t = s.insert(k, x);
    assert forall|y: A| t.contains(y) implies (s.contains(y) || y == x) by {
        let i = choose|i: int| 0 <= i < t.len() && t[i] == y;
        if i < k {
            assert(s[i] == y);
        } else if i > k {
            assert(s[i - 1] == y);
        }
    }
    assert forall|y: A| s.contains(y) || y == x implies t.contains(y) by {
        if y == x {
            assert(t[k] == x);
        } else {
            let i = choose|i: int| 0 <= i < s.len() && s[i] == y;
            if i < k {
                assert(t[i] == y);
            } else {
                assert(t[i + 1] == y);
            }
        }
    }
}

/// The same rows, in order. Rows have different labels.
fn sort_rows(rows: Vec<(String, u64)>, o: RowOrder) -> (out: Vec<(String, u64)>)
    requires
        forall|i: int, j: int|
            0 <= i < j < rows@.len() ==> (#[trigger] row_views(rows@)[i]).0 != (
            #[trigger] row_views(rows@)[j]).0,
    ensures
        rows_sorted(row_views(out@), o),
        forall|r: (Seq<char>, u64)|
            row_views(out@).contains(r) <==> row_views(rows@).contains(r),
{
    let ghost src = row_views(rows@);
    let mut out: Vec<(String, u64)> = Vec::new();
    let mut i: usize = 0;
    while i < rows.len()
        invariant
            i <= rows@.len(),
            src == row_views(rows@),
            forall|x: int, y: int|
                0 <= x < y < src.len() ==> (#[trigger] src[x]).0 != (#[trigger] src[y]).0,
            rows_sorted(row_views(out@), o),
            forall|r: (Seq<char>, u64)|
                row_views(out@).contains(r) <==> src.take(i as int).contains(r),
        decreases rows@.len() - i,
    {
        let ghost before = row_views(out@);
        let ghost row = src[i as int];
        assert(row == (rows@[i as int].0@, rows@[i as int].1));
        let mut k: usize = 0;
        while k < out.len() && comes_before(o, &out[k], &rows[i])
            invariant
                k <= out@.len(),
                i < rows@.len(),
                before == row_views(out@),
                row == (rows@[i as int].0@, rows@[i as int].1),
                forall|j: int| 0 <= j < k ==> row_before(o, #[trigger] before[j], row),
            decreases out@.len() - k,
        {
            assert(before[k as int] == (out@[k as int].0@, out@[k as int].1));
            k += 1;
        }
        let name = rows[i].0.clone();
        let secs: u64 = rows[i].1;
        out.insert(k, (name, secs));
        i += 1;
        proof {
            let after = row_views(out@);
            assert(after =~= before.insert(k as int, row));
            assert forall|j: int| 0 <= j < before.len() implies (#[trigger] before[j]).0
                != row.0 by {
                assert(before.contains(before[j]));
                assert(src.take(i - 1).contains(before[j]));
                let done = src.take(i - 1);
                let m = choose|m: int| 0 <= m < done.len() && done[m] == before[j];
                assert(src[m] == before[j]);
            }
            if k < before.len() {
                assert(before[k as int] == (out@[k + 1].0@, out@[k + 1].1));
                lemma_row_before_total(o, before[k as int], row);
            }
            assert forall|j: int| k <= j < before.len() implies row_before(
                o,
                row,
                #[trigger] before[j],
            ) by {
                if j > k {
                    lemma_row_before_transitive(o, row, before[k as int], before[j]);
                }
            }
            assert forall|x: int, y: int| 0 <= x < y < after.len() implies row_before(
                o,
                #[trigger] after[x],
                #[trigger] after[y],
            ) by {
                if x < k && y > k {
                    assert(row_before(o, before[x], before[y - 1]));
                } else if x < k && y < k {
                    assert(row_before(o, before[x], before[y]));
                } else if x > k {
                    assert(row_before(o, before[x - 1], before[y - 1]));
                } else if x == k {
                    assert(row_before(o, row, before[y - 1]));
                } else {
                    assert(row_before(o, before[x], row));
                }
            }
            lemma_insert_contains(before, k as int, row);
            assert(src.take(i as int) =~= src.take(i - 1).insert(i - 1, row));
            lemma_insert_contains(src.take(i - 1), i - 1, row);
            assert forall|r: (Seq<char>, u64)|
                after.contains(r) <==> src.take(i as int).contains(r) by {
                assert(after.contains(r) <==> (before.contains(r) || r == row));
                assert(before.contains(r) <==> src.take(i - 1).contains(r));
                assert(src.take(i as int).contains(r) <==> (src.take(i - 1).contains(r) || r
                    == row));
            }
        }
    }
    assert(src.take(i as int) =~= src);
    out
}

/// A tally stays one when its rows are put in another order.
proof fn lemma_tally_reordered(
    rows: Seq<(Seq<char>, u64)>,
    out: Seq<(Seq<char>, u64)>,
    o: RowOrder,
    log: Seq<EntryView>,
    since: Seq<char>,
    until: Seq<char>,
    f: Facet,
)
    requires
        is_tally(rows, log, since, until, f),
        rows_sorted(out, o),
        forall|r: (Seq<char>, u64)| out.contains(r) <==> rows.contains(r),
    ensures
        is_tally(out, log, since, until, f),
{
    assert forall|i: int| 0 <= i < out.len() implies label_present(
        log,
        since,
        until,
        f,
        (#[trigger] out[i]).0,
    ) && out[i].1 == label_secs(log, since, until, f, out[i].0) by {
        assert(out.contains(out[i]));
        let j = choose|j: int| 0 <= j < rows.len() && rows[j] == out[i];
    }
    assert forall|label: Seq<char>| label_present(log, since, until, f, label) implies has_row(
        out,
        label,
    ) by {
        assert(has_row(rows, label));
        let j = choose|j: int| 0 <= j < rows.len() && (#[trigger] rows[j]).0 == label;
        assert(rows.contains(rows[j]));
        assert(out.contains(rows[j]));
        let i = choose|i: int| 0 <= i < out.len() && out[i] == rows[j];
        assert(out[i].0 == label);
    }
    assert forall|i: int, j: int| 0 <= i < j < out.len() implies (#[trigger] out[i]).0 != (
    #[trigger] out[j]).0 by {
        if out[i].0 == out[j].0 {
            assert(out[i].1 == out[j].1);
            assert(row_before(o, out[i], out[j]));
            lemma_row_before_irreflexive(o, out[i]);
        }
    }
}

/// Aggregated report figures over a date range.
#[derive(Debug, PartialEq, Eq)]
pub struct Aggregate {
    /// (category, seconds), sorted by seconds descending.
    pub by_category: Vec<(String, u64)>,
    /// (project, seconds), sorted by seconds descending.
    pub by_project: Vec<(String, u64)>,
    pub total: u64,
}

impl Default for Aggregate {
    fn default() -> (r: Self)
        ensures
            r.by_category@.len() == 0,
            r.by_project@.len() == 0,
            r.total == 0,
    {
        Aggregate { by_category: Vec::new(), by_project: Vec::new(), total: 0 }
    }
}

impl TimeLog {
    /// Aggregate seconds within the inclusive date range `[since, until]`
    /// (lexicographic comparison works for "YYYY-MM-DD"). Returns per-category
    /// and per-project totals (each sorted by time, descending) and the grand
    /// total.
    pub fn aggregate(&self, since: &str, until: &str) -> (r: Aggregate)
        requires
            total_secs(self@, since@, until@) <= u64::MAX,
        ensures
            is_tally(row_views(r.by_category@), self@, since@, until@, Facet::Category),
            rows_sorted(row_views(r.by_category@), RowOrder::ByTime),
            is_tally(row_views(r.by_project@), self@, since@, until@, Facet::Project),
            rows_sorted(row_views(r.by_project@), RowOrder::ByTime),
            r.total == total_secs(self@, since@, until@),
    {
        proof {
            assert forall|f: Facet, label: Seq<char>| #[trigger] label_secs(
                self@,
                since@,
                until@,
                f,
                label,
            ) <= u64::MAX by {
                lemma_label_within_total(self@, since@, until@, f, label);
            }
        }
        let categories = self.tally(since, until, Facet::Category);
        let projects = self.tally(since, until, Facet::Project);
        let total: u64 = self.total(since, until);
        let by_category = sort_rows(categories, RowOrder::ByTime);
        let by_project = sort_rows(projects, RowOrder::ByTime);
        proof {
            lemma_tally_reordered(
                row_views(categories@),
                row_views(by_category@),
                RowOrder::ByTime,
                self@,
                since@,
                until@,
                Facet::Category,
            );
            lemma_tally_reordered(
                row_views(projects@),
                row_views(by_project@),
                RowOrder::ByTime,
                self@,
                since@,
                until@,
                Facet::Project,
            );
        }
        Aggregate { by_category, by_project, total }
    }

    /// Whether the seconds of all entries in the range add up to a number that
    /// can be held.
    pub fn can_total(&self, since: &str, until: &str) -> (r: bool)
        ensures
            r == (total_secs(self@, since@, until@) <= u64::MAX),
    {
        let ghost log = self@;
        let mut total: u64 = 0;
        let mut i: usize = 0;
        while i < self.entries.len()
            invariant
                i <= self.entries@.len(),
                log == self@,
                log.len() == self.entries@.len(),
                total == total_secs(log.take(i as int), since@, until@),
            decreases self.entries@.len() - i,
        {
            proof {
                assert(log[i as int] == self.entries@[i as int]@);
                assert(log.take(i + 1).drop_last() =~= log.take(i as int));
                lemma_total_grows(log, since@, until@, i + 1);
            }
            if self.entries[i].within(since, until) {
                if self.entries[i].secs > u64::MAX - total {
                    return false;
                }
                total = total + self.entries[i].secs;
            }
            i += 1;
        }
        assert(log.take(i as int) =~= log);
        true
    }

    /// The seconds of all entries in the range.
    fn total(&self, since: &str, until: &str) -> (r: u64)
        requires
            total_secs(self@, since@, until@) <= u64::MAX,
        ensures
            r == total_secs(self@, since@, until@),
    {
        let ghost log = self@;
        let mut total: u64 = 0;
        let mut i: usize = 0;
        while i < self.entries.len()
            invariant
                i <= self.entries@.len(),
                log == self@,
                log.len() == self.entries@.len(),
                total_secs(log, since@, until@) <= u64::MAX,
                total == total_secs(log.take(i as int), since@, until@),
            decreases self.entries@.len() - i,
        {
            proof {
                assert(log[i as int] == self.entries@[i as int]@);
                assert(log.take(i + 1).drop_last() =~= log.take(i as int));
                lemma_total_grows(log, since@, until@, i + 1);
            }
            if self.entries[i].within(since, until) {
                total = total + self.entries[i].secs;
            }
            i += 1;
        }
        assert(log.take(i as int) =~= log);
        total
    }

    /// Per-day totals within `[since, until]`, sorted by date ascending.
    pub fn daily_totals(&self, since: &str, until: &str) -> (r: Vec<(String, u64)>)
        requires
            forall|day: Seq<char>|
                #[trigger] label_secs(self@, since@, until@, Facet::Day, day) <= u64::MAX,
        ensures
            is_tally(row_views(r@), self@, since@, until@, Facet::Day),
            rows_sorted(row_views(r@), RowOrder::ByLabel),
    {
        let rows = self.tally(since, until, Facet::Day);
        let out = sort_rows(rows, RowOrder::ByLabel);
        proof {
            lemma_tally_reordered(
                row_views(rows@),
                row_views(out@),
                RowOrder::ByLabel,
                self@,
                since@,
                until@,
                Facet::Day,
            );
        }
        out
    }
}

// ---------------------------------------------------------------------------
// Laws
// ---------------------------------------------------------------------------

/// A report is determined by the log and the range: two sorted tallies of the
/// same log are the same rows in the same order.
pub proof fn law_report_is_determined(
    a: Seq<(Seq<char>, u64)>,
    b: Seq<(Seq<char>, u64)>,
    o: RowOrder,
    log: Seq<EntryView>,
    since: Seq<char>,
    until: Seq<char>,
    f: Facet,
)
    requires
        is_tally(a, log, since, until, f),
        is_tally(b, log, since, until, f),
        rows_sorted(a, o),
        rows_sorted(b, o),
    ensures
        a == b,
{
    lemma_prefix_agrees(a, b, o, log, since, until, f, 0);
}

/// Where two sorted tallies agree up to `k`, they agree behind it.
proof fn lemma_prefix_agrees(
    a: Seq<(Seq<char>, u64)>,
    b: Seq<(Seq<char>, u64)>,
    o: RowOrder,
    log: Seq<EntryView>,
    since: Seq<char>,
    until: Seq<char>,
    f: Facet,
    k: int,
)
    requires
        is_tally(a, log, since, until, f),
        is_tally(b, log, since, until, f),
        rows_sorted(a, o),
        rows_sorted(b, o),
        0 <= k <= a.len(),
        k <= b.len(),
        forall|j: int| 0 <= j < k ==> a[j] == b[j],
    ensures
        a == b,
    decreases a.len() - k,
{
    if k < a.len() {
        let i = lemma_row_found(a, b, log, since, until, f, k);
        if i < k {
            assert(a[i] == a[k]);
            assert(row_before(o, a[i], a[k]));
            lemma_row_before_irreflexive(o, a[k]);
        }
        let j = lemma_row_found(b, a, log, since, until, f, k);
        if j < k {
            assert(b[j] == b[k]);
            assert(row_before(o, b[j], b[k]));
            lemma_row_before_irreflexive(o, b[k]);
        }
        if i > k && j > k {
            assert(row_before(o, b[k], b[i]));
            assert(row_before(o, a[k], a[j]));
            lemma_row_before_transitive(o, a[k], b[k], a[k]);
            lemma_row_before_irreflexive(o, a[k]);
        }
        assert(a[k] == b[k]);
        lemma_prefix_agrees(a, b, o, log, since, until, f, k + 1);
    } else if k < b.len() {
        let j = lemma_row_found(b, a, log, since, until, f, k);
        assert(b[j] == b[k]);
        assert(row_before(o, b[j], b[k]));
        lemma_row_before_irreflexive(o, b[k]);
    } else {
        assert(a =~= b);
    }
}

/// Row `k` of one tally stands somewhere in the other.
proof fn lemma_row_found(
    a: Seq<(Seq<char>, u64)>,
    b: Seq<(Seq<char>, u64)>,
    log: Seq<EntryView>,
    since: Seq<char>,
    until: Seq<char>,
    f: Facet,
    k: int,
) -> (i: int)
    requires
        is_tally(a, log, since, until, f),
        is_tally(b, log, since, until, f),
        0 <= k < a.len(),
    ensures
        0 <= i < b.len(),
        b[i] == a[k],
{
    assert(label_present(log, since, until, f, a[k].0));
    assert(has_row(b, a[k].0));
    let i = choose|i: int| 0 <= i < b.len() && (#[trigger] b[i]).0 == a[k].0;
    assert(b[i].1 == a[k].1);
    i
}

/// The seconds of the rows, added up.
pub open spec fn rows_sum(rows: Seq<(Seq<char>, u64)>) -> int
    decreases rows.len(),
{
    if rows.len() == 0 {
        0
    } else {
        rows_sum(rows.drop_last()) + rows.last().1
    }
}

/// Seconds of the entries in the range whose label is among the first `k` rows.
spec fn covered_secs(
    log: Seq<EntryView>,
    since: Seq<char>,
    until: Seq<char>,
    f: Facet,
    rows: Seq<(Seq<char>, u64)>,
) -> int
    decreases log.len(),
{
    if log.len() == 0 {
        0
    } else {
        let rest = covered_secs(log.drop_last(), since, until, f, rows);
        if in_range(log.last(), since, until) && has_row(rows, facet_of(log.last(), f)) {
            rest + log.last().secs
        } else {
            rest
        }
    }
}

proof fn lemma_covered_push(
    log: Seq<EntryView>,
    since: Seq<char>,
    until: Seq<char>,
    f: Facet,
    rows: Seq<(Seq<char>, u64)>,
    row: (Seq<char>, u64),
)
    requires
        !has_row(rows, row.0),
    ensures
        covered_secs(log, since, until, f, rows.push(row)) == covered_secs(
            log,
            since,
            until,
            f,
            rows,
        ) + label_secs(log, since, until, f, row.0),
    decreases log.len(),
{
    if log.len() > 0 {
        lemma_covered_push(log.drop_last(), since, until, f, rows, row);
        let l = facet_of(log.last(), f);
        let more = rows.push(row);
        if has_row(more, l) {
            let i = choose|i: int| 0 <= i < more.len() && (#[trigger] more[i]).0 == l;
            if i < rows.len() {
                assert(rows[i].0 == l);
            }
        }
        if has_row(rows, l) {
            let i = choose|i: int| 0 <= i < rows.len() && (#[trigger] rows[i]).0 == l;
            assert(more[i].0 == l);
        }
        if l == row.0 {
            assert(more[rows.len() as int].0 == l);
        }
    }
}

proof fn lemma_covered_sum(
    rows: Seq<(Seq<char>, u64)>,
    k: int,
    log: Seq<EntryView>,
    since: Seq<char>,
    until: Seq<char>,
    f: Facet,
)
    requires
        is_tally(rows, log, since, until, f),
        0 <= k <= rows.len(),
    ensures
        rows_sum(rows.take(k)) == covered_secs(log, since, until, f, rows.take(k)),
    decreases k,
{
    if k == 0 {
        lemma_covered_none(log, since, until, f, rows.take(0));
    } else {
        lemma_covered_sum(rows, k - 1, log, since, until, f);
        let part = rows.take(k - 1);
        let row = rows[k - 1];
        assert(rows.take(k) =~= part.push(row));
        assert(rows.take(k).drop_last() =~= part);
        if has_row(part, row.0) {
            let i = choose|i: int| 0 <= i < part.len() && (#[trigger] part[i]).0 == row.0;
            assert(rows[i].0 == rows[k - 1].0);
        }
        lemma_covered_push(log, since, until, f, part, row);
    }
}

proof fn lemma_covered_none(
    log: Seq<EntryView>,
    since: Seq<char>,
    until: Seq<char>,
    f: Facet,
    rows: Seq<(Seq<char>, u64)>,
)
    requires
        rows.len() == 0,
    ensures
        covered_secs(log, since, until, f, rows) == 0,
    decreases log.len(),
{
    if log.len() > 0 {
        lemma_covered_none(log.drop_last(), since, until, f, rows);
    }
}

proof fn lemma_covered_all(
    log: Seq<EntryView>,
    k: int,
    since: Seq<char>,
    until: Seq<char>,
    f: Facet,
    rows: Seq<(Seq<char>, u64)>,
)
    requires
        is_tally(rows, log, since, until, f),
        0 <= k <= log.len(),
    ensures
        covered_secs(log.take(k), since, until, f, rows) == total_secs(log.take(k), since, until),
    decreases k,
{
    if k > 0 {
        lemma_covered_all(log, k - 1, since, until, f, rows);
        assert(log.take(k).drop_last() =~= log.take(k - 1));
        let e = log[k - 1];
        if in_range(e, since, until) {
            assert(label_present(log, since, until, f, facet_of(e, f)));
        }
    }
}

/// Nothing is lost or counted twice: the rows of a report add up to the total.
pub proof fn law_report_adds_up(
    rows: Seq<(Seq<char>, u64)>,
    log: Seq<EntryView>,
    since: Seq<char>,
    until: Seq<char>,
    f: Facet,
)
    requires
        is_tally(rows, log, since, until, f),
    ensures
        rows_sum(rows) == total_secs(log, since, until),
{
    lemma_covered_sum(rows, rows.len() as int, log, since, until, f);
    assert(rows.take(rows.len() as int) =~= rows);
    lemma_covered_all(log, log.len() as int, since, until, f, rows);
    assert(log.take(log.len() as int) =~= log);
}

/// Recording time adds exactly that time to any range that holds the day, and
/// nothing to a range that does not.
pub proof fn law_recorded_time_is_reported(
    log: Seq<EntryView>,
    date: Seq<char>,
    task: TaskId,
    project: Seq<char>,
    category: Seq<char>,
    secs: u64,
    since: Seq<char>,
    until: Seq<char>,
)
    requires
        record_fits(log, date, task, secs),
    ensures
        total_secs(recorded(log, date, task, project, category, secs), since, until) == total_secs(
            log,
            since,
            until,
        ) + if date.len() > 0 && !text::text_lt(date, since) && !text::text_lt(until, date) {
            secs as int
        } else {
            0
        },
{
    let k = row_index(log, date, task);
    lemma_row_index(log, date, task);
    let after = recorded(log, date, task, project, category, secs);
    if secs == 0 || date.len() == 0 {
    } else if k < log.len() {
        lemma_total_update(log, k, after[k], since, until);
    } else {
        assert(after.drop_last() =~= log);
    }
}

proof fn lemma_total_update(
    log: Seq<EntryView>,
    k: int,
    e: EntryView,
    since: Seq<char>,
    until: Seq<char>,
)
    requires
        0 <= k < log.len(),
        e.date == log[k].date,
    ensures
        total_secs(log.update(k, e), since, until) == total_secs(log, since, until) + if in_range(
            e,
            since,
            until,
        ) {
            e.secs - log[k].secs
        } else {
            0
        },
    decreases log.len(),
{
    let after = log.update(k, e);
    if k == log.len() - 1 {
        assert(after.drop_last() =~= log.drop_last());
    } else {
        lemma_total_update(log.drop_last(), k, e, since, until);
        assert(after.drop_last() =~= log.drop_last().update(k, e));
    }
}

/// An entry counts in a report exactly when its day lies in the range, both ends
/// included: in the total, and under its category, project or day.
pub proof fn law_entries_count_in_their_range(
    log: Seq<EntryView>,
    e: EntryView,
    since: Seq<char>,
    until: Seq<char>,
    f: Facet,
    label: Seq<char>,
)
    ensures
        ({
            let all = log.push(e);
            let inside = (e.date == since || text::text_lt(since, e.date)) && (e.date == until
                || text::text_lt(e.date, until));
            let named = match f {
                Facet::Category => e.category == label,
                Facet::Project => e.project == label,
                Facet::Day => e.date == label,
            };
            &&& inside ==> total_secs(all, since, until) == total_secs(log, since, until) + e.secs
            &&& !inside ==> total_secs(all, since, until) == total_secs(log, since, until)
            &&& inside && named ==> label_secs(all, since, until, f, label) == label_secs(
                log,
                since,
                until,
                f,
                label,
            ) + e.secs
            &&& !(inside && named) ==> label_secs(all, since, until, f, label) == label_secs(
                log,
                since,
                until,
                f,
                label,
            )
            &&& inside && named ==> label_present(all, since, until, f, label)
            &&& !(inside && named) ==> label_present(all, since, until, f, label) == label_present(
                log,
                since,
                until,
                f,
                label,
            )
        }),
        total_secs(Seq::empty(), since, until) == 0,
        label_secs(Seq::empty(), since, until, f, label) == 0,
        !label_present(Seq::empty(), since, until, f, label),
{
    let all = log.push(e);
    assert(all.drop_last() =~= log);
    assert(all.last() == e);
    text::lemma_text_lt_total(e.date, since);
    text::lemma_text_lt_total(e.date, until);
    text::lemma_text_lt_irreflexive(e.date);
    if text::text_lt(since, e.date) && text::text_lt(e.date, since) {
        text::lemma_text_lt_transitive(since, e.date, since);
        text::lemma_text_lt_irreflexive(since);
    }
    if text::text_lt(until, e.date) && text::text_lt(e.date, until) {
        text::lemma_text_lt_transitive(until, e.date, until);
        text::lemma_text_lt_irreflexive(until);
    }
    if in_range(e, since, until) && facet_of(e, f) == label {
        assert(in_range(all[log.len() as int], since, until));
    } else {
        if label_present(log, since, until, f, label) {
            let i = choose|i: int|
                0 <= i < log.len() && in_range(#[trigger] log[i], since, until) && facet_of(
                    log[i],
                    f,
                ) == label;
            assert(all[i] == log[i]);
        }
        if label_present(all, since, until, f, label) {
            let i = choose|i: int|
                0 <= i < all.len() && in_range(#[trigger] all[i], since, until) && facet_of(
                    all[i],
                    f,
                ) == label;
            assert(i < log.len());
            assert(all[i] == log[i]);
        }
    }
}

/// Rows by time go from the most time to the least, and by label where it is the
/// same; rows by label go up.
pub proof fn law_rows_are_in_order(rows: Seq<(Seq<char>, u64)>, i: int, j: int)
    requires
        0 <= i < j < rows.len(),
    ensures
        rows_sorted(rows, RowOrder::ByTime) ==> rows[i].1 >= rows[j].1 && (rows[i].1 == rows[j].1
            ==> text::text_lt(rows[i].0, rows[j].0)),
        rows_sorted(rows, RowOrder::ByLabel) ==> text::text_lt(rows[i].0, rows[j].0),
{
    if rows_sorted(rows, RowOrder::ByTime) {
        assert(row_before(RowOrder::ByTime, rows[i], rows[j]));
    }
    if rows_sorted(rows, RowOrder::ByLabel) {
        assert(row_before(RowOrder::ByLabel, rows[i], rows[j]));
    }
}

/// A tally has a row for each label that occurs, with all its time, and no other.
pub proof fn law_tally_has_one_row_per_label(
    rows: Seq<(Seq<char>, u64)>,
    log: Seq<EntryView>,
    since: Seq<char>,
    until: Seq<char>,
    f: Facet,
    label: Seq<char>,
    secs: u64,
)
    requires
        is_tally(rows, log, since, until, f),
    ensures
        rows.contains((label, secs)) <==> label_present(log, since, until, f, label) && secs
            == label_secs(log, since, until, f, label),
        rows.no_duplicates(),
{
    if label_present(log, since, until, f, label) && secs == label_secs(
        log,
        since,
        until,
        f,
        label,
    ) {
        assert(has_row(rows, label));
        let i = choose|i: int| 0 <= i < rows.len() && (#[trigger] rows[i]).0 == label;
        assert(rows[i] == (label, secs));
    }
    if rows.contains((label, secs)) {
        let i = choose|i: int| 0 <= i < rows.len() && rows[i] == (label, secs);
        assert(rows[i].0 == label);
    }
    assert forall|i: int, j: int| 0 <= i < rows.len() && 0 <= j < rows.len() && i != j implies rows[i]
        != rows[j] by {
        if i < j {
            assert(rows[i].0 != rows[j].0);
        } else {
            assert(rows[j].0 != rows[i].0);
        }
    }
}

/// Time is added to the row of its day and task, which takes the latest names; a
/// day and task without one get a row at the end. Every other row stays.
pub proof fn law_recording_adds_to_one_row(
    log: Seq<EntryView>,
    date: Seq<char>,
    task: TaskId,
    project: Seq<char>,
    category: Seq<char>,
    secs: u64,
    i: int,
)
    requires
        one_row_each(log),
        record_fits(log, date, task, secs),
        secs > 0,
        date.len() > 0,
    ensures
        ({
            let r = recorded(log, date, task, project, category, secs);
            &&& 0 <= i < log.len() && log[i].date == date && log[i].task_id == task ==> {
                &&& r.len() == log.len()
                &&& r[i].date == date && r[i].task_id == task
                &&& r[i].project == project && r[i].category == category
                &&& r[i].secs == log[i].secs + secs
            }
            &&& 0 <= i < log.len() && !(log[i].date == date && log[i].task_id == task) ==> r[i]
                == log[i]
            &&& (forall|j: int|
                0 <= j < log.len() ==> !((#[trigger] log[j]).date == date && log[j].task_id
                    == task)) ==> r == log.push(
                EntryView { date, task_id: task, project, category, secs },
            )
        }),
{
    lemma_row_index(log, date, task);
    let k = row_index(log, date, task);
    if 0 <= i < log.len() && log[i].date == date && log[i].task_id == task && k < i {
        assert(log[k].date == log[i].date);
    }
}

} // verus!
