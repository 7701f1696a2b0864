//! The time report: one day, the week around it, and how they are labelled.
//!
//! A calendar day is its number in the proleptic Gregorian calendar, with
//! January 1 of year 1 as day 1.

use chrono::Datelike;
use vstd::prelude::*;

use crate::scan;
use crate::tasklist::TaskList;
use crate::text;
use crate::timelog;
use crate::timelog::{EntryView, Facet, RowOrder, TimeLog};

verus! {

// ---------------------------------------------------------------------------
// Calendar
// ---------------------------------------------------------------------------

/// The days that the calendar can represent: January 1 of year -262143 up to
/// December 31 of year 262142.
pub open spec fn valid_day(day: int) -> bool {
    -95_746_129 <= day <= 95_745_399
}

/// The weekday of a day, counted from Monday = 0. Day 1 was a Monday.
pub open spec fn weekday(day: int) -> int {
    (day - 1) % 7
}

/// `chrono::NaiveDate::weekday` and `Weekday::num_days_from_monday` on the date
/// with the given day number: weekdays repeat every seven days, and day 1 is a
/// Monday.
#[verifier::external_body]
fn days_from_monday(day: i32) -> (r: u32)
    requires
        valid_day(day as int),
    ensures
        r == weekday(day as int),
{
    let date = chrono::NaiveDate::from_num_days_from_ce_opt(day).unwrap_or_default();
    date.weekday().num_days_from_monday()
}

/// The short name of a weekday, counted from Monday = 0.
pub open spec fn weekday_name(n: int) -> Seq<char> {
    if n == 0 {
        "Mon"@
    } else if n == 1 {
        "Tue"@
    } else if n == 2 {
        "Wed"@
    } else if n == 3 {
        "Thu"@
    } else if n == 4 {
        "Fri"@
    } else if n == 5 {
        "Sat"@
    } else {
        "Sun"@
    }
}

/// The patterns by which days are formatted.
pub open spec fn known_pattern(p: Seq<char>) -> bool {
    p == "%Y-%m-%d"@ || p == "%a"@ || p == "%b %d"@ || p == "%a %b %d"@
}

/// A day formatted by a pattern.
pub uninterp spec fn formatted_day(day: int, pattern: Seq<char>) -> Seq<char>;

/// The key under which a day is logged ("YYYY-MM-DD").
pub open spec fn day_key(day: int) -> Seq<char> {
    formatted_day(day, "%Y-%m-%d"@)
}

/// The days from January 1 of year 1 up to December 31 of year 9999: their years
/// are written with four digits.
pub open spec fn common_day(day: int) -> bool {
    1 <= day <= 3_652_059
}

/// Whether `key` stands between the keys of the earlier and the later days.
pub open spec fn key_in_order(day: int, key: Seq<char>) -> bool {
    common_day(day) ==> forall|d: int|
        #![trigger day_key(d)]
        common_day(d) ==> (d < day ==> text::text_lt(day_key(d), key)) && (d > day
            ==> text::text_lt(key, day_key(d)))
}

/// `chrono::NaiveDate::format` on the date with the given day number. What the
/// text is for a pattern is left to the name; it depends on the day and the
/// pattern alone. Year, month and day of the key are padded with zeros to four
/// and two digits, so up to the year 9999 keys are in the order of their days. The
/// pattern "%a" alone gives the short name of the weekday.
#[verifier::external_body]
fn format_day(day: i32, pattern: &str) -> (r: String)
    requires
        valid_day(day as int),
        known_pattern(pattern@),
    ensures
        r@ == formatted_day(day as int, pattern@),
        pattern@ == "%Y-%m-%d"@ ==> key_in_order(day as int, r@),
        pattern@ == "%a"@ ==> r@ == weekday_name(weekday(day as int)),
{
    let date = chrono::NaiveDate::from_num_days_from_ce_opt(day).unwrap_or_default();
    date.format(pattern).to_string()
}

/// The Monday of the week that a day lies in.
pub open spec fn monday_of(day: int) -> int {
    day - weekday(day)
}

/// Whether the whole week of a day can be represented.
pub open spec fn week_ok(day: int) -> bool {
    valid_day(day) && valid_day(monday_of(day)) && valid_day(monday_of(day) + 6)
}

/// Whether the whole week of a day can be represented.
pub fn week_fits(day: i32) -> (r: bool)
    ensures
        r == week_ok(day as int),
{
    if day < -95_746_129 || day > 95_745_399 {
        return false;
    }
    let monday: i32 = day - days_from_monday(day) as i32;
    monday >= -95_746_129 && monday + 6 <= 95_745_399
}

/// The key under which a day is logged ("YYYY-MM-DD").
pub fn date_key(day: i32) -> (r: String)
    requires
        valid_day(day as int),
    ensures
        r@ == day_key(day as int),
        key_in_order(day as int, r@),
{
    format_day(day, "%Y-%m-%d")
}

/// The day the report shows after moving by `delta` days: never past today.
pub fn report_day(anchor: i32, delta: i32, today: i32) -> (r: i32)
    requires
        i32::MIN <= anchor + delta <= i32::MAX,
    ensures
        r == if anchor + delta <= today {
            anchor + delta
        } else {
            today as int
        },
        r <= today,
        r <= anchor + delta,
        r == today || r == anchor + delta,
{
    let next: i32 = anchor + delta;
    if next <= today {
        next
    } else {
        today
    }
}

// ---------------------------------------------------------------------------
// Durations
// ---------------------------------------------------------------------------

/// A duration as "Xh Ym Zs", without leading zero units.
pub open spec fn dur_text(secs: nat) -> Seq<char> {
    let h = secs / 3600;
    let m = (secs % 3600) / 60;
    let s = secs % 60;
    let seconds = scan::decimal(s) + "s"@;
    let minutes = scan::decimal(m) + "m "@ + seconds;
    if h > 0 {
        scan::decimal(h) + "h "@ + minutes
    } else if m > 0 {
        minutes
    } else {
        seconds
    }
}

/// A duration in its largest unit; nothing for no time.
pub open spec fn short_text(secs: nat) -> Seq<char> {
    let h = secs / 3600;
    let m = (secs % 3600) / 60;
    if h > 0 {
        scan::decimal(h) + "h"@
    } else if m > 0 {
        scan::decimal(m) + "m"@
    } else if secs > 0 {
        scan::decimal(secs) + "s"@
    } else {
        Seq::empty()
    }
}

/// Appends a number and a unit.
fn push_unit(out: &mut String, n: u64, unit: &str)
    ensures
        final(out)@ == old(out)@ + (scan::decimal(n as nat) + unit@),
{
    let ghost before = out@;
    let digits = scan::decimal_chars(n);
    text::append(out, text::text_of(&digits).as_str());
    text::append(out, unit);
    assert(out@ =~= before + (scan::decimal(n as nat) + unit@));
}

/// Format a duration in seconds as "Xh Ym Zs" (dropping leading zero units), so
/// reports show the exact tracked time down to the second.
pub fn fmt_dur(secs: u64) -> (r: String)
    ensures
        r@ == dur_text(secs as nat),
{
    let h: u64 = secs / 3600;
    let m: u64 = (secs % 3600) / 60;
    let s: u64 = secs % 60;
    let mut out = String::new();
    if h > 0 {
        push_unit(&mut out, h, "h ");
        push_unit(&mut out, m, "m ");
    } else if m > 0 {
        push_unit(&mut out, m, "m ");
    }
    push_unit(&mut out, s, "s");
    assert(out@ =~= dur_text(secs as nat));
    out
}

/// Short duration for the bar-graph labels: "2h", "30m", "45s", or "" for zero.
pub fn fmt_short(secs: u64) -> (r: String)
    ensures
        r@ == short_text(secs as nat),
{
    let h: u64 = secs / 3600;
    let m: u64 = (secs % 3600) / 60;
    let mut out = String::new();
    if h > 0 {
        push_unit(&mut out, h, "h");
    } else if m > 0 {
        push_unit(&mut out, m, "m");
    } else if secs > 0 {
        push_unit(&mut out, secs, "s");
    }
    assert(out@ =~= short_text(secs as nat));
    out
}

// ---------------------------------------------------------------------------
// The report
// ---------------------------------------------------------------------------

/// One row of a breakdown.
#[derive(Debug, PartialEq, Eq)]
pub struct ReportRow {
    pub label: String,
    pub today: String,
    pub week: String,
}

/// One bar of the week's graph; its height is `secs` of `scale`.
#[derive(Debug, PartialEq, Eq)]
pub struct DayBar {
    pub label: String,
    pub value: String,
    pub secs: u64,
    pub scale: u64,
    pub selected: bool,
}

/// The figures of a time report.
#[derive(Debug, PartialEq, Eq)]
pub struct Report {
    pub day_label: String,
    pub week_label: String,
    pub day_total: String,
    pub week_total: String,
    pub week_bars: Vec<DayBar>,
    pub by_category: Vec<ReportRow>,
    pub by_project: Vec<ReportRow>,
    pub can_forward: bool,
}

/// Seconds logged on a day.
pub open spec fn secs_on(log: Seq<EntryView>, day: int) -> int {
    timelog::total_secs(log, day_key(day), day_key(day))
}

/// Whether the sums that a report forms can be held: those of the week and of
/// each of its days.
pub open spec fn report_fits(log: Seq<EntryView>, anchor: int) -> bool {
    let monday = monday_of(anchor);
    &&& timelog::total_secs(log, day_key(monday), day_key(monday + 6)) <= u64::MAX
    &&& forall|i: int| 0 <= i < 7 ==> secs_on(log, #[trigger] (monday + i)) <= u64::MAX
}

/// The rows show a tally of the week in order of time, with each label's time
/// on the day beside it.
pub open spec fn shows_tally(
    rows: Seq<ReportRow>,
    week: Seq<(Seq<char>, u64)>,
    log: Seq<EntryView>,
    day: int,
    f: Facet,
) -> bool {
    &&& rows.len() == week.len()
    &&& forall|i: int|
        0 <= i < rows.len() ==> {
            &&& (#[trigger] rows[i]).label@ == week[i].0
            &&& rows[i].week@ == dur_text(week[i].1 as nat)
            &&& rows[i].today@ == dur_text(
                timelog::label_secs(log, day_key(day), day_key(day), f, week[i].0) as nat,
            )
        }
}

/// The rows of one breakdown of the week around a day.
pub open spec fn is_breakdown(rows: Seq<ReportRow>, log: Seq<EntryView>, day: int, f: Facet) -> bool {
    exists|week: Seq<(Seq<char>, u64)>|
        {
            &&& timelog::is_tally(
                week,
                log,
                day_key(monday_of(day)),
                day_key(monday_of(day) + 6),
                f,
            )
            &&& timelog::rows_sorted(week, RowOrder::ByTime)
            &&& #[trigger] shows_tally(rows, week, log, day, f)
        }
}

/// The most seconds logged on one of the first `n` days of a week, but at least
/// one.
pub open spec fn busiest(log: Seq<EntryView>, monday: int, n: nat) -> int
    decreases n,
{
    if n == 0 {
        1
    } else {
        let before = busiest(log, monday, (n - 1) as nat);
        let last = secs_on(log, monday + n - 1);
        if last > before {
            last
        } else {
            before
        }
    }
}

/// The text between the ends of a week.
pub open spec fn dash() -> Seq<char> {
    seq![' ', '\u{2013}', ' ']
}

/// The figures for the selected day: its total, the week's total with one bar per
/// day scaled to the busiest one, and the breakdowns of the week.
pub open spec fn is_report(r: Report, log: Seq<EntryView>, anchor: int, today: int) -> bool {
    let monday = monday_of(anchor);
    &&& r.day_label@ == formatted_day(anchor, "%a %b %d"@)
    &&& r.week_label@ == formatted_day(monday, "%b %d"@) + dash() + formatted_day(
        monday + 6,
        "%b %d"@,
    )
    &&& r.day_total@ == dur_text(secs_on(log, anchor) as nat)
    &&& r.week_total@ == dur_text(
        timelog::total_secs(log, day_key(monday), day_key(monday + 6)) as nat,
    )
    &&& r.week_bars@.len() == 7
    &&& forall|i: int|
        0 <= i < 7 ==> {
            &&& (#[trigger] r.week_bars@[i]).label@ == weekday_name(i)
            &&& r.week_bars@[i].value@ == short_text(secs_on(log, monday + i) as nat)
            &&& r.week_bars@[i].secs == secs_on(log, monday + i)
            &&& r.week_bars@[i].scale == busiest(log, monday, 7)
            &&& r.week_bars@[i].selected == (monday + i == anchor)
        }
    &&& is_breakdown(r.by_category@, log, anchor, Facet::Category)
    &&& is_breakdown(r.by_project@, log, anchor, Facet::Project)
    &&& r.can_forward == (anchor < today)
}

/// The rows of a breakdown from the aggregates of the week and the day.
fn rows_of(
    week: &Vec<(String, u64)>,
    day: &Vec<(String, u64)>,
    Ghost(log): Ghost<Seq<EntryView>>,
    Ghost(key): Ghost<int>,
    Ghost(f): Ghost<Facet>,
) -> (r: Vec<ReportRow>)
    requires
        timelog::is_tally(timelog::row_views(day@), log, day_key(key), day_key(key), f),
    ensures
        shows_tally(r@, timelog::row_views(week@), log, key, f),
{
    let ghost ws = timelog::row_views(week@);
    let ghost ds = timelog::row_views(day@);
    let mut out: Vec<ReportRow> = Vec::new();
    let mut i: usize = 0;
    while i < week.len()
        invariant
            i <= week@.len(),
            ws == timelog::row_views(week@),
            ds == timelog::row_views(day@),
            timelog::is_tally(ds, log, day_key(key), day_key(key), f),
            out@.len() == i,
            forall|j: int|
                0 <= j < i ==> {
                    &&& (#[trigger] out@[j]).label@ == ws[j].0
                    &&& out@[j].week@ == dur_text(ws[j].1 as nat)
                    &&& out@[j].today@ == dur_text(
                        timelog::label_secs(log, day_key(key), day_key(key), f, ws[j].0) as nat,
                    )
                },
        decreases week@.len() - i,
    {
        let label = week[i].0.as_str();
        let mut secs: u64 = 0;
        let mut k: usize = 0;
        let mut found: bool = false;
        while k < day.len() && !found
            invariant
                k <= day@.len(),
                ds == timelog::row_views(day@),
                timelog::is_tally(ds, log, day_key(key), day_key(key), f),
                found ==> secs == timelog::label_secs(log, day_key(key), day_key(key), f, label@),
                !found ==> secs == 0 && forall|j: int|
                    0 <= j < k ==> (#[trigger] ds[j]).0 != label@,
            decreases day@.len() - k, if found { 0int } else { 1int },
        {
            assert(ds[k as int] == (day@[k as int].0@, day@[k as int].1));
            if text::same_text(day[k].0.as_str(), label) {
                secs = day[k].1;
                found = true;
            } else {
                k += 1;
            }
        }
        proof {
            assert(ws[i as int] == (week@[i as int].0@, week@[i as int].1));
            if !found {
                if timelog::label_present(log, day_key(key), day_key(key), f, label@) {
                    assert(timelog::has_row(ds, label@));
                }
                timelog::lemma_absent_label(log, day_key(key), day_key(key), f, label@);
            }
        }
        out.push(
            ReportRow {
                label: text::copy_text(label),
                today: fmt_dur(secs),
                week: fmt_dur(week[i].1),
            },
        );
        i += 1;
    }
    out
}

/// Seconds logged on the first `n` days of a week.
pub open spec fn week_sum(log: Seq<EntryView>, monday: int, n: nat) -> int
    decreases n,
{
    if n == 0 {
        0
    } else {
        week_sum(log, monday, (n - 1) as nat) + secs_on(log, monday + n - 1)
    }
}

/// Whether every entry is logged under the key of a day with a four-digit year.
pub open spec fn logged_by_day(log: Seq<EntryView>) -> bool {
    forall|i: int|
        0 <= i < log.len() ==> exists|d: int|
            common_day(d) && (#[trigger] log[i]).date == #[trigger] day_key(d)
}

/// Whether the keys of a week's days are in order.
spec fn week_in_order(monday: int) -> bool {
    forall|i: int|
        0 <= i < 7 ==> key_in_order(#[trigger] (monday + i), day_key(monday + i))
}

/// The keys of a range hold exactly the days between.
proof fn lemma_range_of_days(e: EntryView, d: int, first: int, last: int)
    requires
        common_day(d),
        common_day(first),
        common_day(last),
        first <= last,
        e.date == day_key(d),
        key_in_order(first, day_key(first)),
        key_in_order(last, day_key(last)),
    ensures
        timelog::in_range(e, day_key(first), day_key(last)) == (first <= d <= last),
{
    let k = day_key(d);
    text::lemma_text_lt_irreflexive(k);
    if d < first {
        assert(text::text_lt(k, day_key(first)));
    } else if d > last {
        assert(text::text_lt(day_key(last), k));
    } else {
        if d > first {
            assert(text::text_lt(day_key(first), k));
            if text::text_lt(k, day_key(first)) {
                text::lemma_text_lt_transitive(k, day_key(first), k);
            }
        }
        if d < last {
            assert(text::text_lt(k, day_key(last)));
            if text::text_lt(day_key(last), k) {
                text::lemma_text_lt_transitive(k, day_key(last), k);
            }
        }
    }
}

/// One entry counts on its own day only.
proof fn lemma_week_sum_entry(log: Seq<EntryView>, monday: int, n: nat, d: int)
    requires
        log.len() > 0,
        n <= 7,
        common_day(d),
        common_day(monday),
        common_day(monday + 6),
        log.last().date == day_key(d),
        week_in_order(monday),
    ensures
        week_sum(log, monday, n) == week_sum(log.drop_last(), monday, n) + if monday <= d < monday
            + n {
            log.last().secs as int
        } else {
            0
        },
    decreases n,
{
    if n > 0 {
        lemma_week_sum_entry(log, monday, (n - 1) as nat, d);
        let day = monday + (n - 1);
        assert(key_in_order(day, day_key(day)));
        lemma_range_of_days(log.last(), d, day, day);
    }
}

/// The week's range holds what its days hold.
proof fn lemma_week_adds_up(log: Seq<EntryView>, monday: int)
    requires
        logged_by_day(log),
        common_day(monday),
        common_day(monday + 6),
        week_in_order(monday),
    ensures
        timelog::total_secs(log, day_key(monday), day_key(monday + 6)) == week_sum(log, monday, 7),
    decreases log.len(),
{
    if log.len() == 0 {
        reveal_with_fuel(week_sum, 8);
    } else {
        let front = log.drop_last();
        assert(logged_by_day(front)) by {
            assert forall|i: int| 0 <= i < front.len() implies exists|d: int|
                common_day(d) && (#[trigger] front[i]).date == #[trigger] day_key(d) by {
                assert(front[i] == log[i]);
            }
        }
        lemma_week_adds_up(front, monday);
        let d = choose|d: int|
            common_day(d) && log[log.len() - 1].date == #[trigger] day_key(d);
        assert(log.last() == log[log.len() - 1]);
        lemma_week_sum_entry(log, monday, 7, d);
        assert(key_in_order(monday + 0, day_key(monday + 0)));
        assert(key_in_order(monday + 6, day_key(monday + 6)));
        lemma_range_of_days(log.last(), d, monday, monday + 6);
    }
}

/// Seconds logged on each day of a week.
fn week_secs(log: &TimeLog, monday: i32) -> (r: Vec<u64>)
    requires
        valid_day(monday as int),
        valid_day(monday + 6),
        forall|i: int| 0 <= i < 7 ==> secs_on(log@, #[trigger] (monday + i)) <= u64::MAX,
    ensures
        r@.len() == 7,
        forall|i: int| 0 <= i < 7 ==> #[trigger] r@[i] == secs_on(log@, monday + i),
        week_in_order(monday as int),
{
    let mut out: Vec<u64> = Vec::new();
    let mut i: i32 = 0;
    while i < 7
        invariant
            0 <= i <= 7,
            valid_day(monday as int),
            valid_day(monday + 6),
            forall|j: int| 0 <= j < 7 ==> secs_on(log@, #[trigger] (monday + j)) <= u64::MAX,
            out@.len() == i,
            forall|j: int| 0 <= j < i ==> #[trigger] out@[j] == secs_on(log@, monday + j),
            forall|j: int|
                0 <= j < i ==> key_in_order(#[trigger] (monday + j), day_key(monday + j)),
        decreases 7 - i,
    {
        let key = date_key(monday + i);
        assert(secs_on(log@, monday + i as int) <= u64::MAX);
        let agg = log.aggregate(key.as_str(), key.as_str());
        out.push(agg.total);
        i += 1;
    }
    out
}

/// The most seconds of a day, but at least one.
fn scale_of(secs: &Vec<u64>, Ghost(log): Ghost<Seq<EntryView>>, Ghost(monday): Ghost<int>) -> (r: u64)
    requires
        forall|i: int| 0 <= i < secs@.len() ==> #[trigger] secs@[i] == secs_on(log, monday + i),
    ensures
        r == busiest(log, monday, secs@.len()),
{
    let mut top: u64 = 1;
    let mut i: usize = 0;
    while i < secs.len()
        invariant
            i <= secs@.len(),
            forall|j: int| 0 <= j < secs@.len() ==> #[trigger] secs@[j] == secs_on(log, monday + j),
            top == busiest(log, monday, i as nat),
        decreases secs@.len() - i,
    {
        if secs[i] > top {
            top = secs[i];
        }
        i += 1;
    }
    top
}

/// The bars of the week's graph.
fn bars_of(
    secs: &Vec<u64>,
    scale: u64,
    monday: i32,
    anchor: i32,
    Ghost(log): Ghost<Seq<EntryView>>,
) -> (r: Vec<DayBar>)
    requires
        valid_day(monday as int),
        valid_day(monday + 6),
        weekday(monday as int) == 0,
        secs@.len() == 7,
        forall|i: int| 0 <= i < 7 ==> #[trigger] secs@[i] == secs_on(log, monday + i),
        scale == busiest(log, monday as int, 7),
    ensures
        r@.len() == 7,
        forall|i: int|
            0 <= i < 7 ==> {
                &&& (#[trigger] r@[i]).label@ == weekday_name(i)
                &&& r@[i].value@ == short_text(secs_on(log, monday + i) as nat)
                &&& r@[i].secs == secs_on(log, monday + i)
                &&& r@[i].scale == busiest(log, monday as int, 7)
                &&& r@[i].selected == (monday + i == anchor)
            },
{
    let mut out: Vec<DayBar> = Vec::new();
    let mut i: usize = 0;
    while i < 7
        invariant
            i <= 7,
            valid_day(monday as int),
            valid_day(monday + 6),
            weekday(monday as int) == 0,
            secs@.len() == 7,
            forall|j: int| 0 <= j < 7 ==> #[trigger] secs@[j] == secs_on(log, monday + j),
            scale == busiest(log, monday as int, 7),
            out@.len() == i,
            forall|j: int|
                0 <= j < i ==> {
                    &&& (#[trigger] out@[j]).label@ == weekday_name(j)
                    &&& out@[j].value@ == short_text(secs_on(log, monday + j) as nat)
                    &&& out@[j].secs == secs_on(log, monday + j)
                    &&& out@[j].scale == busiest(log, monday as int, 7)
                    &&& out@[j].selected == (monday + j == anchor)
                },
        decreases 7 - i,
    {
        let day: i32 = monday + i as i32;
        let n: u64 = secs[i];
        out.push(
            DayBar {
                label: format_day(day, "%a"),
                value: fmt_short(n),
                secs: n,
                scale,
                selected: day == anchor,
            },
        );
        i += 1;
    }
    out
}

/// The total of a week is the sum of its bars, as long as every entry is logged
/// under the key of a day and years have four digits.
pub open spec fn week_adds_up(log: Seq<EntryView>, monday: int) -> bool {
    logged_by_day(log) && common_day(monday) && common_day(monday + 6) ==> timelog::total_secs(
        log,
        day_key(monday),
        day_key(monday + 6),
    ) == week_sum(log, monday, 7)
}

/// Compute the time-report figures for the selected `anchor` day: the day total,
/// the containing week's total + per-day bar graph, and the by-category /
/// by-project breakdowns (day + week columns).
pub fn build_report(list: &TaskList, anchor: i32, today: i32) -> (r: Report)
    requires
        week_ok(anchor as int),
        report_fits(list@.time_log, anchor as int),
    ensures
        is_report(r, list@.time_log, anchor as int, today as int),
        week_adds_up(list@.time_log, monday_of(anchor as int)),
{
    let log = list.time_log();
    let ghost entries = list@.time_log;
    let monday: i32 = anchor - days_from_monday(anchor) as i32;
    let sunday: i32 = monday + 6;
    let day = date_key(anchor);
    let first = date_key(monday);
    let last = date_key(sunday);
    proof {
        law_week_holds_its_days(anchor as int, anchor as int);
        assert(secs_on(entries, monday + (anchor - monday)) <= u64::MAX);
    }
    let day_agg = log.aggregate(day.as_str(), day.as_str());
    let week_agg = log.aggregate(first.as_str(), last.as_str());
    let by_category = rows_of(
        &week_agg.by_category,
        &day_agg.by_category,
        Ghost(entries),
        Ghost(anchor as int),
        Ghost(Facet::Category),
    );
    let by_project = rows_of(
        &week_agg.by_project,
        &day_agg.by_project,
        Ghost(entries),
        Ghost(anchor as int),
        Ghost(Facet::Project),
    );
    let secs = week_secs(log, monday);
    proof {
        if logged_by_day(entries) && common_day(monday as int) && common_day(sunday as int) {
            lemma_week_adds_up(entries, monday as int);
        }
    }
    let scale: u64 = scale_of(&secs, Ghost(entries), Ghost(monday as int));
    let week_bars = bars_of(&secs, scale, monday, anchor, Ghost(entries));
    let mut week_label = format_day(monday, "%b %d");
    let ghost start = week_label@;
    week_label.push(' ');
    week_label.push('\u{2013}');
    week_label.push(' ');
    assert(week_label@ =~= start + dash());
    text::append(&mut week_label, format_day(sunday, "%b %d").as_str());
    let r = Report {
        day_label: format_day(anchor, "%a %b %d"),
        week_label,
        day_total: fmt_dur(day_agg.total),
        week_total: fmt_dur(week_agg.total),
        week_bars,
        by_category,
        by_project,
        can_forward: anchor < today,
    };
    proof {
        let wc = timelog::row_views(week_agg.by_category@);
        let wp = timelog::row_views(week_agg.by_project@);
        assert(shows_tally(r.by_category@, wc, entries, anchor as int, Facet::Category));
        assert(is_breakdown(r.by_category@, entries, anchor as int, Facet::Category));
        assert(shows_tally(r.by_project@, wp, entries, anchor as int, Facet::Project));
        assert(is_breakdown(r.by_project@, entries, anchor as int, Facet::Project));
    }
    r
}

/// The report on a day, or `None` where its sums cannot be held.
pub fn checked_report(list: &TaskList, anchor: i32, today: i32) -> (r: Option<Report>)
    requires
        week_ok(anchor as int),
    ensures
        match r {
            Some(report) => report_fits(list@.time_log, anchor as int) && is_report(
                report,
                list@.time_log,
                anchor as int,
                today as int,
            ),
            None => !report_fits(list@.time_log, anchor as int),
        },
{
    let log = list.time_log();
    let ghost entries = list@.time_log;
    let monday: i32 = anchor - days_from_monday(anchor) as i32;
    let first = date_key(monday);
    let last = date_key(monday + 6);
    if !log.can_total(first.as_str(), last.as_str()) {
        return None;
    }
    let mut i: i32 = 0;
    while i < 7
        invariant
            0 <= i <= 7,
            monday == monday_of(anchor as int),
            valid_day(monday as int),
            valid_day(monday + 6),
            log@ == entries,
            entries == list@.time_log,
            forall|j: int| 0 <= j < i ==> secs_on(entries, #[trigger] (monday + j)) <= u64::MAX,
        decreases 7 - i,
    {
        let key = date_key(monday + i);
        if !log.can_total(key.as_str(), key.as_str()) {
            assert(secs_on(entries, monday + i as int) > u64::MAX);
            return None;
        }
        i += 1;
    }
    Some(build_report(list, anchor, today))
}

// ---------------------------------------------------------------------------
// Laws
// ---------------------------------------------------------------------------

/// A week runs from Monday to Sunday around the day, and every day of it has the
/// same Monday.
pub proof fn law_week_holds_its_days(day: int, other: int)
    ensures
        monday_of(day) <= day <= monday_of(day) + 6,
        weekday(monday_of(day)) == 0,
        monday_of(day) <= other <= monday_of(day) + 6 ==> monday_of(other) == monday_of(day),
{
}

/// Exactly one bar of the week is the selected day.
pub proof fn law_one_bar_is_selected(r: Report, log: Seq<EntryView>, anchor: int, today: int)
    requires
        is_report(r, log, anchor, today),
    ensures
        r.week_bars@[weekday(anchor)].selected,
        forall|i: int|
            0 <= i < 7 && i != weekday(anchor) ==> !(#[trigger] r.week_bars@[i]).selected,
{
    law_week_holds_its_days(anchor, anchor);
}

/// No bar is taller than the graph.
pub proof fn law_bars_are_within_scale(log: Seq<EntryView>, monday: int, n: nat, i: int)
    requires
        0 <= i < n,
    ensures
        secs_on(log, monday + i) <= busiest(log, monday, n),
        busiest(log, monday, n) >= 1,
    decreases n,
{
    if i < n - 1 {
        law_bars_are_within_scale(log, monday, (n - 1) as nat, i);
    } else {
        lemma_busiest_positive(log, monday, (n - 1) as nat);
    }
}

proof fn lemma_busiest_positive(log: Seq<EntryView>, monday: int, n: nat)
    ensures
        busiest(log, monday, n) >= 1,
    decreases n,
{
    if n > 0 {
        lemma_busiest_positive(log, monday, (n - 1) as nat);
    }
}

/// Durations lose nothing: hours, minutes and seconds add up to the whole.
pub proof fn law_duration_is_exact(secs: nat)
    ensures
        (secs / 3600) * 3600 + ((secs % 3600) / 60) * 60 + secs % 60 == secs,
        (secs % 3600) / 60 < 60,
        secs % 60 < 60,
{
}

/// Day 1 is a Monday, and each day is followed by the next weekday.
pub proof fn law_weekdays_follow_each_other(day: int)
    ensures
        weekday(1) == 0,
        0 <= weekday(day) < 7,
        weekday(day) < 6 ==> weekday(day + 1) == weekday(day) + 1,
        weekday(day) == 6 ==> weekday(day + 1) == 0,
{
}

/// A duration of hours, minutes and seconds is written with these, leaving out
/// the hours where there are none and the minutes where there is nothing above
/// the seconds.
pub proof fn law_duration_names_its_parts(h: nat, m: nat, s: nat)
    requires
        m < 60,
        s < 60,
    ensures
        ({
            let r = dur_text(3600 * h + 60 * m + s);
            let seconds = scan::decimal(s).push('s');
            let minutes = scan::decimal(m).push('m').push(' ');
            let hours = scan::decimal(h).push('h').push(' ');
            &&& h > 0 ==> r == hours + minutes + seconds
            &&& h == 0 && m > 0 ==> r == minutes + seconds
            &&& h == 0 && m == 0 ==> r == seconds
        }),
{
    let t = 3600 * h + 60 * m + s;
    lemma_clock(h, m, s);
    reveal_strlit("s");
    reveal_strlit("m ");
    reveal_strlit("h ");
    let r = dur_text(t);
    let seconds = scan::decimal(s).push('s');
    let minutes = scan::decimal(m).push('m').push(' ');
    let hours = scan::decimal(h).push('h').push(' ');
    assert(scan::decimal(s) + "s"@ =~= seconds);
    assert(scan::decimal(m) + "m "@ =~= minutes);
    assert(scan::decimal(h) + "h "@ =~= hours);
    if h > 0 {
        assert(r =~= hours + minutes + seconds);
    }
}

/// The short form names the largest unit alone; nothing is written for nothing.
pub proof fn law_short_duration_names_the_largest_part(h: nat, m: nat, s: nat)
    requires
        m < 60,
        s < 60,
    ensures
        ({
            let r = short_text(3600 * h + 60 * m + s);
            &&& h > 0 ==> r == scan::decimal(h).push('h')
            &&& h == 0 && m > 0 ==> r == scan::decimal(m).push('m')
            &&& h == 0 && m == 0 && s > 0 ==> r == scan::decimal(s).push('s')
            &&& h == 0 && m == 0 && s == 0 ==> r.len() == 0
        }),
{
    lemma_clock(h, m, s);
    reveal_strlit("s");
    reveal_strlit("m");
    reveal_strlit("h");
    assert(scan::decimal(s) + "s"@ =~= scan::decimal(s).push('s'));
    assert(scan::decimal(m) + "m"@ =~= scan::decimal(m).push('m'));
    assert(scan::decimal(h) + "h"@ =~= scan::decimal(h).push('h'));
}

proof fn lemma_clock(h: nat, m: nat, s: nat)
    requires
        m < 60,
        s < 60,
    ensures
        ({
            let t: nat = 3600 * h + 60 * m + s;
            t / 3600 == h && (t % 3600) / 60 == m && t % 60 == s
        }),
{
    let t: nat = 3600 * h + 60 * m + s;
    assert(t / 3600 == h);
    assert(t % 3600 == 60 * m + s);
    assert(t % 60 == s);
}

/// The bars are scaled by the busiest day of the week, or by one second where
/// nothing was counted.
pub proof fn law_scale_is_the_busiest_day(log: Seq<EntryView>, monday: int, n: nat)
    ensures
        busiest(log, monday, n) == 1 || exists|i: int|
            0 <= i < n && #[trigger] secs_on(log, monday + i) == busiest(log, monday, n),
        forall|i: int| 0 <= i < n ==> #[trigger] secs_on(log, monday + i) <= busiest(log, monday, n),
    decreases n,
{
    if n > 0 {
        let m = (n - 1) as nat;
        law_scale_is_the_busiest_day(log, monday, m);
        let before = busiest(log, monday, m);
        let last = secs_on(log, monday + (n - 1));
        assert(monday + n - 1 == monday + (n - 1));
        assert forall|i: int| 0 <= i < n implies #[trigger] secs_on(log, monday + i) <= busiest(
            log,
            monday,
            n,
        ) by {
            if i < m {
                assert(secs_on(log, monday + i) <= before);
            }
        }
        if last <= before && before != 1 {
            let i = choose|i: int|
                0 <= i < m && #[trigger] secs_on(log, monday + i) == busiest(log, monday, m);
            assert(secs_on(log, monday + i) == busiest(log, monday, n));
        }
    }
}

/// A report shows the seven days from the Monday on or before its day to the
/// Sunday after it, each with the time logged on it, and the totals of the day and
/// of the week; going forward ends today.
pub proof fn law_report_shows_the_week(
    r: Report,
    log: Seq<EntryView>,
    anchor: int,
    today: int,
    monday: int,
    i: int,
)
    requires
        is_report(r, log, anchor, today),
        monday <= anchor < monday + 7,
        (monday - 1) % 7 == 0,
        0 <= i < 7,
    ensures
        ({
            let day = formatted_day(monday + i, "%Y-%m-%d"@);
            let first = formatted_day(monday, "%Y-%m-%d"@);
            let last = formatted_day(monday + 6, "%Y-%m-%d"@);
            let chosen = formatted_day(anchor, "%Y-%m-%d"@);
            let bar = r.week_bars@[i];
            &&& r.week_bars@.len() == 7
            &&& bar.secs == timelog::total_secs(log, day, day)
            &&& bar.value@ == short_text(bar.secs as nat)
            &&& bar.label@ == seq![
                "Mon"@,
                "Tue"@,
                "Wed"@,
                "Thu"@,
                "Fri"@,
                "Sat"@,
                "Sun"@,
            ][i]
            &&& bar.selected <==> monday + i == anchor
            &&& bar.secs <= bar.scale
            &&& r.day_total@ == dur_text(timelog::total_secs(log, chosen, chosen) as nat)
            &&& r.week_total@ == dur_text(timelog::total_secs(log, first, last) as nat)
            &&& r.day_label@ == formatted_day(anchor, "%a %b %d"@)
            &&& r.week_label@ == formatted_day(monday, "%b %d"@) + seq![' ', '\u{2013}', ' ']
                + formatted_day(monday + 6, "%b %d"@)
            &&& r.can_forward <==> anchor < today
        }),
{
    assert(monday_of(anchor) == monday);
    law_bars_are_within_scale(log, monday, 7, i);
    assert(r.week_bars@[i].secs == secs_on(log, monday + i));
}

/// A breakdown has a row for each label with time in the week, most time first,
/// with the time of the week and that of the day.
pub proof fn law_breakdown_shows_day_and_week(
    rows: Seq<ReportRow>,
    log: Seq<EntryView>,
    day: int,
    f: Facet,
    monday: int,
    i: int,
    j: int,
)
    requires
        is_breakdown(rows, log, day, f),
        monday <= day < monday + 7,
        (monday - 1) % 7 == 0,
        0 <= i < rows.len(),
    ensures
        ({
            let first = formatted_day(monday, "%Y-%m-%d"@);
            let last = formatted_day(monday + 6, "%Y-%m-%d"@);
            let on = formatted_day(day, "%Y-%m-%d"@);
            let secs = timelog::label_secs(log, first, last, f, rows[i].label@);
            &&& timelog::label_present(log, first, last, f, rows[i].label@)
            &&& rows[i].week@ == dur_text(secs as nat)
            &&& rows[i].today@ == dur_text(
                timelog::label_secs(log, on, on, f, rows[i].label@) as nat,
            )
            &&& i < j < rows.len() ==> secs >= timelog::label_secs(
                log,
                first,
                last,
                f,
                rows[j].label@,
            )
        }),
{
    assert(monday_of(day) == monday);
    let week = choose|week: Seq<(Seq<char>, u64)>|
        {
            &&& timelog::is_tally(
                week,
                log,
                day_key(monday_of(day)),
                day_key(monday_of(day) + 6),
                f,
            )
            &&& timelog::rows_sorted(week, RowOrder::ByTime)
            &&& #[trigger] shows_tally(rows, week, log, day, f)
        };
    assert(rows[i].label@ == week[i].0);
    if i < j < rows.len() {
        assert(rows[j].label@ == week[j].0);
        timelog::law_rows_are_in_order(week, i, j);
    }
}

} // verus!
