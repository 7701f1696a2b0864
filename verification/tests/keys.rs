use focuswm::event::Command;
use focuswm::keys::{evdev_button, evdev_keycode, forward_key, send_key_tap, special_keycode};
use focuswm::report::{
    build_report, checked_report, date_key, fmt_dur, fmt_short, report_day, week_fits,
};
use focuswm::tasklist::TaskList;

#[test]
fn evdev_letters_and_shift() {
    assert_eq!(evdev_keycode("a"), Some((30, false)));
    assert_eq!(evdev_keycode("A"), Some((30, true)));
    assert_eq!(evdev_keycode("q"), Some((16, false)));
}

#[test]
fn main_evdev_letters_and_shift() {
    assert_eq!(evdev_keycode("a"), Some((30, false)));
    assert_eq!(evdev_keycode("A"), Some((30, true)));
    assert_eq!(evdev_keycode("q"), Some((16, false)));
}

#[test]
fn evdev_digits_and_symbols() {
    assert_eq!(evdev_keycode("1"), Some((2, false)));
    assert_eq!(evdev_keycode("!"), Some((2, true)));
    assert_eq!(evdev_keycode("/"), Some((53, false)));
    assert_eq!(evdev_keycode("?"), Some((53, true)));
}

#[test]
fn main_evdev_digits_and_symbols() {
    assert_eq!(evdev_keycode("1"), Some((2, false)));
    assert_eq!(evdev_keycode("!"), Some((2, true)));
    assert_eq!(evdev_keycode("/"), Some((53, false)));
    assert_eq!(evdev_keycode("?"), Some((53, true)));
}

#[test]
fn evdev_special_keys() {
    assert_eq!(evdev_keycode(" "), Some((57, false)));
    assert_eq!(evdev_keycode("\u{000a}"), Some((28, false)));
    assert_eq!(evdev_keycode("\u{0008}"), Some((14, false)));
}

#[test]
fn main_evdev_special_keys() {
    assert_eq!(evdev_keycode(" "), Some((57, false)));
    assert_eq!(evdev_keycode("\u{000a}"), Some((28, false)));
    assert_eq!(evdev_keycode("\u{0008}"), Some((14, false)));
}

#[test]
fn evdev_arrows_and_nav() {
    assert_eq!(evdev_keycode("\u{F700}"), Some((103, false))); // Up
    assert_eq!(evdev_keycode("\u{F703}"), Some((106, false))); // Right
    assert_eq!(evdev_keycode("\u{F729}"), Some((102, false))); // Home
    assert_eq!(evdev_keycode("\u{007f}"), Some((111, false))); // Delete
}

#[test]
fn evdev_function_keys() {
    assert_eq!(evdev_keycode("\u{F704}"), Some((59, false))); // F1
    assert_eq!(evdev_keycode("\u{F70D}"), Some((68, false))); // F10
    assert_eq!(evdev_keycode("\u{F70E}"), Some((87, false))); // F11
    assert_eq!(evdev_keycode("\u{F70F}"), Some((88, false))); // F12
}

#[test]
fn fmt_dur_shows_exact_seconds() {
    assert_eq!(fmt_dur(0), "0s");
    assert_eq!(fmt_dur(45), "45s");
    assert_eq!(fmt_dur(90), "1m 30s");
    assert_eq!(fmt_dur(3600), "1h 0m 0s");
    assert_eq!(fmt_dur(3661), "1h 1m 1s");
    assert_eq!(fmt_short(0), "");
    assert_eq!(fmt_short(45), "45s");
    assert_eq!(fmt_short(120), "2m");
    assert_eq!(fmt_short(7200), "2h");
}

#[test]
fn buttons_map_to_evdev() {
    assert_eq!(evdev_button(1), 0x110);
    assert_eq!(evdev_button(2), 0x111);
    assert_eq!(evdev_button(3), 0x112);
}

#[test]
fn main_buttons_map_to_evdev() {
    assert_eq!(evdev_button(1), 0x110);
    assert_eq!(evdev_button(2), 0x111);
    assert_eq!(evdev_button(3), 0x112);
}

#[test]
fn special_keys_route_to_keycodes_text_does_not() {
    // Navigation / control keys keep the keycode path.
    assert_eq!(special_keycode("\u{000a}"), Some(28)); // Return
    assert_eq!(special_keycode("\u{0008}"), Some(14)); // Backspace
    assert_eq!(special_keycode(" "), Some(57)); // Space
    assert_eq!(special_keycode("\u{F700}"), Some(103)); // Up arrow
    assert_eq!(special_keycode("\u{F704}"), Some(59)); // F1
    // Printable text (incl. non-US / accented) is typed as Unicode instead.
    assert_eq!(special_keycode("a"), None);
    assert_eq!(special_keycode("~"), None);
    assert_eq!(special_keycode("é"), None);
    assert_eq!(special_keycode("1"), None);
}

fn key(keycode: u32, pressed: bool) -> Command {
    Command::Key { keycode, pressed }
}

#[test]
fn a_tap_wraps_the_key_in_its_modifiers() {
    assert_eq!(
        send_key_tap(30, true, true, true, false),
        vec![
            key(29, true),
            key(56, true),
            key(42, true),
            key(30, true),
            key(30, false),
            key(42, false),
            key(56, false),
            key(29, false),
        ]
    );
    assert_eq!(send_key_tap(30, false, false, false, false), vec![key(30, true), key(30, false)]);
}

#[test]
fn text_is_typed_and_shortcuts_are_tapped() {
    assert_eq!(forward_key("é", false, false, false), vec![Command::TypeText("é".into())]);
    assert_eq!(
        forward_key("c", true, false, false),
        vec![key(29, true), key(46, true), key(46, false), key(29, false)]
    );
    assert_eq!(
        forward_key("\u{F700}", false, false, false),
        vec![key(103, true), key(103, false)]
    );
    assert!(forward_key("", false, false, false).is_empty());
    assert_eq!(evdev_keycode("é"), None);
    assert_eq!(evdev_button(9), 0x110);
}

// March 1, 2024 was a Friday.
const FRIDAY: i32 = 738946;

#[test]
fn days_are_written_as_dates() {
    assert_eq!(date_key(1), "0001-01-01");
    assert_eq!(date_key(FRIDAY), "2024-03-01");
    assert_eq!(date_key(FRIDAY - 1), "2024-02-29");
    assert!(date_key(FRIDAY - 1) < date_key(FRIDAY));
    assert_eq!(date_key(3_652_059), "9999-12-31");
    assert!(week_fits(FRIDAY));
    assert!(!week_fits(i32::MAX));
    assert_eq!(date_key(-95_746_129), "-262143-01-01");
    assert_eq!(date_key(95_745_399), "+262142-12-31");
}

#[test]
fn navigation_stops_at_today() {
    assert_eq!(report_day(FRIDAY, -7, FRIDAY), FRIDAY - 7);
    assert_eq!(report_day(FRIDAY, 1, FRIDAY), FRIDAY);
    assert_eq!(report_day(FRIDAY - 3, 1, FRIDAY), FRIDAY - 2);
}

#[test]
fn a_report_shows_the_day_in_its_week() {
    let mut list = TaskList::new();
    let a = list.add_task("Fix bug", "work");
    let b = list.add_task("Docs", "writing");
    list.set_date("2024-02-28");
    list.set_active(a, 0);
    list.flush(3600);
    list.set_date("2024-03-01");
    list.set_active(b, 3600 + 90);
    list.flush(3600 + 90 + 45);
    let r = checked_report(&list, FRIDAY, FRIDAY + 2).expect("sums fit");
    assert_eq!(r.day_label, "Fri Mar 01");
    assert_eq!(r.week_label, "Feb 26 \u{2013} Mar 03");
    assert_eq!(r.day_total, "2m 15s");
    assert_eq!(r.week_total, "1h 2m 15s");
    assert!(r.can_forward);
    let labels: Vec<&str> = r.week_bars.iter().map(|b| b.label.as_str()).collect();
    assert_eq!(labels, vec!["Mon", "Tue", "Wed", "Thu", "Fri", "Sat", "Sun"]);
    let secs: Vec<u64> = r.week_bars.iter().map(|b| b.secs).collect();
    assert_eq!(secs, vec![0, 0, 3600, 0, 135, 0, 0]);
    assert_eq!(secs.iter().sum::<u64>(), 3735);
    assert!(r.week_bars[4].selected && !r.week_bars[2].selected);
    assert_eq!(r.week_bars[4].scale, 3600);
    assert_eq!(r.week_bars[4].value, "2m");
    assert_eq!(r.by_category[0].label, "work");
    assert_eq!(r.by_category[0].week, "1h 1m 30s");
    assert_eq!(r.by_category[0].today, "1m 30s");
    assert_eq!(r.by_project[1].label, "Docs");
    assert_eq!(r.by_project[1].today, "45s");
    let last = build_report(&list, FRIDAY, FRIDAY);
    assert!(!last.can_forward);
}

#[test]
fn a_report_is_refused_when_its_week_overflows() {
    let mut list = TaskList::new();
    let a = list.add_task("Long", "work");
    let b = list.add_task("Longer", "work");
    list.set_date("2024-02-28");
    list.set_active(a, 0);
    list.flush(u64::MAX - 1);
    list.set_date("2024-03-01");
    list.set_active(b, 0);
    list.flush(u64::MAX);
    assert_eq!(checked_report(&list, FRIDAY, FRIDAY), None);
    // Another week is not affected.
    let other = checked_report(&list, FRIDAY - 7, FRIDAY).expect("an empty week");
    assert_eq!(other.week_total, "0s");
}
