//! Keys and buttons: from what the host reports to evdev codes, and from a key
//! press to the commands that reach the focused client.

use vstd::prelude::*;

use crate::event::Command;
use crate::text;

verus! {

/// evdev code of the left control key.
pub const KEY_LEFTCTRL: u32 = 29;

/// evdev code of the left shift key.
pub const KEY_LEFTSHIFT: u32 = 42;

/// evdev code of the left alt key.
pub const KEY_LEFTALT: u32 = 56;

/// The evdev code of a pointer-button index.
pub open spec fn button_code(btn: i32) -> u32 {
    if btn == 2 {
        0x111
    } else if btn == 3 {
        0x112
    } else {
        0x110
    }
}

/// Map a pointer-button index (1=left, 2=right, 3=middle) to an evdev code.
/// Anything else counts as the left button.
pub fn evdev_button(btn: i32) -> (r: u32)
    ensures
        r == button_code(btn),
{
    match btn {
        1 => 0x110,
        2 => 0x111,
        3 => 0x112,
        _ => 0x110,
    }
}

/// evdev codes of the letters, from `a` to `z`.
pub open spec fn letter_codes() -> Seq<u32> {
    seq![
        30, 48, 46, 32, 18, 33, 34, 35, 23, 36, 37, 38, 50, 49, 24, 25, 16, 19, 31, 20, 22, 47, 17,
        45, 21, 44,
    ]
}

/// The keys of the US layout that are neither letters nor control keys: the
/// character, the evdev code and whether shift is held.
pub open spec fn symbol_keys() -> Seq<(char, u32, bool)> {
    seq![
        ('1', 2, false), ('!', 2, true), ('2', 3, false), ('@', 3, true),
        ('3', 4, false), ('#', 4, true), ('4', 5, false), ('$', 5, true),
        ('5', 6, false), ('%', 6, true), ('6', 7, false), ('^', 7, true),
        ('7', 8, false), ('&', 8, true), ('8', 9, false), ('*', 9, true),
        ('9', 10, false), ('(', 10, true), ('0', 11, false), (')', 11, true),
        ('-', 12, false), ('_', 12, true), ('=', 13, false), ('+', 13, true),
        ('[', 26, false), ('{', 26, true), (']', 27, false), ('}', 27, true),
        (';', 39, false), (':', 39, true), ('\'', 40, false), ('"', 40, true),
        ('`', 41, false), ('~', 41, true), ('\\', 43, false), ('|', 43, true),
        (',', 51, false), ('<', 51, true), ('.', 52, false), ('>', 52, true),
        ('/', 53, false), ('?', 53, true),
    ]
}

/// evdev code of a key that types nothing or is the same on every layout. The
/// host reports these as control characters or private-use code points.
pub open spec fn control_code(ch: char) -> Option<u32> {
    let v = ch as int;
    if v == 0x08 {
        Some(14u32)
    } else if v == 0x09 {
        Some(15u32)
    } else if v == 0x0A || v == 0x0D {
        Some(28u32)
    } else if v == 0x1B {
        Some(1u32)
    } else if v == 0x7F {
        Some(111u32)
    } else if v == 0x20 {
        Some(57u32)
    } else if v == 0xF700 {
        Some(103u32)
    } else if v == 0xF701 {
        Some(108u32)
    } else if v == 0xF702 {
        Some(105u32)
    } else if v == 0xF703 {
        Some(106u32)
    } else if v == 0xF727 {
        Some(110u32)
    } else if v == 0xF729 {
        Some(102u32)
    } else if v == 0xF72B {
        Some(107u32)
    } else if v == 0xF72C {
        Some(104u32)
    } else if v == 0xF72D {
        Some(109u32)
    } else if 0xF704 <= v <= 0xF70D {
        Some((59 + (v - 0xF704)) as u32)
    } else if v == 0xF70E {
        Some(87u32)
    } else if v == 0xF70F {
        Some(88u32)
    } else {
        None
    }
}

/// Whether the character stands in the table at `k`, and not before.
pub open spec fn symbol_at(ch: char, k: int) -> bool {
    0 <= k < symbol_keys().len() && symbol_keys()[k].0 == ch && forall|j: int|
        0 <= j < k ==> (#[trigger] symbol_keys()[j]).0 != ch
}

/// The evdev code that types `ch` on the US layout, and whether shift is held.
pub open spec fn key_of(ch: char) -> Option<(u32, bool)> {
    let v = ch as int;
    match control_code(ch) {
        Some(code) => Some((code, false)),
        None => if 0x61 <= v <= 0x7A {
            Some((letter_codes()[v - 0x61], false))
        } else if 0x41 <= v <= 0x5A {
            Some((letter_codes()[v - 0x41], true))
        } else if exists|k: int| symbol_at(ch, k) {
            let k = choose|k: int| symbol_at(ch, k);
            Some((symbol_keys()[k].1, symbol_keys()[k].2))
        } else {
            None
        },
    }
}

/// The first character of a text.
pub open spec fn first_char(s: Seq<char>) -> Option<char> {
    if s.len() > 0 {
        Some(s[0])
    } else {
        None
    }
}

/// The key of a text: that of its first character.
pub open spec fn key_of_text(s: Seq<char>) -> Option<(u32, bool)> {
    match first_char(s) {
        Some(ch) => key_of(ch),
        None => None,
    }
}

/// The first character of a text.
fn head(s: &str) -> (r: Option<char>)
    ensures
        r == first_char(s@),
{
    let v = text::chars_of(s);
    if v.len() > 0 {
        Some(v[0])
    } else {
        None
    }
}

/// Executable form of [`control_code`].
fn control_keycode(ch: char) -> (r: Option<u32>)
    ensures
        r == control_code(ch),
{
    let v: u32 = text::code_point(ch);
    match v {
        0x08 => Some(14),
        0x09 => Some(15),
        0x0A | 0x0D => Some(28),
        0x1B => Some(1),
        0x7F => Some(111),
        0x20 => Some(57),
        0xF700 => Some(103),
        0xF701 => Some(108),
        0xF702 => Some(105),
        0xF703 => Some(106),
        0xF727 => Some(110),
        0xF729 => Some(102),
        0xF72B => Some(107),
        0xF72C => Some(104),
        0xF72D => Some(109),
        0xF70E => Some(87),
        0xF70F => Some(88),
        _ => if 0xF704 <= v && v <= 0xF70D {
            Some(59 + (v - 0xF704))
        } else {
            None
        },
    }
}

/// The letter codes as a table.
fn letter_table() -> (r: Vec<u32>)
    ensures
        r@ == letter_codes(),
{
    let r: Vec<u32> = vec![
        30, 48, 46, 32, 18, 33, 34, 35, 23, 36, 37, 38, 50, 49, 24, 25, 16, 19, 31, 20, 22, 47, 17,
        45, 21, 44,
    ];
    assert(r@ =~= letter_codes());
    r
}

/// The symbol keys as a table.
fn symbol_table() -> (r: Vec<(char, u32, bool)>)
    ensures
        r@ == symbol_keys(),
{
    let r: Vec<(char, u32, bool)> = vec![
        ('1', 2, false), ('!', 2, true), ('2', 3, false), ('@', 3, true),
        ('3', 4, false), ('#', 4, true), ('4', 5, false), ('$', 5, true),
        ('5', 6, false), ('%', 6, true), ('6', 7, false), ('^', 7, true),
        ('7', 8, false), ('&', 8, true), ('8', 9, false), ('*', 9, true),
        ('9', 10, false), ('(', 10, true), ('0', 11, false), (')', 11, true),
        ('-', 12, false), ('_', 12, true), ('=', 13, false), ('+', 13, true),
        ('[', 26, false), ('{', 26, true), (']', 27, false), ('}', 27, true),
        (';', 39, false), (':', 39, true), ('\'', 40, false), ('"', 40, true),
        ('`', 41, false), ('~', 41, true), ('\\', 43, false), ('|', 43, true),
        (',', 51, false), ('<', 51, true), ('.', 52, false), ('>', 52, true),
        ('/', 53, false), ('?', 53, true),
    ];
    assert(r@ =~= symbol_keys());
    r
}

/// Best-effort mapping of key text to a US-layout evdev keycode plus whether
/// shift is required to produce it.
pub fn evdev_keycode(s: &str) -> (r: Option<(u32, bool)>)
    ensures
        r == key_of_text(s@),
{
    let ch = match head(s) {
        Some(ch) => ch,
        None => return None,
    };
    if let Some(code) = control_keycode(ch) {
        return Some((code, false));
    }
    let v: u32 = text::code_point(ch);
    let letters = letter_table();
    assert(letters@.len() == 26);
    if 0x61 <= v && v <= 0x7A {
        return Some((letters[(v - 0x61) as usize], false));
    }
    if 0x41 <= v && v <= 0x5A {
        return Some((letters[(v - 0x41) as usize], true));
    }
    let symbols = symbol_table();
    let mut k: usize = 0;
    while k < symbols.len()
        invariant
            k <= symbols@.len(),
            symbols@ == symbol_keys(),
            first_char(s@) == Some(ch),
            control_code(ch) is None,
            !(0x61 <= ch as int <= 0x7A),
            !(0x41 <= ch as int <= 0x5A),
            forall|j: int| 0 <= j < k ==> (#[trigger] symbol_keys()[j]).0 != ch,
        decreases symbols@.len() - k,
    {
        let (c, code, shifted) = symbols[k];
        if c == ch {
            proof {
                assert(symbol_at(ch, k as int));
                let m = choose|m: int| symbol_at(ch, m);
                if m < k {
                    assert(symbol_keys()[m].0 != ch);
                } else if m > k {
                    assert(symbol_keys()[k as int].0 != ch);
                }
            }
            return Some((code, shifted));
        }
        k += 1;
    }
    None
}

/// Whether a character stands for a key rather than for text: a control
/// character, the space or one of the host's private-use key codes.
pub open spec fn is_special(ch: char) -> bool {
    ch as int == 0x20 || text::is_control_char(ch) || 0xF700 <= ch as int <= 0xF8FF
}

/// The code of a special key; nothing for text.
pub open spec fn special_of_text(s: Seq<char>) -> Option<u32> {
    match first_char(s) {
        Some(ch) => if is_special(ch) {
            match key_of(ch) {
                Some((code, _)) => Some(code),
                None => None,
            }
        } else {
            None
        },
        None => None,
    }
}

/// The keycode for a layout-independent special/navigation key (control codes
/// and the host's private-use key encodings, plus space), or `None` for
/// printable text that should be typed as Unicode instead.
pub fn special_keycode(s: &str) -> (r: Option<u32>)
    ensures
        r == special_of_text(s@),
{
    let ch = match head(s) {
        Some(ch) => ch,
        None => return None,
    };
    let v: u32 = text::code_point(ch);
    if !(v == 0x20 || text::char_is_control(ch) || (0xF700 <= v && v <= 0xF8FF)) {
        return None;
    }
    match evdev_keycode(s) {
        Some((code, _)) => Some(code),
        None => None,
    }
}

/// The presses of the held modifiers, in order: control, alt, shift.
pub open spec fn modifier_presses(ctrl: bool, alt: bool, shift: bool) -> Seq<(u32, bool)> {
    (if ctrl {
        seq![(KEY_LEFTCTRL, true)]
    } else {
        Seq::empty()
    }) + (if alt {
        seq![(KEY_LEFTALT, true)]
    } else {
        Seq::empty()
    }) + (if shift {
        seq![(KEY_LEFTSHIFT, true)]
    } else {
        Seq::empty()
    })
}

/// The releases of the held modifiers, in the reverse order.
pub open spec fn modifier_releases(ctrl: bool, alt: bool, shift: bool) -> Seq<(u32, bool)> {
    (if shift {
        seq![(KEY_LEFTSHIFT, false)]
    } else {
        Seq::empty()
    }) + (if alt {
        seq![(KEY_LEFTALT, false)]
    } else {
        Seq::empty()
    }) + (if ctrl {
        seq![(KEY_LEFTCTRL, false)]
    } else {
        Seq::empty()
    })
}

/// A tap: the modifiers go down, the key goes down and up, the modifiers go up.
pub open spec fn key_tap(code: u32, ctrl: bool, alt: bool, shift: bool) -> Seq<(u32, bool)> {
    modifier_presses(ctrl, alt, shift) + seq![(code, true), (code, false)] + modifier_releases(
        ctrl,
        alt,
        shift,
    )
}

/// The commands that carry key events.
pub open spec fn key_commands(taps: Seq<(u32, bool)>) -> Seq<Command> {
    taps.map_values(|t: (u32, bool)| Command::Key { keycode: t.0, pressed: t.1 })
}

/// Tap a key: press any held modifiers, press+release the key, release
/// modifiers.
pub fn send_key_tap(keycode: u32, needs_shift: bool, ctrl: bool, alt: bool, shift: bool) -> (r: Vec<
    Command,
>)
    ensures
        r@ == key_commands(key_tap(keycode, ctrl, alt, shift || needs_shift)),
{
    let want_shift: bool = shift || needs_shift;
    let mut out: Vec<Command> = Vec::new();
    if ctrl {
        out.push(Command::Key { keycode: KEY_LEFTCTRL, pressed: true });
    }
    if alt {
        out.push(Command::Key { keycode: KEY_LEFTALT, pressed: true });
    }
    if want_shift {
        out.push(Command::Key { keycode: KEY_LEFTSHIFT, pressed: true });
    }
    out.push(Command::Key { keycode, pressed: true });
    out.push(Command::Key { keycode, pressed: false });
    if want_shift {
        out.push(Command::Key { keycode: KEY_LEFTSHIFT, pressed: false });
    }
    if alt {
        out.push(Command::Key { keycode: KEY_LEFTALT, pressed: false });
    }
    if ctrl {
        out.push(Command::Key { keycode: KEY_LEFTCTRL, pressed: false });
    }
    assert(out@ =~= key_commands(key_tap(keycode, ctrl, alt, want_shift)));
    out
}

/// The characters of a text that are not control characters.
pub open spec fn printable(s: Seq<char>) -> Seq<char>
    decreases s.len(),
{
    if s.len() == 0 {
        s
    } else if text::is_control_char(s.last()) {
        printable(s.drop_last())
    } else {
        printable(s.drop_last()).push(s.last())
    }
}

/// What a key press sends to the focused client.
pub open spec fn key_press(
    s: Seq<char>,
    ctrl: bool,
    alt: bool,
    shift: bool,
    r: Seq<Command>,
) -> bool {
    match special_of_text(s) {
        Some(code) => r == key_commands(key_tap(code, ctrl, alt, shift)),
        None => if ctrl {
            match key_of_text(s) {
                Some((code, needs_shift)) => r == key_commands(
                    key_tap(code, ctrl, alt, shift || needs_shift),
                ),
                None => r.len() == 0,
            }
        } else if printable(s).len() > 0 {
            r.len() == 1 && match r[0] {
                Command::TypeText(t) => t@ == printable(s),
                _ => false,
            }
        } else {
            r.len() == 0
        },
    }
}

/// Forward a key press to the focused client. Three paths:
///
/// 1. Layout-independent special/navigation keys (Enter, Tab, Backspace, arrows,
///    F-keys, …): a keycode tap on the compositor's base layout.
/// 2. Ctrl[+Alt] shortcuts (Ctrl+C, Ctrl+Shift+V, …): the base key resolved on
///    the US layout, tapped with the held modifiers.
/// 3. Everything else is text the host already composed (letters, digits,
///    symbols, accents, AltGr layers, dead-key results), so the Unicode is typed
///    verbatim. This is what makes non-US layouts work.
pub fn forward_key(s: &str, ctrl: bool, alt: bool, shift: bool) -> (r: Vec<Command>)
    ensures
        key_press(s@, ctrl, alt, shift, r@),
{
    if let Some(code) = special_keycode(s) {
        return send_key_tap(code, false, ctrl, alt, shift);
    }
    let mut out: Vec<Command> = Vec::new();
    if ctrl {
        return match evdev_keycode(s) {
            Some((code, needs_shift)) => send_key_tap(code, needs_shift, ctrl, alt, shift),
            None => out,
        };
    }
    let v = text::chars_of(s);
    let mut typed: Vec<char> = Vec::new();
    let mut i: usize = 0;
    while i < v.len()
        invariant
            i <= v@.len(),
            typed@ == printable(v@.take(i as int)),
        decreases v@.len() - i,
    {
        proof {
            assert(v@.take(i + 1).drop_last() =~= v@.take(i as int));
        }
        if !text::char_is_control(v[i]) {
            typed.push(v[i]);
        }
        i += 1;
    }
    assert(v@.take(i as int) =~= v@);
    if typed.len() > 0 {
        out.push(Command::TypeText(text::text_of(&typed)));
    }
    out
}

// ---------------------------------------------------------------------------
// Laws
// ---------------------------------------------------------------------------

/// Whether every key that goes down comes up again, and none is left held.
pub open spec fn held(taps: Seq<(u32, bool)>, code: u32) -> int
    decreases taps.len(),
{
    if taps.len() == 0 {
        0
    } else {
        held(taps.drop_last(), code) + if taps.last().0 == code {
            if taps.last().1 {
                1int
            } else {
                -1
            }
        } else {
            0
        }
    }
}

proof fn lemma_held_append(a: Seq<(u32, bool)>, b: Seq<(u32, bool)>, code: u32)
    ensures
        held(a + b, code) == held(a, code) + held(b, code),
    decreases b.len(),
{
    if b.len() == 0 {
        assert(a + b =~= a);
    } else {
        lemma_held_append(a, b.drop_last(), code);
        assert((a + b).drop_last() =~= a + b.drop_last());
    }
}

proof fn lemma_held_one(t: (u32, bool), code: u32)
    ensures
        held(seq![t], code) == if t.0 == code {
            if t.1 {
                1int
            } else {
                -1
            }
        } else {
            0
        },
{
    assert(seq![t].drop_last() =~= Seq::<(u32, bool)>::empty());
    assert(held(seq![t].drop_last(), code) == 0);
    assert(seq![t].last() == t);
}

proof fn lemma_held_empty(code: u32)
    ensures
        held(Seq::empty(), code) == 0,
{
}

/// A tap leaves no key held: whatever went down comes up.
pub proof fn law_tap_releases_everything(key: u32, ctrl: bool, alt: bool, shift: bool, code: u32)
    ensures
        held(key_tap(key, ctrl, alt, shift), code) == 0,
{
    let e = Seq::<(u32, bool)>::empty();
    let c = if ctrl {
        seq![(KEY_LEFTCTRL, true)]
    } else {
        e
    };
    let a = if alt {
        seq![(KEY_LEFTALT, true)]
    } else {
        e
    };
    let s = if shift {
        seq![(KEY_LEFTSHIFT, true)]
    } else {
        e
    };
    let cr = if ctrl {
        seq![(KEY_LEFTCTRL, false)]
    } else {
        e
    };
    let ar = if alt {
        seq![(KEY_LEFTALT, false)]
    } else {
        e
    };
    let sr = if shift {
        seq![(KEY_LEFTSHIFT, false)]
    } else {
        e
    };
    let mid = seq![(key, true), (key, false)];
    lemma_held_append(c, a, code);
    lemma_held_append(c + a, s, code);
    lemma_held_append(sr, ar, code);
    lemma_held_append(sr + ar, cr, code);
    lemma_held_append(c + a + s, mid, code);
    lemma_held_append(c + a + s + mid, sr + ar + cr, code);
    lemma_held_one((KEY_LEFTCTRL, true), code);
    lemma_held_one((KEY_LEFTALT, true), code);
    lemma_held_one((KEY_LEFTSHIFT, true), code);
    lemma_held_one((KEY_LEFTCTRL, false), code);
    lemma_held_one((KEY_LEFTALT, false), code);
    lemma_held_one((KEY_LEFTSHIFT, false), code);
    lemma_held_one((key, true), code);
    lemma_held_one((key, false), code);
    lemma_held_empty(code);
    assert(mid =~= seq![(key, true)] + seq![(key, false)]);
    lemma_held_append(seq![(key, true)], seq![(key, false)], code);
}

/// Text that the host composed reaches the client verbatim: without control, a
/// text of printable characters that is no special key is typed as it is.
pub proof fn law_printable_text_is_typed_verbatim(
    s: Seq<char>,
    alt: bool,
    shift: bool,
    r: Seq<Command>,
)
    requires
        s.len() > 0,
        !is_special(s[0]),
        forall|i: int| 0 <= i < s.len() ==> !text::is_control_char(#[trigger] s[i]),
        key_press(s, false, alt, shift, r),
    ensures
        r.len() == 1,
        r[0] is TypeText,
        r[0]->TypeText_0@ == s,
{
    lemma_printable_all(s);
}

proof fn lemma_printable_all(s: Seq<char>)
    requires
        forall|i: int| 0 <= i < s.len() ==> !text::is_control_char(#[trigger] s[i]),
    ensures
        printable(s) == s,
    decreases s.len(),
{
    if s.len() > 0 {
        let d = s.drop_last();
        assert forall|i: int| 0 <= i < d.len() implies !text::is_control_char(#[trigger] d[i]) by {
            assert(d[i] == s[i]);
        }
        lemma_printable_all(d);
        assert(s.last() == s[s.len() - 1]);
        assert(d.push(s.last()) =~= s);
    }
}

/// Where a symbol stands in the table, or -1.
spec fn symbol_position(ch: char) -> int {
    if ch == '1' {
        0
    } else if ch == '!' {
        1
    } else if ch == '2' {
        2
    } else if ch == '@' {
        3
    } else if ch == '3' {
        4
    } else if ch == '#' {
        5
    } else if ch == '4' {
        6
    } else if ch == '$' {
        7
    } else if ch == '5' {
        8
    } else if ch == '%' {
        9
    } else if ch == '6' {
        10
    } else if ch == '^' {
        11
    } else if ch == '7' {
        12
    } else if ch == '&' {
        13
    } else if ch == '8' {
        14
    } else if ch == '*' {
        15
    } else if ch == '9' {
        16
    } else if ch == '(' {
        17
    } else if ch == '0' {
        18
    } else if ch == ')' {
        19
    } else if ch == '-' {
        20
    } else if ch == '_' {
        21
    } else if ch == '=' {
        22
    } else if ch == '+' {
        23
    } else if ch == '[' {
        24
    } else if ch == '{' {
        25
    } else if ch == ']' {
        26
    } else if ch == '}' {
        27
    } else if ch == ';' {
        28
    } else if ch == ':' {
        29
    } else if ch == '\'' {
        30
    } else if ch == '"' {
        31
    } else if ch == '`' {
        32
    } else if ch == '~' {
        33
    } else if ch == '\\' {
        34
    } else if ch == '|' {
        35
    } else if ch == ',' {
        36
    } else if ch == '<' {
        37
    } else if ch == '.' {
        38
    } else if ch == '>' {
        39
    } else if ch == '/' {
        40
    } else if ch == '?' {
        41
    } else {
        -1
    }
}

/// No symbol stands in the table twice.
proof fn lemma_symbol_position(k: int)
    requires
        0 <= k < symbol_keys().len(),
    ensures
        symbol_position(symbol_keys()[k].0) == k,
{
    assert(symbol_keys()[0].0 == '1');
    assert(symbol_keys()[1].0 == '!');
    assert(symbol_keys()[2].0 == '2');
    assert(symbol_keys()[3].0 == '@');
    assert(symbol_keys()[4].0 == '3');
    assert(symbol_keys()[5].0 == '#');
    assert(symbol_keys()[6].0 == '4');
    assert(symbol_keys()[7].0 == '$');
    assert(symbol_keys()[8].0 == '5');
    assert(symbol_keys()[9].0 == '%');
    assert(symbol_keys()[10].0 == '6');
    assert(symbol_keys()[11].0 == '^');
    assert(symbol_keys()[12].0 == '7');
    assert(symbol_keys()[13].0 == '&');
    assert(symbol_keys()[14].0 == '8');
    assert(symbol_keys()[15].0 == '*');
    assert(symbol_keys()[16].0 == '9');
    assert(symbol_keys()[17].0 == '(');
    assert(symbol_keys()[18].0 == '0');
    assert(symbol_keys()[19].0 == ')');
    assert(symbol_keys()[20].0 == '-');
    assert(symbol_keys()[21].0 == '_');
    assert(symbol_keys()[22].0 == '=');
    assert(symbol_keys()[23].0 == '+');
    assert(symbol_keys()[24].0 == '[');
    assert(symbol_keys()[25].0 == '{');
    assert(symbol_keys()[26].0 == ']');
    assert(symbol_keys()[27].0 == '}');
    assert(symbol_keys()[28].0 == ';');
    assert(symbol_keys()[29].0 == ':');
    assert(symbol_keys()[30].0 == '\'');
    assert(symbol_keys()[31].0 == '"');
    assert(symbol_keys()[32].0 == '`');
    assert(symbol_keys()[33].0 == '~');
    assert(symbol_keys()[34].0 == '\\');
    assert(symbol_keys()[35].0 == '|');
    assert(symbol_keys()[36].0 == ',');
    assert(symbol_keys()[37].0 == '<');
    assert(symbol_keys()[38].0 == '.');
    assert(symbol_keys()[39].0 == '>');
    assert(symbol_keys()[40].0 == '/');
    assert(symbol_keys()[41].0 == '?');
}

/// A symbol is typed by the key of its row in the table.
proof fn lemma_symbol_key(k: int)
    requires
        0 <= k < symbol_keys().len(),
        control_code(symbol_keys()[k].0) is None,
        !(0x61 <= symbol_keys()[k].0 as int <= 0x7A),
        !(0x41 <= symbol_keys()[k].0 as int <= 0x5A),
    ensures
        key_of(symbol_keys()[k].0) == Some((symbol_keys()[k].1, symbol_keys()[k].2)),
{
    let ch = symbol_keys()[k].0;
    lemma_symbol_position(k);
    assert forall|j: int| 0 <= j < k implies (#[trigger] symbol_keys()[j]).0 != ch by {
        lemma_symbol_position(j);
    }
    assert(symbol_at(ch, k));
    let m = choose|m: int| symbol_at(ch, m);
    lemma_symbol_position(m);
}

/// Each letter goes to its own key: the rows of the keyboard have consecutive
/// codes, from 16, 30 and 44 on. Capitals take the same keys with shift.
pub proof fn law_letter_keys_follow_the_rows(s: Seq<char>, i: int)
    requires
        s.len() > 0,
        0 <= i,
    ensures
        i < 10 && s[0] == "qwertyuiop"@[i] ==> key_of_text(s) == Some(((16 + i) as u32, false)),
        i < 10 && s[0] == "QWERTYUIOP"@[i] ==> key_of_text(s) == Some(((16 + i) as u32, true)),
        i < 9 && s[0] == "asdfghjkl"@[i] ==> key_of_text(s) == Some(((30 + i) as u32, false)),
        i < 9 && s[0] == "ASDFGHJKL"@[i] ==> key_of_text(s) == Some(((30 + i) as u32, true)),
        i < 7 && s[0] == "zxcvbnm"@[i] ==> key_of_text(s) == Some(((44 + i) as u32, false)),
        i < 7 && s[0] == "ZXCVBNM"@[i] ==> key_of_text(s) == Some(((44 + i) as u32, true)),
{
    reveal_strlit("qwertyuiop");
    reveal_strlit("QWERTYUIOP");
    reveal_strlit("asdfghjkl");
    reveal_strlit("ASDFGHJKL");
    reveal_strlit("zxcvbnm");
    reveal_strlit("ZXCVBNM");
    assert(letter_codes()[0] == 30);
    assert(letter_codes()[1] == 48);
    assert(letter_codes()[2] == 46);
    assert(letter_codes()[3] == 32);
    assert(letter_codes()[4] == 18);
    assert(letter_codes()[5] == 33);
    assert(letter_codes()[6] == 34);
    assert(letter_codes()[7] == 35);
    assert(letter_codes()[8] == 23);
    assert(letter_codes()[9] == 36);
    assert(letter_codes()[10] == 37);
    assert(letter_codes()[11] == 38);
    assert(letter_codes()[12] == 50);
    assert(letter_codes()[13] == 49);
    assert(letter_codes()[14] == 24);
    assert(letter_codes()[15] == 25);
    assert(letter_codes()[16] == 16);
    assert(letter_codes()[17] == 19);
    assert(letter_codes()[18] == 31);
    assert(letter_codes()[19] == 20);
    assert(letter_codes()[20] == 22);
    assert(letter_codes()[21] == 47);
    assert(letter_codes()[22] == 17);
    assert(letter_codes()[23] == 45);
    assert(letter_codes()[24] == 21);
    assert(letter_codes()[25] == 44);
}

/// What the table says of a symbol is what its key is.
proof fn lemma_symbol_row(ch: char, k: int, code: u32, shift: bool)
    requires
        0 <= k < symbol_keys().len(),
        symbol_keys()[k] == (ch, code, shift),
        control_code(ch) is None,
        !(0x61 <= ch as int <= 0x7A),
        !(0x41 <= ch as int <= 0x5A),
    ensures
        key_of(ch) == Some((code, shift)),
{
    lemma_symbol_key(k);
}

/// Digits and symbols follow the rows of the keyboard too, with consecutive codes
/// along each run of keys; the upper symbol of a key takes shift.
pub proof fn law_symbol_keys_follow_the_rows(s: Seq<char>, i: int)
    requires
        s.len() > 0,
        0 <= i,
    ensures
        i < 12 && s[0] == "1234567890-="@[i] ==> key_of_text(s) == Some(((2 + i) as u32, false)),
        i < 12 && s[0] == "!@#$%^&*()_+"@[i] ==> key_of_text(s) == Some(((2 + i) as u32, true)),
        i < 2 && s[0] == "[]"@[i] ==> key_of_text(s) == Some(((26 + i) as u32, false)),
        i < 2 && s[0] == "{}"@[i] ==> key_of_text(s) == Some(((26 + i) as u32, true)),
        i < 3 && s[0] == ";'`"@[i] ==> key_of_text(s) == Some(((39 + i) as u32, false)),
        i < 3 && s[0] == ":\"~"@[i] ==> key_of_text(s) == Some(((39 + i) as u32, true)),
        i < 1 && s[0] == "\\"@[i] ==> key_of_text(s) == Some(((43 + i) as u32, false)),
        i < 1 && s[0] == "|"@[i] ==> key_of_text(s) == Some(((43 + i) as u32, true)),
        i < 3 && s[0] == ",./"@[i] ==> key_of_text(s) == Some(((51 + i) as u32, false)),
        i < 3 && s[0] == "<>?"@[i] ==> key_of_text(s) == Some(((51 + i) as u32, true)),
{
    reveal_strlit("1234567890-=");
    reveal_strlit("!@#$%^&*()_+");
    reveal_strlit("[]");
    reveal_strlit("{}");
    reveal_strlit(";'`");
    reveal_strlit(":\"~");
    reveal_strlit("\\");
    reveal_strlit("|");
    reveal_strlit(",./");
    reveal_strlit("<>?");
    if s[0] == '1' {
        lemma_symbol_row(s[0], 0, 2, false);
    } else if s[0] == '!' {
        lemma_symbol_row(s[0], 1, 2, true);
    } else if s[0] == '2' {
        lemma_symbol_row(s[0], 2, 3, false);
    } else if s[0] == '@' {
        lemma_symbol_row(s[0], 3, 3, true);
    } else if s[0] == '3' {
        lemma_symbol_row(s[0], 4, 4, false);
    } else if s[0] == '#' {
        lemma_symbol_row(s[0], 5, 4, true);
    } else if s[0] == '4' {
        lemma_symbol_row(s[0], 6, 5, false);
    } else if s[0] == '$' {
        lemma_symbol_row(s[0], 7, 5, true);
    } else if s[0] == '5' {
        lemma_symbol_row(s[0], 8, 6, false);
    } else if s[0] == '%' {
        lemma_symbol_row(s[0], 9, 6, true);
    } else if s[0] == '6' {
        lemma_symbol_row(s[0], 10, 7, false);
    } else if s[0] == '^' {
        lemma_symbol_row(s[0], 11, 7, true);
    } else if s[0] == '7' {
        lemma_symbol_row(s[0], 12, 8, false);
    } else if s[0] == '&' {
        lemma_symbol_row(s[0], 13, 8, true);
    } else if s[0] == '8' {
        lemma_symbol_row(s[0], 14, 9, false);
    } else if s[0] == '*' {
        lemma_symbol_row(s[0], 15, 9, true);
    } else if s[0] == '9' {
        lemma_symbol_row(s[0], 16, 10, false);
    } else if s[0] == '(' {
        lemma_symbol_row(s[0], 17, 10, true);
    } else if s[0] == '0' {
        lemma_symbol_row(s[0], 18, 11, false);
    } else if s[0] == ')' {
        lemma_symbol_row(s[0], 19, 11, true);
    } else if s[0] == '-' {
        lemma_symbol_row(s[0], 20, 12, false);
    } else if s[0] == '_' {
        lemma_symbol_row(s[0], 21, 12, true);
    } else if s[0] == '=' {
        lemma_symbol_row(s[0], 22, 13, false);
    } else if s[0] == '+' {
        lemma_symbol_row(s[0], 23, 13, true);
    } else if s[0] == '[' {
        lemma_symbol_row(s[0], 24, 26, false);
    } else if s[0] == '{' {
        lemma_symbol_row(s[0], 25, 26, true);
    } else if s[0] == ']' {
        lemma_symbol_row(s[0], 26, 27, false);
    } else if s[0] == '}' {
        lemma_symbol_row(s[0], 27, 27, true);
    } else if s[0] == ';' {
        lemma_symbol_row(s[0], 28, 39, false);
    } else if s[0] == ':' {
        lemma_symbol_row(s[0], 29, 39, true);
    } else if s[0] == '\'' {
        lemma_symbol_row(s[0], 30, 40, false);
    } else if s[0] == '"' {
        lemma_symbol_row(s[0], 31, 40, true);
    } else if s[0] == '`' {
        lemma_symbol_row(s[0], 32, 41, false);
    } else if s[0] == '~' {
        lemma_symbol_row(s[0], 33, 41, true);
    } else if s[0] == '\\' {
        lemma_symbol_row(s[0], 34, 43, false);
    } else if s[0] == '|' {
        lemma_symbol_row(s[0], 35, 43, true);
    } else if s[0] == ',' {
        lemma_symbol_row(s[0], 36, 51, false);
    } else if s[0] == '<' {
        lemma_symbol_row(s[0], 37, 51, true);
    } else if s[0] == '.' {
        lemma_symbol_row(s[0], 38, 52, false);
    } else if s[0] == '>' {
        lemma_symbol_row(s[0], 39, 52, true);
    } else if s[0] == '/' {
        lemma_symbol_row(s[0], 40, 53, false);
    } else if s[0] == '?' {
        lemma_symbol_row(s[0], 41, 53, true);
    }
}

/// The navigation block has consecutive codes in the order home, up, page up,
/// left, right, end, down, page down, insert, delete; none of them takes shift.
pub proof fn law_navigation_keys_are_consecutive(s: Seq<char>, i: int)
    requires
        s.len() > 0,
        0 <= i < 10,
        s[0] as int == seq![
            0xF729int,
            0xF700,
            0xF72C,
            0xF702,
            0xF703,
            0xF72B,
            0xF701,
            0xF72D,
            0xF727,
            0x7F,
        ][i],
    ensures
        key_of_text(s) == Some(((102 + i) as u32, false)),
        special_of_text(s) == Some((102 + i) as u32),
{
}

/// The function keys F1 to F10 have consecutive codes from 59 on; F11 and F12
/// have 87 and 88.
pub proof fn law_function_keys(s: Seq<char>, n: int)
    requires
        s.len() > 0,
        1 <= n <= 12,
        s[0] as int == 0xF703 + n,
    ensures
        n <= 10 ==> special_of_text(s) == Some((58 + n) as u32),
        n > 10 ==> special_of_text(s) == Some((76 + n) as u32),
{
}

/// Escape, backspace, tab, enter and space are keys wherever they come from, and
/// no other character below the space has a key.
pub proof fn law_editing_keys(s: Seq<char>)
    requires
        s.len() > 0,
        s[0] as int <= 0x20,
    ensures
        ({
            let v = s[0] as int;
            special_of_text(s) == if v == 0x1B {
                Some(1u32)
            } else if v == 0x08 {
                Some(14u32)
            } else if v == 0x09 {
                Some(15u32)
            } else if v == 0x0A || v == 0x0D {
                Some(28u32)
            } else if v == 0x20 {
                Some(57u32)
            } else {
                None
            }
        }),
{
    if exists|k: int| symbol_at(s[0], k) {
        let k = choose|k: int| symbol_at(s[0], k);
        lemma_symbol_position(k);
    }
}

/// A text that starts with a printable ASCII character other than the space is no
/// special key, so it is typed rather than tapped.
pub proof fn law_text_is_no_special_key(s: Seq<char>)
    requires
        s.len() == 0 || 0x21 <= s[0] as int <= 0x7E || 0xA0 <= s[0] as int <= 0xD7FF || s[0] as int
            > 0xF8FF,
    ensures
        special_of_text(s) is None,
{
}

/// The pointer buttons have consecutive codes in the order left, right, middle;
/// an unknown index is the left button.
pub proof fn law_buttons_are_consecutive(btn: i32)
    ensures
        1 <= btn <= 3 ==> button_code(btn) == 271 + btn,
        !(1 <= btn <= 3) ==> button_code(btn) == 272,
{
}

/// A tap is its own mirror image: what goes down in the first half comes up in
/// the second in the reverse order, with the key itself innermost and control,
/// alt and shift around it from the outside in.
pub proof fn law_tap_is_symmetric(code: u32, ctrl: bool, alt: bool, shift: bool)
    ensures
        ({
            let t = key_tap(code, ctrl, alt, shift);
            let half = t.len() as int / 2;
            let c: int = if ctrl {
                1
            } else {
                0
            };
            let a: int = if alt {
                1
            } else {
                0
            };
            let s: int = if shift {
                1
            } else {
                0
            };
            &&& t.len() == 2 + 2 * (c + a + s)
            &&& forall|i: int| 0 <= i < half ==> (#[trigger] t[i]).1
            &&& forall|i: int| half <= i < t.len() ==> !(#[trigger] t[i]).1
            &&& forall|i: int| 0 <= i < t.len() ==> (#[trigger] t[i]).0 == t[t.len() - 1 - i].0
            &&& t[half - 1].0 == code
            &&& ctrl ==> t[0].0 == 29
            &&& alt ==> t[c].0 == 56
            &&& shift ==> t[half - 2].0 == 42
        }),
{
}

/// Each key event becomes one command, in order.
pub proof fn law_key_commands_keep_the_order(taps: Seq<(u32, bool)>, i: int)
    requires
        0 <= i < taps.len(),
    ensures
        key_commands(taps).len() == taps.len(),
        key_commands(taps)[i] == (Command::Key { keycode: taps[i].0, pressed: taps[i].1 }),
{
}

/// A shortcut with control and a letter taps that letter's key with control held
/// around it.
pub proof fn law_shortcut_holds_control_around_the_letter(s: Seq<char>, i: int, r: Seq<Command>)
    requires
        s.len() > 0,
        0 <= i,
        key_press(s, true, false, false, r),
    ensures
        i < 10 && s[0] == "qwertyuiop"@[i] ==> r == seq![
            Command::Key { keycode: 29, pressed: true },
            Command::Key { keycode: (16 + i) as u32, pressed: true },
            Command::Key { keycode: (16 + i) as u32, pressed: false },
            Command::Key { keycode: 29, pressed: false },
        ],
        i < 9 && s[0] == "asdfghjkl"@[i] ==> r == seq![
            Command::Key { keycode: 29, pressed: true },
            Command::Key { keycode: (30 + i) as u32, pressed: true },
            Command::Key { keycode: (30 + i) as u32, pressed: false },
            Command::Key { keycode: 29, pressed: false },
        ],
        i < 7 && s[0] == "zxcvbnm"@[i] ==> r == seq![
            Command::Key { keycode: 29, pressed: true },
            Command::Key { keycode: (44 + i) as u32, pressed: true },
            Command::Key { keycode: (44 + i) as u32, pressed: false },
            Command::Key { keycode: 29, pressed: false },
        ],
{
    reveal_strlit("qwertyuiop");
    reveal_strlit("asdfghjkl");
    reveal_strlit("zxcvbnm");
    law_letter_keys_follow_the_rows(s, i);
    if (i < 10 && s[0] == "qwertyuiop"@[i]) || (i < 9 && s[0] == "asdfghjkl"@[i]) || (i < 7 && s[0]
        == "zxcvbnm"@[i]) {
        assert(0x61 <= s[0] as int <= 0x7A);
        law_text_is_no_special_key(s);
        let (code, _) = key_of_text(s)->0;
        assert(r =~= seq![
            Command::Key { keycode: 29, pressed: true },
            Command::Key { keycode: code, pressed: true },
            Command::Key { keycode: code, pressed: false },
            Command::Key { keycode: 29, pressed: false },
        ]);
    }
}

/// What is typed is the text without its control characters, in order.
pub proof fn law_control_characters_are_never_typed(
    s: Seq<char>,
    alt: bool,
    shift: bool,
    r: Seq<Command>,
)
    requires
        s.len() > 0,
        0x21 <= s[0] as int <= 0x7E,
        key_press(s, false, alt, shift, r),
    ensures
        r.len() == 1,
        match r[0] {
            Command::TypeText(t) => t@ == s.filter(
                |c: char| !(c as int <= 0x1F || 0x7F <= c as int <= 0x9F),
            ),
            _ => false,
        },
{
    law_text_is_no_special_key(s);
    lemma_printable_is_filter(s);
    lemma_first_is_printable(s);
}

proof fn lemma_first_is_printable(s: Seq<char>)
    requires
        s.len() > 0,
        !text::is_control_char(s[0]),
    ensures
        printable(s).len() > 0,
    decreases s.len(),
{
    if s.len() > 1 && text::is_control_char(s.last()) {
        assert(s.drop_last()[0] == s[0]);
        lemma_first_is_printable(s.drop_last());
    }
}

proof fn lemma_printable_is_filter(s: Seq<char>)
    ensures
        printable(s) == s.filter(|c: char| !(c as int <= 0x1F || 0x7F <= c as int <= 0x9F)),
    decreases s.len(),
{
    reveal(Seq::filter);
    if s.len() > 0 {
        lemma_printable_is_filter(s.drop_last());
    }
}

/// Characters outside ASCII have no key, but for the host's codes of its special
/// keys; an empty text has none either.
pub proof fn law_other_characters_have_no_key(s: Seq<char>)
    requires
        s.len() == 0 || (0x80 <= s[0] as int && !(0xF700 <= s[0] as int <= 0xF72D)),
    ensures
        key_of_text(s) is None,
        special_of_text(s) is None,
{
    if s.len() > 0 && exists|k: int| symbol_at(s[0], k) {
        let k = choose|k: int| symbol_at(s[0], k);
        lemma_symbol_position(k);
    }
}

/// A special key is tapped with whatever modifiers are held.
pub proof fn law_special_keys_are_tapped(
    s: Seq<char>,
    ctrl: bool,
    alt: bool,
    shift: bool,
    r: Seq<Command>,
    code: u32,
)
    requires
        special_of_text(s) == Some(code),
        key_press(s, ctrl, alt, shift, r),
    ensures
        r == key_commands(key_tap(code, ctrl, alt, shift)),
{
}

/// A shortcut whose key is not on the layout sends nothing, and neither does an
/// empty text.
pub proof fn law_unmapped_shortcuts_send_nothing(
    s: Seq<char>,
    ctrl: bool,
    alt: bool,
    shift: bool,
    r: Seq<Command>,
)
    requires
        s.len() == 0 || (ctrl && 0xA0 <= s[0] as int <= 0xD7FF),
        key_press(s, ctrl, alt, shift, r),
    ensures
        r.len() == 0,
{
    law_other_characters_have_no_key(s);
}

/// A shortcut with a shifted symbol holds shift too.
pub proof fn law_shortcut_with_capital_holds_shift(
    s: Seq<char>,
    alt: bool,
    shift: bool,
    r: Seq<Command>,
    code: u32,
    needs_shift: bool,
)
    requires
        s.len() > 0,
        0x21 <= s[0] as int <= 0x7E,
        key_of_text(s) == Some((code, needs_shift)),
        key_press(s, true, alt, shift, r),
    ensures
        r == key_commands(key_tap(code, true, alt, shift || needs_shift)),
{
    law_text_is_no_special_key(s);
}

} // verus!
