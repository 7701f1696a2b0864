//! Accent colours.

use vstd::prelude::*;

use crate::scan;
use crate::settings;
use crate::text;

verus! {

/// An opaque colour.
#[derive(Debug, Clone, Copy, PartialEq, Eq, Structural)]
pub struct Rgb {
    pub r: u8,
    pub g: u8,
    pub b: u8,
}

/// The value of a hexadecimal digit.
pub open spec fn hex_digit(c: char) -> Option<int> {
    let v = c as int;
    if 0x30 <= v <= 0x39 {
        Some(v - 0x30)
    } else if 0x61 <= v <= 0x66 {
        Some(v - 0x61 + 10)
    } else if 0x41 <= v <= 0x46 {
        Some(v - 0x41 + 10)
    } else {
        None
    }
}

/// Executable form of [`hex_digit`].
fn hex_of(c: char) -> (r: Option<u32>)
    ensures
        match r {
            Some(d) => hex_digit(c) == Some(d as int) && d < 16,
            None => hex_digit(c) is None,
        },
{
    let v: u32 = text::code_point(c);
    if 0x30 <= v && v <= 0x39 {
        Some(v - 0x30)
    } else if 0x61 <= v && v <= 0x66 {
        Some(v - 0x61 + 10)
    } else if 0x41 <= v && v <= 0x46 {
        Some(v - 0x41 + 10)
    } else {
        None
    }
}

/// The number that `s` spells in hexadecimal digits, where they are all digits.
pub open spec fn hex_value(s: Seq<char>) -> Option<int>
    decreases s.len(),
{
    if s.len() == 0 {
        Some(0)
    } else {
        match (hex_value(s.drop_last()), hex_digit(s.last())) {
            (Some(n), Some(d)) => Some(n * 16 + d),
            _ => None,
        }
    }
}

/// The text behind an optional `#`.
pub open spec fn color_digits(hex: Seq<char>) -> Seq<char> {
    match scan::after_prefix(hex, "#"@) {
        Some(h) => h,
        None => hex,
    }
}

/// The number that six hexadecimal digits spell; any other text has none.
pub open spec fn color_value(h: Seq<char>) -> Option<int> {
    if h.len() != 6 {
        None
    } else {
        hex_value(h)
    }
}

/// The colour with the value `0xrrggbb`.
pub open spec fn rgb_of(v: int) -> Rgb {
    Rgb { r: (v / 65536) as u8, g: ((v / 256) % 256) as u8, b: (v % 256) as u8 }
}

/// The colour that `hex` spells.
pub open spec fn hex_color(hex: Seq<char>) -> Option<Rgb> {
    match color_value(color_digits(hex)) {
        Some(v) => Some(rgb_of(v)),
        None => None,
    }
}

/// A run without a number stays one when it is continued.
proof fn lemma_hex_prefix(s: Seq<char>, k: int)
    requires
        0 <= k <= s.len(),
        hex_value(s.take(k)) is None,
    ensures
        hex_value(s) is None,
    decreases s.len(),
{
    if k == s.len() {
        assert(s.take(k) =~= s);
    } else {
        assert(s.drop_last().take(k) =~= s.take(k));
        lemma_hex_prefix(s.drop_last(), k);
    }
}

/// The number of up to six hexadecimal digits.
fn parse_hex(v: &Vec<char>) -> (r: Option<u32>)
    requires
        v@.len() <= 6,
    ensures
        match r {
            Some(n) => hex_value(v@) == Some(n as int) && n < 0x100_0000,
            None => hex_value(v@) is None,
        },
{
    let mut n: u32 = 0;
    let mut i: usize = 0;
    let mut bound: u32 = 1;
    assert(hex_value(v@.take(0)) == Some(0int));
    while i < v.len()
        invariant
            i <= v@.len() <= 6,
            hex_value(v@.take(i as int)) == Some(n as int),
            n < bound,
            bound == if i == 0 {
                1
            } else if i == 1 {
                16
            } else if i == 2 {
                256
            } else if i == 3 {
                4096
            } else if i == 4 {
                65536
            } else if i == 5 {
                1048576
            } else {
                16777216int
            },
        decreases v@.len() - i,
    {
        assert(v@.take(i as int + 1).drop_last() =~= v@.take(i as int));
        assert(v@.take(i as int + 1).last() == v@[i as int]);
        match hex_of(v[i]) {
            Some(d) => {
                n = n * 16 + d;
                bound = bound * 16;
            },
            None => {
                proof {
                    lemma_hex_prefix(v@, i as int + 1);
                }
                return None;
            },
        }
        i += 1;
    }
    assert(v@.take(i as int) =~= v@);
    Some(n)
}

/// Parse a "#rrggbb" hex string into a colour, or `None` if malformed. The `#`
/// may be left out.
pub fn parse_hex_color(hex: &str) -> (r: Option<Rgb>)
    ensures
        r == hex_color(hex@),
{
    let all = text::chars_of(hex);
    let h = match scan::strip_prefix(&all, "#") {
        Some(h) => h,
        None => all,
    };
    if h.len() != 6 {
        return None;
    }
    match parse_hex(&h) {
        Some(v) => Some(
            Rgb { r: (v / 65536) as u8, g: ((v / 256) % 256) as u8, b: (v % 256) as u8 },
        ),
        None => None,
    }
}

/// The colour used when all else fails.
pub open spec fn fallback() -> Rgb {
    Rgb { r: 0x89, g: 0xb4, b: 0xfa }
}

/// The accent colour of a task: its own, or that of the palette for its place in
/// the sidebar.
pub open spec fn tint(color: Seq<char>, index: int) -> Rgb {
    match hex_color(color) {
        Some(c) => c,
        None => match hex_color(settings::palette()[index % 8]) {
            Some(c) => c,
            None => fallback(),
        },
    }
}

/// Resolve a task's accent colour: its stored "#rrggbb" hex, or, for tasks
/// persisted before colours existed, a palette colour chosen by position.
pub fn task_tint(color: &str, index: usize) -> (r: Rgb)
    ensures
        r == tint(color@, index as int),
{
    if let Some(c) = parse_hex_color(color) {
        return c;
    }
    let palette = settings::task_palette();
    assert(text::views(palette@).len() == 8);
    let k: usize = index % 8;
    assert(text::views(palette@)[k as int] == palette@[k as int]@);
    match parse_hex_color(&palette[k]) {
        Some(c) => c,
        None => Rgb { r: 0x89, g: 0xb4, b: 0xfa },
    }
}

// ---------------------------------------------------------------------------
// Laws
// ---------------------------------------------------------------------------

/// The lower-case hexadecimal digit with a value.
pub open spec fn hex_char(d: int) -> char {
    if d < 10 {
        (48 + d) as char
    } else {
        (87 + d) as char
    }
}

/// The "#rrggbb" form of a colour.
pub open spec fn hex_form(c: Rgb) -> Seq<char> {
    seq![
        '#',
        hex_char(c.r as int / 16),
        hex_char(c.r as int % 16),
        hex_char(c.g as int / 16),
        hex_char(c.g as int % 16),
        hex_char(c.b as int / 16),
        hex_char(c.b as int % 16),
    ]
}

/// A further digit multiplies by sixteen.
proof fn lemma_hex_push(s: Seq<char>, n: int, d: int)
    requires
        hex_value(s) == Some(n),
        0 <= d < 16,
    ensures
        hex_value(s.push(hex_char(d))) == Some(n * 16 + d),
{
    let t = s.push(hex_char(d));
    assert(t.drop_last() =~= s);
    assert(t.last() == hex_char(d));
    assert(hex_digit(hex_char(d)) == Some(d));
}

/// Every colour is read back from its "#rrggbb" form.
pub proof fn law_hex_round_trip(c: Rgb)
    ensures
        hex_color(hex_form(c)) == Some(c),
{
    let (r, g, b) = (c.r as int, c.g as int, c.b as int);
    let h0 = Seq::<char>::empty();
    let h1 = h0.push(hex_char(r / 16));
    let h2 = h1.push(hex_char(r % 16));
    let h3 = h2.push(hex_char(g / 16));
    let h4 = h3.push(hex_char(g % 16));
    let h5 = h4.push(hex_char(b / 16));
    let h = h5.push(hex_char(b % 16));
    lemma_hex_push(h0, 0, r / 16);
    lemma_hex_push(h1, r / 16, r % 16);
    assert(r / 16 * 16 + r % 16 == r);
    lemma_hex_push(h2, r, g / 16);
    lemma_hex_push(h3, r * 16 + g / 16, g % 16);
    assert((r * 16 + g / 16) * 16 + g % 16 == r * 256 + g);
    lemma_hex_push(h4, r * 256 + g, b / 16);
    lemma_hex_push(h5, (r * 256 + g) * 16 + b / 16, b % 16);
    let v = r * 65536 + g * 256 + b;
    assert(hex_value(h) == Some(v));
    assert(v / 65536 == r && (v / 256) % 256 == g && v % 256 == b);
    let s = hex_form(c);
    reveal_strlit("#");
    assert(s.subrange(0, 1) =~= "#"@);
    assert(s.skip(1) =~= h);
}

/// Every colour of the palette is well formed, so a task without a colour of its
/// own is always shown in a palette colour.
pub proof fn law_palette_is_well_formed(k: int)
    requires
        0 <= k < settings::palette().len(),
    ensures
        hex_color(settings::palette()[k]) is Some,
{
    reveal_strlit("#");
    reveal_strlit("#89b4fa");
    reveal_strlit("#a6e3a1");
    reveal_strlit("#f9e2af");
    reveal_strlit("#f38ba8");
    reveal_strlit("#cba6f7");
    reveal_strlit("#fab387");
    reveal_strlit("#94e2d5");
    reveal_strlit("#f5c2e7");
    let s = settings::palette()[k];
    assert(s.len() == 7);
    assert(s.subrange(0, 1) =~= "#"@);
    let h = s.skip(1);
    assert(forall|i: int| 0 <= i < 6 ==> hex_digit(#[trigger] h[i]) is Some);
    reveal_with_fuel(hex_value, 7);
    let h5 = h.drop_last();
    let h4 = h5.drop_last();
    let h3 = h4.drop_last();
    let h2 = h3.drop_last();
    let h1 = h2.drop_last();
    assert(h1.last() == h[0]);
    assert(h2.last() == h[1]);
    assert(h3.last() == h[2]);
    assert(h4.last() == h[3]);
    assert(h5.last() == h[4]);
    assert(hex_value(h1) is Some);
    assert(hex_value(h2) is Some);
    assert(hex_value(h3) is Some);
    assert(hex_value(h4) is Some);
    assert(hex_value(h5) is Some);
}

/// Six hexadecimal digits, in either case and with or without a "#", are the
/// channels red, green and blue, two digits each.
pub proof fn law_color_channels_are_two_digits_each(h: Seq<char>, d: Seq<int>)
    requires
        h.len() == 6,
        d.len() == 6,
        forall|i: int|
            0 <= i < 6 ==> {
                let v = (#[trigger] h[i]) as int;
                ||| '0' as int <= v <= '9' as int && d[i] == v - '0' as int
                ||| 'a' as int <= v <= 'f' as int && d[i] == v - 'a' as int + 10
                ||| 'A' as int <= v <= 'F' as int && d[i] == v - 'A' as int + 10
            },
    ensures
        ({
            let c = Rgb {
                r: (16 * d[0] + d[1]) as u8,
                g: (16 * d[2] + d[3]) as u8,
                b: (16 * d[4] + d[5]) as u8,
            };
            hex_color(h) == Some(c) && hex_color(seq!['#'] + h) == Some(c)
        }),
{
    assert(forall|i: int| 0 <= i < 6 ==> hex_digit(#[trigger] h[i]) == Some(d[i]));
    assert(forall|i: int| 0 <= i < 6 ==> 0 <= #[trigger] d[i] < 16) by {
        assert forall|i: int| 0 <= i < 6 implies 0 <= #[trigger] d[i] < 16 by {
            assert(hex_digit(h[i]) == Some(d[i]));
        }
    }
    lemma_six_digits(h, d);
    let v = 16 * (16 * (16 * (16 * (16 * d[0] + d[1]) + d[2]) + d[3]) + d[4]) + d[5];
    assert(v / 65536 == 16 * d[0] + d[1]);
    assert((v / 256) % 256 == 16 * d[2] + d[3]);
    assert(v % 256 == 16 * d[4] + d[5]);
    reveal_strlit("#");
    let s = seq!['#'] + h;
    assert(s.subrange(0, 1) =~= "#"@);
    assert(s.skip(1) =~= h);
    assert(hex_digit(h[0]) is Some);
    if scan::begins_with(h, "#"@) {
        assert(h.subrange(0, 1)[0] == h[0]);
    }
}

/// The value of six digits.
proof fn lemma_six_digits(h: Seq<char>, d: Seq<int>)
    requires
        h.len() == 6,
        d.len() == 6,
        forall|i: int| 0 <= i < 6 ==> hex_digit(#[trigger] h[i]) == Some(d[i]),
    ensures
        hex_value(h) == Some(
            16 * (16 * (16 * (16 * (16 * d[0] + d[1]) + d[2]) + d[3]) + d[4]) + d[5],
        ),
{
    reveal_with_fuel(hex_value, 7);
    let h5 = h.drop_last();
    let h4 = h5.drop_last();
    let h3 = h4.drop_last();
    let h2 = h3.drop_last();
    let h1 = h2.drop_last();
    assert(h1.drop_last().len() == 0);
    assert(h1.last() == h[0]);
    assert(h2.last() == h[1]);
    assert(h3.last() == h[2]);
    assert(h4.last() == h[3]);
    assert(h5.last() == h[4]);
    assert(h.last() == h[5]);
    assert(hex_value(h1) == Some(d[0]));
    assert(hex_value(h2) == Some(16 * d[0] + d[1]));
    assert(hex_value(h3) == Some(16 * (16 * d[0] + d[1]) + d[2]));
    assert(hex_value(h4) == Some(16 * (16 * (16 * d[0] + d[1]) + d[2]) + d[3]));
    assert(hex_value(h5) == Some(
        16 * (16 * (16 * (16 * d[0] + d[1]) + d[2]) + d[3]) + d[4],
    ));
}

/// Anything but six hexadecimal digits behind an optional "#" is no colour.
pub proof fn law_other_texts_are_no_color(h: Seq<char>, i: int)
    ensures
        h.len() != 6 && h.len() != 7 ==> hex_color(h) is None,
        h.len() == 7 && h[0] != '#' ==> hex_color(h) is None,
        0 <= i < h.len() && !('0' as int <= h[i] as int <= '9' as int || 'a' as int <= h[i] as int
            <= 'f' as int || 'A' as int <= h[i] as int <= 'F' as int) && !(i == 0 && h[0] == '#')
            ==> hex_color(h) is None,
{
    reveal_strlit("#");
    if scan::begins_with(h, "#"@) {
        assert(h.subrange(0, 1)[0] == h[0]);
        if 1 <= i < h.len() {
            assert(h.skip(1)[i - 1] == h[i]);
            lemma_bad_digit(h.skip(1), i - 1);
        }
    } else {
        if h.len() > 0 && h[0] == '#' {
            assert(h.subrange(0, 1) =~= "#"@);
        }
        if 0 <= i < h.len() {
            lemma_bad_digit(h, i);
        }
    }
}

proof fn lemma_bad_digit(s: Seq<char>, i: int)
    requires
        0 <= i < s.len(),
    ensures
        hex_digit(s[i]) is None ==> hex_value(s) is None,
    decreases s.len(),
{
    if i < s.len() - 1 {
        assert(s.drop_last()[i] == s[i]);
        lemma_bad_digit(s.drop_last(), i);
    }
}

/// A task has its own colour where that is one, and otherwise the palette's, which
/// repeats after eight positions.
pub proof fn law_tint_falls_back_to_the_palette(color: Seq<char>, index: int)
    requires
        0 <= index,
    ensures
        hex_color(color) matches Some(c) ==> tint(color, index) == c,
        hex_color(color) is None ==> tint(color, index) == seq![
            Rgb { r: 0x89, g: 0xb4, b: 0xfa },
            Rgb { r: 0xa6, g: 0xe3, b: 0xa1 },
            Rgb { r: 0xf9, g: 0xe2, b: 0xaf },
            Rgb { r: 0xf3, g: 0x8b, b: 0xa8 },
            Rgb { r: 0xcb, g: 0xa6, b: 0xf7 },
            Rgb { r: 0xfa, g: 0xb3, b: 0x87 },
            Rgb { r: 0x94, g: 0xe2, b: 0xd5 },
            Rgb { r: 0xf5, g: 0xc2, b: 0xe7 },
        ][index % 8],
{
    reveal_strlit("#89b4fa");
    reveal_strlit("#a6e3a1");
    reveal_strlit("#f9e2af");
    reveal_strlit("#f38ba8");
    reveal_strlit("#cba6f7");
    reveal_strlit("#fab387");
    reveal_strlit("#94e2d5");
    reveal_strlit("#f5c2e7");
    lemma_palette_color("#89b4fa"@, seq![8int, 9, 11, 4, 15, 10]);
    lemma_palette_color("#a6e3a1"@, seq![10int, 6, 14, 3, 10, 1]);
    lemma_palette_color("#f9e2af"@, seq![15int, 9, 14, 2, 10, 15]);
    lemma_palette_color("#f38ba8"@, seq![15int, 3, 8, 11, 10, 8]);
    lemma_palette_color("#cba6f7"@, seq![12int, 11, 10, 6, 15, 7]);
    lemma_palette_color("#fab387"@, seq![15int, 10, 11, 3, 8, 7]);
    lemma_palette_color("#94e2d5"@, seq![9int, 4, 14, 2, 13, 5]);
    lemma_palette_color("#f5c2e7"@, seq![15int, 5, 12, 2, 14, 7]);
}

/// The colour of a text "#rrggbb" whose digits have these values.
proof fn lemma_palette_color(s: Seq<char>, d: Seq<int>)
    requires
        s.len() == 7,
        s[0] == '#',
        d.len() == 6,
        hex_digit(s[1]) == Some(d[0]),
        hex_digit(s[2]) == Some(d[1]),
        hex_digit(s[3]) == Some(d[2]),
        hex_digit(s[4]) == Some(d[3]),
        hex_digit(s[5]) == Some(d[4]),
        hex_digit(s[6]) == Some(d[5]),
    ensures
        hex_color(s) == Some(
            Rgb {
                r: (16 * d[0] + d[1]) as u8,
                g: (16 * d[2] + d[3]) as u8,
                b: (16 * d[4] + d[5]) as u8,
            },
        ),
{
    let h = s.skip(1);
    assert forall|i: int| 0 <= i < 6 implies {
        let v = (#[trigger] h[i]) as int;
        ||| '0' as int <= v <= '9' as int && d[i] == v - '0' as int
        ||| 'a' as int <= v <= 'f' as int && d[i] == v - 'a' as int + 10
        ||| 'A' as int <= v <= 'F' as int && d[i] == v - 'A' as int + 10
    } by {
        assert(h[i] == s[i + 1]);
        assert(hex_digit(h[i]) == Some(d[i]));
    }
    law_color_channels_are_two_digits_each(h, d);
    assert(seq!['#'] + h =~= s);
}

} // verus!
