//! Unicode keycode slots in an xkb keymap.
//!
//! The host (the UI toolkit) does the layout and composition work and hands over
//! the final text. To deliver exactly that text to a client, the base keymap is
//! extended by one keycode "slot" per character, which maps to the character's
//! Unicode keysym.
//!
//! The keymap is primed once at startup with a broad range of common characters
//! and installed before any client connects, so that it rarely changes under a
//! focused client. Characters outside the primed set extend it on demand.

use std::collections::HashMap;

use vstd::prelude::*;

use crate::scan;
use crate::text;

verus! {

broadcast use vstd::std_specs::hash::group_hash_axioms;

// ---------------------------------------------------------------------------
// Reading a keymap
// ---------------------------------------------------------------------------

/// Characters that may stand between `maximum` and its number.
pub open spec fn is_gap(c: char) -> bool {
    c == ' ' || c == '\t' || c == '='
}

/// The first position from `i` on that is not a gap.
pub open spec fn after_gap(s: Seq<char>, i: int) -> int
    decreases s.len() - i,
{
    if 0 <= i < s.len() && is_gap(s[i]) {
        after_gap(s, i + 1)
    } else {
        i
    }
}

/// The first position from `i` on that is not a digit.
pub open spec fn after_digits(s: Seq<char>, i: int) -> int
    decreases s.len() - i,
{
    if 0 <= i < s.len() && text::is_digit(s[i]) {
        after_digits(s, i + 1)
    } else {
        i
    }
}

/// Where the number behind the first `maximum` starts and ends, and its value.
pub open spec fn maximum_at(s: Seq<char>) -> Option<(int, int, int)> {
    match scan::find(s, "maximum"@) {
        Some(k) => {
            let start = after_gap(s, k + "maximum"@.len());
            let end = after_digits(s, start);
            match scan::parsed(s.subrange(start, end), u32::MAX as int) {
                Some(v) => Some((start, end, v)),
                None => None,
            }
        },
        None => None,
    }
}

proof fn lemma_after_gap(s: Seq<char>, i: int)
    requires
        0 <= i <= s.len(),
    ensures
        i <= after_gap(s, i) <= s.len(),
    decreases s.len() - i,
{
    if i < s.len() && is_gap(s[i]) {
        lemma_after_gap(s, i + 1);
    }
}

proof fn lemma_after_digits(s: Seq<char>, i: int)
    requires
        0 <= i <= s.len(),
    ensures
        i <= after_digits(s, i) <= s.len(),
    decreases s.len() - i,
{
    if i < s.len() && text::is_digit(s[i]) {
        lemma_after_digits(s, i + 1);
    }
}

/// The number behind `maximum` lies within the text.
pub proof fn lemma_maximum_at(s: Seq<char>)
    ensures
        match maximum_at(s) {
            Some((a, b, v)) => 0 <= a < b <= s.len() && 0 <= v <= u32::MAX,
            None => true,
        },
{
    scan::lemma_find_from(s, "maximum"@, 0);
    if let Some(k) = scan::find(s, "maximum"@) {
        let start = after_gap(s, k + "maximum"@.len());
        lemma_after_gap(s, k + "maximum"@.len());
        lemma_after_digits(s, start);
        let end = after_digits(s, start);
        let d = s.subrange(start, end);
        if scan::all_digits(d) {
            scan::lemma_digits_value_grows(d, 0);
            assert(d.take(0).len() == 0);
        }
    }
}

/// Positions, in characters, of the number behind `maximum`, and its value.
fn locate_maximum(v: &[char]) -> (r: Option<(usize, usize, u32)>)
    ensures
        match r {
            Some((a, b, n)) => maximum_at(v@) == Some((a as int, b as int, n as int)),
            None => maximum_at(v@) is None,
        },
{
    let word = text::chars_of("maximum");
    match scan::find_chars(v, &word, 0) {
        Some(k) => {
            let n: usize = v.len();
            let mut i: usize = k + word.len();
            let ghost from = i as int;
            while i < n && (v[i] == ' ' || v[i] == '\t' || v[i] == '=')
                invariant
                    n == v@.len(),
                    from <= i <= n,
                    after_gap(v@, from) == after_gap(v@, i as int),
                decreases n - i,
            {
                i += 1;
            }
            let start: usize = i;
            while i < n && text::char_is_digit(v[i])
                invariant
                    n == v@.len(),
                    start <= i <= n,
                    after_digits(v@, start as int) == after_digits(v@, i as int),
                decreases n - i,
            {
                i += 1;
            }
            let digits = text::slice_copy(v, start, i);
            match scan::parse_digits(&digits, 0xFFFF_FFFF) {
                Some(value) => Some((start, i, value as u32)),
                None => None,
            }
        },
        None => None,
    }
}

/// How many bytes a character takes in UTF-8.
pub open spec fn utf8_width(c: char) -> nat {
    if (c as int) < 0x80 {
        1
    } else if (c as int) < 0x800 {
        2
    } else if (c as int) < 0x10000 {
        3
    } else {
        4
    }
}

/// How many bytes a text takes in UTF-8.
pub open spec fn utf8_len(s: Seq<char>) -> nat
    decreases s.len(),
{
    if s.len() == 0 {
        0
    } else {
        utf8_len(s.drop_last()) + utf8_width(s.last())
    }
}

/// The byte position of character `k`.
fn byte_offset(v: &[char], k: usize) -> (r: usize)
    requires
        k <= v@.len(),
        utf8_len(v@) <= usize::MAX,
    ensures
        r == utf8_len(v@.take(k as int)),
{
    let mut i: usize = 0;
    let mut at: usize = 0;
    while i < k
        invariant
            i <= k <= v@.len(),
            utf8_len(v@) <= usize::MAX,
            at == utf8_len(v@.take(i as int)),
        decreases k - i,
    {
        proof {
            assert(v@.take(i + 1).drop_last() =~= v@.take(i as int));
            lemma_utf8_len_grows(v@, i + 1);
        }
        let c: u32 = text::code_point(v[i]);
        let w: usize = if c < 0x80 {
            1
        } else if c < 0x800 {
            2
        } else if c < 0x10000 {
            3
        } else {
            4
        };
        at += w;
        i += 1;
    }
    at
}

proof fn lemma_utf8_len_grows(s: Seq<char>, k: int)
    requires
        0 <= k <= s.len(),
    ensures
        utf8_len(s.take(k)) <= utf8_len(s),
    decreases s.len(),
{
    if k == s.len() {
        assert(s.take(k) =~= s);
    } else {
        lemma_utf8_len_grows(s.drop_last(), k);
        assert(s.drop_last().take(k) =~= s.take(k));
    }
}

/// Byte range of the numeric value in `maximum = N`, plus the parsed value.
/// Tolerant of whitespace around `=` (xkbcommon's exact formatting may vary).
pub fn maximum_span(keymap: &str) -> (r: Option<(usize, usize, u32)>)
    requires
        utf8_len(keymap@) <= usize::MAX,
    ensures
        match r {
            Some((a, b, n)) => match maximum_at(keymap@) {
                Some((x, y, z)) => a == utf8_len(keymap@.take(x)) && b == utf8_len(keymap@.take(y))
                    && n == z,
                None => false,
            },
            None => maximum_at(keymap@) is None,
        },
{
    let v = text::chars_of(keymap);
    proof {
        lemma_maximum_at(keymap@);
    }
    match locate_maximum(&v) {
        Some((a, b, n)) => {
            let x: usize = byte_offset(&v, a);
            let y: usize = byte_offset(&v, b);
            Some((x, y, n))
        },
        None => None,
    }
}

/// Parse the `maximum` keycode value from a compiled keymap.
pub fn parse_maximum(keymap: &str) -> (r: Option<u32>)
    ensures
        match r {
            Some(n) => match maximum_at(keymap@) {
                Some((_, _, value)) => n == value,
                None => false,
            },
            None => maximum_at(keymap@) is None,
        },
{
    let v = text::chars_of(keymap);
    match locate_maximum(&v) {
        Some((_, _, n)) => Some(n),
        None => None,
    }
}

/// How many more braces are opened than closed in `s` from `i` up to `j`.
pub open spec fn brace_depth(s: Seq<char>, i: int, j: int) -> int
    decreases j - i,
{
    if j <= i {
        0
    } else {
        brace_depth(s, i, j - 1) + if s[j - 1] == '{' {
            1int
        } else if s[j - 1] == '}' {
            -1
        } else {
            0
        }
    }
}

/// The first closing brace from `i` on at which the depth since `open` is zero.
pub open spec fn brace_close(s: Seq<char>, open: int, i: int) -> Option<int>
    decreases s.len() - i,
{
    if i < 0 || i >= s.len() {
        None
    } else if s[i] == '}' && brace_depth(s, open, i + 1) == 0 {
        Some(i)
    } else {
        brace_close(s, open, i + 1)
    }
}

/// Position of the brace that closes the `xkb_symbols` block.
pub open spec fn symbols_close_at(s: Seq<char>) -> Option<int> {
    match scan::find(s, "xkb_symbols"@) {
        Some(block) => {
            let open = block + scan::first_of(s.skip(block), '{');
            if open < s.len() {
                brace_close(s, open, open)
            } else {
                None
            }
        },
        None => None,
    }
}

/// The closing brace lies within the text.
pub proof fn lemma_brace_close(s: Seq<char>, open: int, i: int)
    requires
        0 <= i,
    ensures
        match brace_close(s, open, i) {
            Some(k) => i <= k < s.len() && s[k] == '}' && brace_depth(s, open, k + 1) == 0,
            None => true,
        },
    decreases s.len() - i,
{
    if i < s.len() && !(s[i] == '}' && brace_depth(s, open, i + 1) == 0) {
        lemma_brace_close(s, open, i + 1);
    }
}

/// Position, in characters, of the brace that closes the `xkb_symbols` block.
fn locate_symbols_close(v: &[char]) -> (r: Option<usize>)
    ensures
        match r {
            Some(k) => symbols_close_at(v@) == Some(k as int) && k < v@.len(),
            None => symbols_close_at(v@) is None,
        },
{
    let word = text::chars_of("xkb_symbols");
    match scan::find_chars(v, &word, 0) {
        Some(block) => {
            let n: usize = v.len();
            let tail = text::slice_copy(v, block, n);
            let rel: usize = scan::index_of(&tail, '{');
            assert(tail@ =~= v@.skip(block as int));
            proof {
                scan::lemma_first_of(tail@, '{');
            }
            if rel == tail.len() {
                return None;
            }
            let open: usize = block + rel;
            assert(v@[open as int] == tail@[rel as int]);
            let mut depth: usize = 0;
            let mut i: usize = open;
            while i < n
                invariant
                    n == v@.len(),
                    open <= i <= n,
                    open < n,
                    v@[open as int] == '{',
                    symbols_close_at(v@) == brace_close(v@, open as int, open as int),
                    depth == brace_depth(v@, open as int, i as int),
                    depth <= i - open,
                    i > open ==> depth >= 1,
                    brace_close(v@, open as int, open as int) == brace_close(
                        v@,
                        open as int,
                        i as int,
                    ),
                decreases n - i,
            {
                let c: char = v[i];
                if c == '{' {
                    depth += 1;
                } else if c == '}' {
                    depth -= 1;
                    if depth == 0 {
                        return Some(i);
                    }
                }
                i += 1;
            }
            None
        },
        None => None,
    }
}

/// Position behind the `xkb_symbols` block: its closing brace and the semicolon
/// that ends it, where there is one.
pub open spec fn symbols_end_at(s: Seq<char>) -> Option<int> {
    match symbols_close_at(s) {
        Some(k) => if k + 1 < s.len() && s[k + 1] == ';' {
            Some(k + 2)
        } else {
            Some(k + 1)
        },
        None => None,
    }
}

/// Byte index at which the `xkb_symbols` block is closed, found by matching
/// braces from the block's opening `{` (its body contains nested `key { … }`):
/// everything from there on lies outside the block.
pub fn symbols_block_close(keymap: &str) -> (r: Option<usize>)
    requires
        utf8_len(keymap@) <= usize::MAX,
    ensures
        match r {
            Some(k) => symbols_end_at(keymap@) is Some && k == utf8_len(
                keymap@.take(symbols_end_at(keymap@)->0),
            ),
            None => symbols_end_at(keymap@) is None,
        },
{
    let v = text::chars_of(keymap);
    match locate_symbols_close(&v) {
        Some(k) => {
            let end: usize = if k + 1 < v.len() && v[k + 1] == ';' { k + 2 } else { k + 1 };
            Some(byte_offset(&v, end))
        },
        None => None,
    }
}

// ---------------------------------------------------------------------------
// Extending a keymap
// ---------------------------------------------------------------------------

/// Maximum number of distinct characters that get slots (keeps keycode names
/// within xkb's 4-character limit: `Z000`..`ZFFF`).
pub const MAX_SLOTS: usize = 0xFFF;

/// The name of slot `i`.
pub open spec fn slot_name(i: nat) -> Seq<char> {
    "<Z"@ + scan::zero_padded(scan::hexadecimal(i), 3) + ">"@
}

/// The line that declares the keycode of slot `i`.
pub open spec fn keycode_line(i: nat, slot_base: nat) -> Seq<char> {
    "\t"@ + slot_name(i) + " = "@ + scan::decimal(slot_base + i) + ";\n"@
}

/// The lines that declare the keycodes of the first `n` slots.
pub open spec fn keycode_lines(n: nat, slot_base: nat) -> Seq<char>
    decreases n,
{
    if n == 0 {
        Seq::empty()
    } else {
        keycode_lines((n - 1) as nat, slot_base) + keycode_line((n - 1) as nat, slot_base)
    }
}

/// The line that maps slot `i` to the keysym of `c`.
pub open spec fn symbol_line(i: nat, c: char) -> Seq<char> {
    "\tkey "@ + slot_name(i) + " { [ U"@ + scan::zero_padded(scan::hexadecimal(c as nat), 4)
        + " ] };\n"@
}

/// The lines that map the slots to their characters.
pub open spec fn symbol_lines(chars: Seq<char>) -> Seq<char>
    decreases chars.len(),
{
    if chars.len() == 0 {
        Seq::empty()
    } else {
        symbol_lines(chars.drop_last()) + symbol_line((chars.len() - 1) as nat, chars.last())
    }
}

/// `s` with `t` inserted at position `k`.
pub open spec fn spliced(s: Seq<char>, k: int, t: Seq<char>) -> Seq<char> {
    s.take(k) + t + s.skip(k)
}

/// The keymap with its maximum raised to `new_max`, and the position behind the
/// line that holds it.
pub open spec fn maximum_raised(base: Seq<char>, new_max: nat) -> Option<(Seq<char>, int)> {
    match maximum_at(base) {
        Some((a, b, _)) => {
            let out = base.take(a) + scan::decimal(new_max) + base.skip(b);
            let n = scan::first_of(out.skip(a), '\n');
            Some(
                (
                    out,
                    if a + n < out.len() {
                        a + n + 1
                    } else {
                        a
                    },
                ),
            )
        },
        None => None,
    }
}

/// The keymap with the slots' keycodes declared behind the `maximum` line, which
/// is raised to cover them. Unchanged where there is no `maximum`.
pub open spec fn with_keycodes(base: Seq<char>, n: nat, slot_base: nat) -> Seq<char> {
    match maximum_raised(base, slot_base + n) {
        Some((out, at)) => spliced(out, at, keycode_lines(n, slot_base)),
        None => base,
    }
}

/// The keymap with the slots mapped to their characters just before the close of
/// the symbols block. Unchanged where there is none.
pub open spec fn with_symbols(keymap: Seq<char>, chars: Seq<char>) -> Seq<char> {
    match symbols_close_at(keymap) {
        Some(k) => spliced(keymap, k, symbol_lines(chars)),
        None => keymap,
    }
}

/// The keymap extended by one slot per character.
pub open spec fn extended(base: Seq<char>, chars: Seq<char>, slot_base: nat) -> Seq<char> {
    if chars.len() == 0 {
        base
    } else {
        with_symbols(with_keycodes(base, chars.len(), slot_base), chars)
    }
}

/// Appends the characters of `s`.
fn push_str(out: &mut Vec<char>, s: &str)
    ensures
        final(out)@ == old(out)@ + s@,
{
    let mut v = text::chars_of(s);
    out.append(&mut v);
}

/// Appends the name of slot `i`.
fn push_slot_name(out: &mut Vec<char>, i: u64)
    ensures
        final(out)@ == old(out)@ + slot_name(i as nat),
{
    let ghost before = out@;
    push_str(out, "<Z");
    let mut hex = scan::zero_pad(scan::numeral_chars(i, 16), 3);
    out.append(&mut hex);
    push_str(out, ">");
    assert(out@ =~= before + slot_name(i as nat));
}

/// The keycode declarations of the first `n` slots.
fn keycode_text(n: usize, slot_base: u32) -> (r: Vec<char>)
    requires
        slot_base + n <= u32::MAX,
    ensures
        r@ == keycode_lines(n as nat, slot_base as nat),
{
    let mut out: Vec<char> = Vec::new();
    let mut i: usize = 0;
    while i < n
        invariant
            i <= n,
            slot_base + n <= u32::MAX,
            out@ == keycode_lines(i as nat, slot_base as nat),
        decreases n - i,
    {
        let ghost before = out@;
        push_str(&mut out, "\t");
        push_slot_name(&mut out, i as u64);
        push_str(&mut out, " = ");
        let mut code = scan::decimal_chars(slot_base as u64 + i as u64);
        out.append(&mut code);
        push_str(&mut out, ";\n");
        assert(out@ =~= before + keycode_line(i as nat, slot_base as nat));
        i += 1;
    }
    out
}

/// The symbol mappings of the slots.
fn symbol_text(chars: &[char]) -> (r: Vec<char>)
    ensures
        r@ == symbol_lines(chars@),
{
    let mut out: Vec<char> = Vec::new();
    let mut i: usize = 0;
    while i < chars.len()
        invariant
            i <= chars@.len(),
            out@ == symbol_lines(chars@.take(i as int)),
        decreases chars@.len() - i,
    {
        let ghost before = out@;
        let c: char = chars[i];
        push_str(&mut out, "\tkey ");
        push_slot_name(&mut out, i as u64);
        push_str(&mut out, " { [ U");
        let mut sym = scan::zero_pad(scan::numeral_chars(text::code_point(c) as u64, 16), 4);
        out.append(&mut sym);
        push_str(&mut out, " ] };\n");
        proof {
            assert(out@ =~= before + symbol_line(i as nat, c));
            assert(chars@.take(i + 1).drop_last() =~= chars@.take(i as int));
        }
        i += 1;
    }
    assert(chars@.take(i as int) =~= chars@);
    out
}

/// `v` with `t` inserted at position `k`.
fn splice(v: &[char], k: usize, t: Vec<char>) -> (r: Vec<char>)
    requires
        k <= v@.len(),
    ensures
        r@ == spliced(v@, k as int, t@),
{
    let mut out = text::slice_copy(v, 0, k);
    let mut mid = t;
    out.append(&mut mid);
    let mut tail = text::slice_copy(v, k, v.len());
    out.append(&mut tail);
    assert(out@ =~= spliced(v@, k as int, t@));
    out
}

/// Declare the keycodes of `n` slots behind the raised `maximum`.
fn add_keycodes(base: &[char], n: usize, slot_base: u32) -> (r: Vec<char>)
    requires
        slot_base + n <= u32::MAX,
    ensures
        r@ == with_keycodes(base@, n as nat, slot_base as nat),
{
    proof {
        lemma_maximum_at(base@);
    }
    match locate_maximum(base) {
        Some((a, b, _)) => {
            let mut out = text::slice_copy(base, 0, a);
            let mut number = scan::decimal_chars(slot_base as u64 + n as u64);
            out.append(&mut number);
            let mut tail = text::slice_copy(base, b, base.len());
            out.append(&mut tail);
            assert(out@ =~= base@.take(a as int) + scan::decimal((slot_base + n) as nat)
                + base@.skip(b as int));
            let rest = text::slice_copy(&out, a, out.len());
            assert(rest@ =~= out@.skip(a as int));
            let k: usize = scan::index_of(&rest, '\n');
            let at: usize = if k < rest.len() { a + k + 1 } else { a };
            let lines = keycode_text(n, slot_base);
            splice(&out, at, lines)
        },
        None => {
            let out = text::slice_copy(base, 0, base.len());
            assert(out@ =~= base@);
            out
        },
    }
}

/// Append Unicode keycode slots to a base keymap: declare each slot in the
/// keycodes section (raising `maximum`) and map it to its Unicode keysym in the
/// symbols section. Indentation is irrelevant to the xkb parser, so the inserts
/// are plain lines.
pub fn build_keymap(base: &str, chars: &[char], slot_base: u32) -> (r: String)
    requires
        chars@.len() > 0 ==> slot_base + chars@.len() <= u32::MAX,
    ensures
        r@ == extended(base@, chars@, slot_base as nat),
{
    if chars.len() == 0 {
        return text::copy_text(base);
    }
    let v = text::chars_of(base);
    let declared = add_keycodes(&v, chars.len(), slot_base);
    match locate_symbols_close(&declared) {
        Some(close) => {
            let symbols = symbol_text(chars);
            let out = splice(&declared, close, symbols);
            text::text_of(&out)
        },
        None => text::text_of(&declared),
    }
}

// ---------------------------------------------------------------------------
// Laws of keymaps
// ---------------------------------------------------------------------------

proof fn lemma_after_gap_prefix(s: Seq<char>, t: Seq<char>, i: int, n: int)
    requires
        0 <= i,
        after_gap(s, i) < n,
        n <= s.len(),
        n <= t.len(),
        s.take(n) == t.take(n),
    ensures
        after_gap(t, i) == after_gap(s, i),
    decreases s.len() - i,
{
    if i < s.len() && is_gap(s[i]) {
        lemma_after_gap_prefix(s, t, i + 1, n);
        lemma_after_gap(s, i + 1);
        assert(s[i] == s.take(n)[i] && t[i] == t.take(n)[i]);
    } else {
        assert(s[i] == s.take(n)[i] && t[i] == t.take(n)[i]);
    }
}

proof fn lemma_after_digits_prefix(s: Seq<char>, t: Seq<char>, i: int, n: int)
    requires
        0 <= i,
        after_digits(s, i) < n,
        n <= s.len(),
        n <= t.len(),
        s.take(n) == t.take(n),
    ensures
        after_digits(t, i) == after_digits(s, i),
    decreases s.len() - i,
{
    if i < s.len() && text::is_digit(s[i]) {
        lemma_after_digits_prefix(s, t, i + 1, n);
        lemma_after_digits(s, i + 1);
        assert(s[i] == s.take(n)[i] && t[i] == t.take(n)[i]);
    } else {
        assert(s[i] == s.take(n)[i] && t[i] == t.take(n)[i]);
    }
}

/// What is inserted behind the number of `maximum` does not change it.
pub proof fn lemma_maximum_in_prefix(s: Seq<char>, t: Seq<char>, n: int)
    requires
        match maximum_at(s) {
            Some((_, b, _)) => b < n,
            None => false,
        },
        n <= s.len(),
        n <= t.len(),
        s.take(n) == t.take(n),
    ensures
        maximum_at(t) == maximum_at(s),
{
    lemma_maximum_at(s);
    scan::lemma_find_from(s, "maximum"@, 0);
    let k = scan::find(s, "maximum"@)->0;
    let w = "maximum"@.len();
    lemma_after_gap(s, (k + w) as int);
    let a = after_gap(s, (k + w) as int);
    lemma_after_digits(s, a);
    let b = after_digits(s, a);
    scan::lemma_find_in_prefix(s, t, "maximum"@, k, n);
    lemma_after_gap_prefix(s, t, (k + w) as int, n);
    lemma_after_digits_prefix(s, t, a, n);
    assert(s.subrange(a, b) =~= s.take(n).subrange(a, b));
    assert(t.subrange(a, b) =~= t.take(n).subrange(a, b));
}

proof fn lemma_after_digits_run(s: Seq<char>, i: int, j: int)
    requires
        0 <= i <= j <= s.len(),
        forall|x: int| i <= x < j ==> text::is_digit(#[trigger] s[x]),
        j < s.len() ==> !text::is_digit(s[j]),
    ensures
        after_digits(s, i) == j,
    decreases j - i,
{
    if i < j {
        assert(text::is_digit(s[i]));
        lemma_after_digits_run(s, i + 1, j);
    }
}

proof fn lemma_after_digits_stop(s: Seq<char>, i: int)
    requires
        0 <= i <= s.len(),
    ensures
        after_digits(s, i) < s.len() ==> !text::is_digit(s[after_digits(s, i)]),
    decreases s.len() - i,
{
    if i < s.len() && text::is_digit(s[i]) {
        lemma_after_digits_stop(s, i + 1);
    }
}

proof fn lemma_after_gap_run(s: Seq<char>, i: int, j: int)
    requires
        0 <= i <= j < s.len(),
        forall|x: int| i <= x < j ==> is_gap(#[trigger] s[x]),
        !is_gap(s[j]),
    ensures
        after_gap(s, i) == j,
    decreases j - i,
{
    if i < j {
        assert(is_gap(s[i]));
        lemma_after_gap_run(s, i + 1, j);
    }
}

proof fn lemma_gap_run(s: Seq<char>, i: int)
    requires
        0 <= i <= s.len(),
    ensures
        forall|x: int| i <= x < after_gap(s, i) ==> is_gap(#[trigger] s[x]),
    decreases s.len() - i,
{
    if i < s.len() && is_gap(s[i]) {
        lemma_gap_run(s, i + 1);
    }
}

/// A keymap whose maximum has been raised declares the new maximum.
pub proof fn lemma_raised_maximum(base: Seq<char>, new_max: nat)
    requires
        new_max <= u32::MAX,
        maximum_at(base) is Some,
    ensures
        match (maximum_at(base), maximum_raised(base, new_max)) {
            (Some((a, _, _)), Some((out, _))) => maximum_at(out) == Some(
                (a, (a + scan::decimal(new_max).len()) as int, new_max as int),
            ),
            _ => false,
        },
{
    lemma_maximum_at(base);
    let (a, b, v) = maximum_at(base)->0;
    let (out, at) = maximum_raised(base, new_max)->0;
    let num = scan::decimal(new_max);
    scan::lemma_decimal_digits(new_max);
    scan::law_decimal_round_trip(new_max, u32::MAX as int);
    scan::lemma_find_from(base, "maximum"@, 0);
    let k = scan::find(base, "maximum"@)->0;
    let w = "maximum"@.len() as int;
    lemma_after_gap(base, k + w);
    assert(base.take(a) =~= out.take(a));
    scan::lemma_find_in_prefix(base, out, "maximum"@, k, a);
    lemma_gap_run(base, k + w);
    assert forall|x: int| k + w <= x < a implies is_gap(#[trigger] out[x]) by {
        assert(is_gap(base[x]));
        assert(out.take(a)[x] == base.take(a)[x]);
    }
    assert(text::is_digit(num[0]));
    assert(out[a] == num[0]);
    lemma_after_gap_run(out, k + w, a);
    let e = a + num.len();
    assert forall|x: int| a <= x < e implies text::is_digit(#[trigger] out[x]) by {
        assert(text::is_digit(num[x - a]));
    }
    lemma_after_digits(base, a);
    lemma_after_digits_stop(base, a);
    if e < out.len() {
        assert(out[e as int] == base.skip(b)[0]);
    }
    lemma_after_digits_run(out, a, e as int);
    assert(out.subrange(a, e as int) =~= num);
}

/// The slots are covered: when `maximum` stands on a line of its own, the
/// extended keycodes section declares a maximum above every slot.
pub proof fn law_slots_are_within_the_maximum(base: Seq<char>, n: nat, slot_base: nat)
    requires
        slot_base + n <= u32::MAX,
        match maximum_at(base) {
            Some((_, b, _)) => base.skip(b).contains('\n'),
            None => false,
        },
    ensures
        match maximum_at(with_keycodes(base, n, slot_base)) {
            Some((_, _, v)) => v == slot_base + n,
            None => false,
        },
{
    let new_max = slot_base + n;
    lemma_raised_maximum(base, new_max);
    lemma_maximum_at(base);
    let (a, b, v) = maximum_at(base)->0;
    let (out, at) = maximum_raised(base, new_max)->0;
    let num = scan::decimal(new_max);
    let e = a + num.len();
    scan::lemma_decimal_digits(new_max);
    let rest = out.skip(a);
    scan::lemma_first_of(rest, '\n');
    let f = scan::first_of(rest, '\n');
    let i = choose|i: int| 0 <= i < base.skip(b).len() && base.skip(b)[i] == '\n';
    assert(out[e + i] == '\n');
    assert(rest[e + i - a] == '\n');
    assert(f < rest.len());
    if f < num.len() {
        assert(rest[f] == num[f]);
        assert(text::is_digit(num[f]));
    }
    assert(at > e);
    let t = with_keycodes(base, n, slot_base);
    assert(t.take(at) =~= out.take(at));
    lemma_maximum_in_prefix(out, t, at);
}

/// Whether a text holds no closing brace.
spec fn no_close(s: Seq<char>) -> bool {
    forall|x: int| 0 <= x < s.len() ==> #[trigger] s[x] != '}'
}

proof fn lemma_numeral_no_close(n: nat, base: nat)
    requires
        2 <= base <= 16,
    ensures
        no_close(scan::numeral(n, base)),
    decreases n,
{
    if n >= base {
        assert(n / base < n && n % base < base) by (nonlinear_arith)
            requires
                base >= 2,
                n >= base,
        ;
        lemma_numeral_no_close(n / base, base);
    }
}

proof fn lemma_padded_no_close(s: Seq<char>, width: int)
    requires
        no_close(s),
    ensures
        no_close(scan::zero_padded(s, width)),
    decreases width - s.len(),
{
    if s.len() < width {
        lemma_padded_no_close(seq!['0'] + s, width);
    }
}

proof fn lemma_keycode_line_no_close(i: nat, slot_base: nat)
    ensures
        no_close(keycode_line(i, slot_base)),
{
    reveal_strlit("\t");
    reveal_strlit("<Z");
    reveal_strlit(">");
    reveal_strlit(" = ");
    reveal_strlit(";\n");
    lemma_numeral_no_close(i, 16);
    lemma_padded_no_close(scan::hexadecimal(i), 3);
    lemma_numeral_no_close(slot_base + i, 10);
    assert(no_close(slot_name(i)));
}

/// What stands in a text stands in a longer one too.
proof fn lemma_occurs_inside(a: Seq<char>, t: Seq<char>, b: Seq<char>, p: Seq<char>, k: int)
    requires
        scan::occurs_at(t, p, k),
    ensures
        scan::occurs_at(a + t + b, p, a.len() + k),
{
    let s = a + t + b;
    assert(s.subrange(a.len() + k, a.len() + k + p.len()) =~= t.subrange(k, k + p.len()));
}

proof fn lemma_keycode_line_occurs(n: nat, slot_base: nat, i: nat) -> (k: int)
    requires
        i < n,
    ensures
        scan::occurs_at(keycode_lines(n, slot_base), keycode_line(i, slot_base), k),
    decreases n,
{
    let before = keycode_lines((n - 1) as nat, slot_base);
    let line = keycode_line((n - 1) as nat, slot_base);
    if i == n - 1 {
        assert((before + line).subrange(before.len() as int, (before + line).len() as int) =~= line);
        before.len() as int
    } else {
        let k = lemma_keycode_line_occurs((n - 1) as nat, slot_base, i);
        lemma_occurs_inside(Seq::empty(), before, line, keycode_line(i, slot_base), k);
        assert(Seq::<char>::empty() + before + line =~= before + line);
        k
    }
}

proof fn lemma_symbol_line_occurs(chars: Seq<char>, i: int) -> (k: int)
    requires
        0 <= i < chars.len(),
    ensures
        scan::occurs_at(symbol_lines(chars), symbol_line(i as nat, chars[i]), k),
    decreases chars.len(),
{
    let before = symbol_lines(chars.drop_last());
    let line = symbol_line((chars.len() - 1) as nat, chars.last());
    if i == chars.len() - 1 {
        assert((before + line).subrange(before.len() as int, (before + line).len() as int) =~= line);
        before.len() as int
    } else {
        let k = lemma_symbol_line_occurs(chars.drop_last(), i);
        lemma_occurs_inside(Seq::empty(), before, line, symbol_line(i as nat, chars[i]), k);
        assert(Seq::<char>::empty() + before + line =~= before + line);
        k
    }
}

/// Every slot can be typed: an extended keymap declares the keycode of each slot
/// and maps it to its character, as long as the base has a `maximum` and a
/// symbols block.
pub proof fn law_every_slot_is_mapped(base: Seq<char>, chars: Seq<char>, slot_base: nat, i: int)
    requires
        0 <= i < chars.len(),
        maximum_at(base) is Some,
        symbols_close_at(with_keycodes(base, chars.len(), slot_base)) is Some,
    ensures
        exists|k: int| #[trigger]
            scan::occurs_at(
                extended(base, chars, slot_base),
                keycode_line(i as nat, slot_base),
                k,
            ),
        exists|k: int| #[trigger]
            scan::occurs_at(
                extended(base, chars, slot_base),
                symbol_line(i as nat, chars[i]),
                k,
            ),
{
    let n = chars.len();
    let t = with_keycodes(base, n, slot_base);
    let close = symbols_close_at(t)->0;
    let symbols = symbol_lines(chars);
    let all = extended(base, chars, slot_base);
    let block = scan::find(t, "xkb_symbols"@)->0;
    scan::lemma_find_from(t, "xkb_symbols"@, 0);
    scan::lemma_first_of(t.skip(block), '{');
    let open = block + scan::first_of(t.skip(block), '{');
    lemma_brace_close(t, open, open);
    let ks = lemma_symbol_line_occurs(chars, i);
    lemma_occurs_inside(t.take(close), symbols, t.skip(close), symbol_line(i as nat, chars[i]), ks);
    let (out, at) = maximum_raised(base, slot_base + n)->0;
    let (a, b, _) = maximum_at(base)->0;
    lemma_maximum_at(base);
    scan::lemma_first_of(out.skip(a), '\n');
    let line = keycode_line(i as nat, slot_base);
    let kk = lemma_keycode_line_occurs(n, slot_base, i as nat);
    lemma_occurs_inside(out.take(at), keycode_lines(n, slot_base), out.skip(at), line, kk);
    let p = at + kk;
    assert(scan::occurs_at(t, line, p));
    lemma_keycode_line_no_close(i as nat, slot_base);
    if p <= close < p + line.len() {
        assert(t.subrange(p, p + line.len())[close - p] == '}');
    }
    if close < p {
        let q = p + symbols.len();
        assert(all.subrange(q, q + line.len()) =~= t.subrange(p, p + line.len()));
        assert(scan::occurs_at(all, line, q));
    } else {
        assert(all.subrange(p, p + line.len()) =~= t.subrange(p, p + line.len()));
        assert(scan::occurs_at(all, line, p));
    }
}

proof fn lemma_after_gap_is(s: Seq<char>, i: int, a: int)
    requires
        0 <= i <= a <= s.len(),
        forall|j: int| i <= j < a ==> is_gap(#[trigger] s[j]),
        a < s.len() ==> !is_gap(s[a]),
    ensures
        after_gap(s, i) == a,
    decreases a - i,
{
    if i < a {
        lemma_after_gap_is(s, i + 1, a);
    }
}

proof fn lemma_after_digits_is(s: Seq<char>, i: int, b: int)
    requires
        0 <= i <= b <= s.len(),
        forall|j: int| i <= j < b ==> text::is_digit(#[trigger] s[j]),
        b < s.len() ==> !text::is_digit(s[b]),
    ensures
        after_digits(s, i) == b,
    decreases b - i,
{
    if i < b {
        lemma_after_digits_is(s, i + 1, b);
    }
}

/// The maximum is the number behind the first "maximum", with spaces, tabs and an
/// equals sign between them allowed; it ends where the digits end.
pub proof fn law_maximum_is_the_number_behind_the_word(s: Seq<char>, k: int, a: int, b: int)
    requires
        scan::find(s, "maximum"@) == Some(k),
        k + 7 <= a <= b <= s.len(),
        forall|j: int|
            k + 7 <= j < a ==> (#[trigger] s[j]) == ' ' || s[j] == '\t' || s[j] == '=',
        a < s.len() ==> s[a] != ' ' && s[a] != '\t' && s[a] != '=',
        forall|j: int| a <= j < b ==> '0' as int <= (#[trigger] s[j]) as int <= '9' as int,
        b < s.len() ==> !('0' as int <= s[b] as int <= '9' as int),
    ensures
        match scan::parsed(s.subrange(a, b), 0xffff_ffff) {
            Some(v) => maximum_at(s) == Some((a, b, v)),
            None => maximum_at(s) is None,
        },
{
    reveal_strlit("maximum");
    scan::lemma_find_from(s, "maximum"@, 0);
    assert forall|j: int| k + 7 <= j < a implies is_gap(#[trigger] s[j]) by {}
    assert forall|j: int| a <= j < b implies text::is_digit(#[trigger] s[j]) by {}
    lemma_after_gap_is(s, k + 7, a);
    lemma_after_digits_is(s, a, b);
}

/// Without the word there is no maximum.
pub proof fn law_no_maximum_without_the_word(s: Seq<char>)
    requires
        scan::find(s, "maximum"@) is None,
    ensures
        maximum_at(s) is None,
        forall|n: nat, b: nat| #[trigger] with_keycodes(s, n, b) == s,
{
}

/// A text takes as many bytes as its characters do: one for ASCII, and for others
/// one more for each step that their value passes.
pub proof fn law_utf8_length(a: Seq<char>, c: char)
    ensures
        utf8_len(a.push(c)) == utf8_len(a) + 1 + (if c as int > 0x7F {
            1nat
        } else {
            0
        }) + (if c as int > 0x7FF {
            1nat
        } else {
            0
        }) + (if c as int > 0xFFFF {
            1nat
        } else {
            0
        }),
        utf8_len(Seq::empty()) == 0,
{
    assert(a.push(c).drop_last() =~= a);
}

/// The depth of braces is the number of those that open less the number of those
/// that close.
pub proof fn law_depth_counts_the_braces(s: Seq<char>, i: int, j: int)
    requires
        0 <= i <= j <= s.len(),
    ensures
        brace_depth(s, i, j) == s.subrange(i, j).filter(|c: char| c == '{').len() - s.subrange(
            i,
            j,
        ).filter(|c: char| c == '}').len(),
    decreases j - i,
{
    reveal(Seq::filter);
    let t = s.subrange(i, j);
    if i < j {
        law_depth_counts_the_braces(s, i, j - 1);
        assert(t.drop_last() =~= s.subrange(i, j - 1));
        assert(t.last() == s[j - 1]);
    }
}

/// The block of symbols closes at the first brace that brings the depth back to
/// zero, counted from the brace that opens it.
pub proof fn law_symbols_close_where_the_braces_balance(s: Seq<char>, block: int, open: int, k: int)
    requires
        scan::find(s, "xkb_symbols"@) == Some(block),
        block <= open <= k < s.len(),
        s[open] == '{',
        forall|j: int| block <= j < open ==> s[j] != '{',
        s[k] == '}',
        brace_depth(s, open, k + 1) == 0,
        forall|j: int| open <= j < k ==> #[trigger] brace_depth(s, open, j + 1) > 0,
    ensures
        symbols_close_at(s) == Some(k),
        k + 1 < s.len() && s[k + 1] == ';' ==> symbols_end_at(s) == Some(k + 2),
        !(k + 1 < s.len() && s[k + 1] == ';') ==> symbols_end_at(s) == Some(k + 1),
{
    scan::lemma_find_from(s, "xkb_symbols"@, 0);
    let t = s.skip(block);
    assert forall|j: int| 0 <= j < open - block implies t[j] != '{' by {
        assert(t[j] == s[block + j]);
    }
    assert(t[open - block] == s[open]);
    scan::lemma_first_of_unique(t, '{', open - block);
    lemma_brace_close_is(s, open, open, k);
}

proof fn lemma_brace_close_is(s: Seq<char>, open: int, i: int, k: int)
    requires
        0 <= open <= i <= k < s.len(),
        s[k] == '}',
        brace_depth(s, open, k + 1) == 0,
        forall|j: int| open <= j < k ==> #[trigger] brace_depth(s, open, j + 1) > 0,
    ensures
        brace_close(s, open, i) == Some(k),
    decreases k - i,
{
    if i < k {
        assert(brace_depth(s, open, i + 1) > 0);
        lemma_brace_close_is(s, open, i + 1, k);
    }
}

/// A slot is named by three hexadecimal digits of its number.
pub proof fn law_slot_names_have_three_digits(i: nat)
    requires
        i < 0x1000,
    ensures
        ({
            let n = slot_name(i);
            let d = seq![i as int / 256, (i as int / 16) % 16, i as int % 16];
            &&& n.len() == 6
            &&& n[0] == '<' && n[1] == 'Z' && n[5] == '>'
            &&& forall|j: int|
                0 <= j < 3 ==> (#[trigger] d[j] < 10 ==> n[2 + j] as int == '0' as int + d[j]) && (
                d[j] >= 10 ==> n[2 + j] as int == 'A' as int + d[j] - 10)
        }),
{
    reveal_strlit("<Z");
    reveal_strlit(">");
    lemma_hex_padded(i, 3);
}

/// The digits of a number below a power of sixteen, zeros in front.
proof fn lemma_hex_padded(i: nat, width: int)
    requires
        (width == 3 && i < 0x1000) || (width == 4 && i < 0x10000),
    ensures
        ({
            let h = scan::zero_padded(scan::hexadecimal(i), width);
            &&& h.len() == width
            &&& h[width - 1] == scan::digit_char(i as int % 16)
            &&& h[width - 2] == scan::digit_char((i as int / 16) % 16)
            &&& h[width - 3] == scan::digit_char((i as int / 256) % 16)
            &&& width == 4 ==> h[0] == scan::digit_char(i as int / 4096)
        }),
{
    reveal_with_fuel(scan::numeral, 5);
    let x = scan::hexadecimal(i);
    scan::law_padding_puts_zeros_in_front(x, width);
    let h = scan::zero_padded(x, width);
    assert(scan::digit_char(0) == '0');
    if x.len() < width {
        assert forall|m: int| width - x.len() <= m < width implies #[trigger] h[m] == x[m - (width
            - x.len())] by {
            assert(h.skip(width - x.len())[m - (width - x.len())] == h[m]);
        }
    }
    if i < 16 {
        assert(x =~= seq![scan::digit_char(i as int)]);
    } else if i < 256 {
        assert(x =~= seq![scan::digit_char(i as int / 16), scan::digit_char(i as int % 16)]);
    } else if i < 4096 {
        assert(i / 16 / 16 == i / 256);
        assert(x =~= seq![
            scan::digit_char(i as int / 256),
            scan::digit_char((i as int / 16) % 16),
            scan::digit_char(i as int % 16),
        ]);
    } else {
        assert(i / 16 / 16 == i / 256);
        assert(i / 256 / 16 == i / 4096);
        assert(x =~= seq![
            scan::digit_char(i as int / 4096),
            scan::digit_char((i as int / 256) % 16),
            scan::digit_char((i as int / 16) % 16),
            scan::digit_char(i as int % 16),
        ]);
    }
}

/// The line of a slot gives it the code that far above the first, and the line of
/// its symbol gives it the character, as at least four hexadecimal digits.
pub proof fn law_slot_lines(i: nat, slot_base: nat, c: char)
    ensures
        keycode_line(i, slot_base) == seq!['\t'] + slot_name(i) + seq![' ', '=', ' ']
            + scan::decimal(slot_base + i) + seq![';', '\n'],
        symbol_line(i, c) == seq!['\t', 'k', 'e', 'y', ' '] + slot_name(i) + seq![
            ' ',
            '{',
            ' ',
            '[',
            ' ',
            'U',
        ] + scan::zero_padded(scan::hexadecimal(c as nat), 4) + seq![
            ' ',
            ']',
            ' ',
            '}',
            ';',
            '\n',
        ],
{
    reveal_strlit("\t");
    reveal_strlit(" = ");
    reveal_strlit(";\n");
    reveal_strlit("\tkey ");
    reveal_strlit(" { [ U");
    reveal_strlit(" ] };\n");
    assert("\t"@ =~= seq!['\t']);
    assert(" = "@ =~= seq![' ', '=', ' ']);
    assert(";\n"@ =~= seq![';', '\n']);
    assert("\tkey "@ =~= seq!['\t', 'k', 'e', 'y', ' ']);
    assert(" { [ U"@ =~= seq![' ', '{', ' ', '[', ' ', 'U']);
    assert(" ] };\n"@ =~= seq![' ', ']', ' ', '}', ';', '\n']);
}

/// Each slot adds its line behind those of the slots before it.
pub proof fn law_lines_follow_each_other(n: nat, slot_base: nat, chars: Seq<char>, c: char)
    ensures
        keycode_lines(0, slot_base).len() == 0,
        keycode_lines(n + 1, slot_base) == keycode_lines(n, slot_base) + keycode_line(
            n,
            slot_base,
        ),
        symbol_lines(Seq::empty()).len() == 0,
        symbol_lines(chars.push(c)) == symbol_lines(chars) + symbol_line(chars.len(), c),
{
    assert(chars.push(c).drop_last() =~= chars);
    assert(keycode_lines(0, slot_base) =~= Seq::<char>::empty());
    assert(symbol_lines(Seq::<char>::empty()) =~= Seq::<char>::empty());
}

/// Raising the maximum replaces its digits alone, and new codes go on the next
/// line: nothing else of the keymap changes.
pub proof fn law_keycodes_are_inserted_behind_the_maximum(
    base: Seq<char>,
    n: nat,
    slot_base: nat,
    a: int,
    b: int,
    v: int,
    e: int,
)
    requires
        maximum_at(base) == Some((a, b, v)),
        b <= e < base.len(),
        base[e] == '\n',
        forall|j: int| b <= j < e ==> base[j] != '\n',
    ensures
        with_keycodes(base, n, slot_base) == base.take(a) + scan::decimal(slot_base + n)
            + base.subrange(b, e + 1) + keycode_lines(n, slot_base) + base.skip(e + 1),
{
    lemma_maximum_at(base);
    let d = scan::decimal(slot_base + n);
    scan::lemma_decimal_digits(slot_base + n);
    let out = base.take(a) + d + base.skip(b);
    let t = out.skip(a);
    let m = d.len() + (e - b);
    assert(t =~= d + base.skip(b));
    assert forall|j: int| 0 <= j < m implies t[j] != '\n' by {
        if j < d.len() {
            assert(t[j] == d[j]);
            assert(text::is_digit(d[j]));
        } else {
            assert(t[j] == base[b + (j - d.len())]);
        }
    }
    assert(t[m] == base[e]);
    scan::lemma_first_of_unique(t, '\n', m);
    let at = a + m + 1;
    assert(out.take(at) =~= base.take(a) + d + base.subrange(b, e + 1));
    assert(out.skip(at) =~= base.skip(e + 1));
    assert(with_keycodes(base, n, slot_base) =~= base.take(a) + d + base.subrange(b, e + 1)
        + keycode_lines(n, slot_base) + base.skip(e + 1));
}

/// Symbols go right before the brace that closes their block; without the block
/// the keymap stays as it is, and without characters too.
pub proof fn law_symbols_are_inserted_before_the_close(s: Seq<char>, chars: Seq<char>, b: nat)
    ensures
        symbols_close_at(s) matches Some(k) ==> with_symbols(s, chars) == s.take(k) + symbol_lines(
            chars,
        ) + s.skip(k) && s[k] == '}',
        symbols_close_at(s) is None ==> with_symbols(s, chars) == s,
        extended(s, Seq::empty(), b) == s,
        chars.len() > 0 ==> extended(s, chars, b) == with_symbols(
            with_keycodes(s, chars.len(), b),
            chars,
        ),
{
    match scan::find(s, "xkb_symbols"@) {
        Some(block) => {
            scan::lemma_find_from(s, "xkb_symbols"@, 0);
            scan::lemma_first_of(s.skip(block), '{');
            let open = block + scan::first_of(s.skip(block), '{');
            lemma_brace_close(s, open, open);
        },
        None => {},
    }
}

/// Without a block of symbols, or without a brace that opens it, there is no place
/// for more.
pub proof fn law_no_close_without_the_block(s: Seq<char>, block: int)
    ensures
        scan::find(s, "xkb_symbols"@) is None ==> symbols_close_at(s) is None && symbols_end_at(
            s,
        ) is None,
        scan::find(s, "xkb_symbols"@) == Some(block) && (forall|j: int|
            block <= j < s.len() ==> s[j] != '{') ==> symbols_close_at(s) is None,
{
    if scan::find(s, "xkb_symbols"@) == Some(block) && (forall|j: int|
        block <= j < s.len() ==> s[j] != '{') {
        scan::lemma_find_from(s, "xkb_symbols"@, 0);
        let t = s.skip(block);
        assert forall|j: int| 0 <= j < t.len() implies t[j] != '{' by {
            assert(t[j] == s[block + j]);
        }
        scan::lemma_first_of_unique(t, '{', t.len() as int);
    }
}

} // verus!
