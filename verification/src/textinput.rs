//! Typing composed text into the focused client through keycode slots.

use std::collections::HashMap;

use vstd::prelude::*;

use crate::keymap;
use crate::model::is_blank;
use crate::scan;
use crate::text;

verus! {

broadcast use vstd::std_specs::hash::group_hash_axioms;

/// Whether `v` is the code point of a character.
pub open spec fn is_code_point(v: int) -> bool {
    0 <= v <= 0xD7FF || 0xE000 <= v <= 0x10FFFF
}

/// `char::from_u32`: the character with the given code point, or `None` for a
/// number that is no code point of a character.
pub assume_specification[ char::from_u32 ](i: u32) -> (r: Option<char>)
    ensures
        match r {
            Some(c) => is_code_point(i as int) && c as int == i,
            None => !is_code_point(i as int),
        },
;

/// The characters from code point `from` to `to`, both included.
pub open spec fn char_range(from: int, to: int) -> Seq<char> {
    Seq::new((to - from + 1) as nat, |i: int| (from + i) as char)
}

/// The euro sign, dashes, curly quotes and the ellipsis.
pub open spec fn smart_chars() -> Seq<char> {
    seq![
        '\u{20AC}',
        '\u{2013}',
        '\u{2014}',
        '\u{2018}',
        '\u{2019}',
        '\u{201C}',
        '\u{201D}',
        '\u{2026}',
    ]
}

/// The characters that get slots at startup: printable ASCII, the Latin-1
/// Supplement and Latin Extended-A (European accents), plus the common "smart"
/// punctuation and the euro sign.
pub open spec fn startup_chars() -> Seq<char> {
    char_range(0x20, 0x7E) + char_range(0xA0, 0xFF) + char_range(0x100, 0x17F) + smart_chars()
}

/// Appends the characters from code point `from` to `to`.
fn push_range(out: &mut Vec<char>, from: u32, to: u32)
    requires
        from <= to <= 0xD7FF,
    ensures
        final(out)@ == old(out)@ + char_range(from as int, to as int),
{
    let ghost before = out@;
    let ghost all = char_range(from as int, to as int);
    let mut v: u32 = from;
    while v <= to
        invariant
            from <= v <= to + 1,
            to <= 0xD7FF,
            all == char_range(from as int, to as int),
            out@ == before + all.take(v - from),
        decreases to + 1 - v,
    {
        if let Some(c) = char::from_u32(v) {
            out.push(c);
        }
        v += 1;
        assert(out@ =~= before + all.take(v - from));
    }
    assert(all.take(v - from) =~= all);
}

/// Characters to pre-assign slots for at startup so typical (Latin-script) text
/// never forces a mid-session keymap change.
pub fn primed_chars() -> (r: Vec<char>)
    ensures
        r@ == startup_chars(),
{
    let mut out: Vec<char> = Vec::new();
    push_range(&mut out, 0x20, 0x7E);
    push_range(&mut out, 0xA0, 0xFF);
    push_range(&mut out, 0x100, 0x17F);
    out.push('\u{20AC}');
    out.push('\u{2013}');
    out.push('\u{2014}');
    out.push('\u{2018}');
    out.push('\u{2019}');
    out.push('\u{201C}');
    out.push('\u{201D}');
    out.push('\u{2026}');
    assert(out@ =~= startup_chars());
    out
}

/// Lets the focused client receive arbitrary composed Unicode characters
/// (accents, AltGr layers, dead-key results) independent of the host keyboard
/// layout.
pub struct TextInput {
    /// Base keymap (xkb text format) that Unicode slots are appended to; empty
    /// until primed (or if compiling the base layout failed).
    base: String,
    /// First xkb keycode used for a slot (just past the base keymap's maximum).
    slot_base: u32,
    /// Distinct characters seen so far; the index is the slot offset.
    chars: Vec<char>,
    /// Already-assigned keycodes, by code point.
    by_char: HashMap<u32, u32>,
    /// Set when `chars` grew and the keymap needs re-uploading.
    dirty: bool,
}

/// What a [`TextInput`] holds.
#[verifier::ext_equal]
pub struct TypingView {
    pub base: Seq<char>,
    pub slot_base: u32,
    /// The characters with a slot; the index is the slot offset.
    pub chars: Seq<char>,
    /// Whether a character got a slot that no uploaded keymap covers yet.
    pub dirty: bool,
}

/// How many keycodes slots may take behind the first one.
pub open spec fn slots_fit(slot_base: int) -> bool {
    slot_base + keymap::MAX_SLOTS <= u32::MAX
}

/// The first slot behind the keycodes that a keymap declares.
pub open spec fn first_slot(keymap: Seq<char>) -> int {
    match keymap::maximum_at(keymap) {
        Some((_, _, v)) => v + 12,
        None => 255int + 12,
    }
}

/// Whether a keymap leaves room for all the slots.
pub fn base_fits(keymap: &str) -> (r: bool)
    ensures
        r == slots_fit(first_slot(keymap@)),
{
    match keymap::parse_maximum(keymap) {
        Some(v) => v as u64 + 12 + keymap::MAX_SLOTS as u64 <= u32::MAX as u64,
        None => true,
    }
}

impl TypingView {
    /// Whether a new character can still get a slot.
    pub open spec fn has_room(self) -> bool {
        self.base.len() > 0 && self.chars.len() < keymap::MAX_SLOTS
    }

    /// The keycode that types `c` once `assigned` has run.
    pub open spec fn keycode(self, c: char) -> Option<int> {
        if self.chars.contains(c) {
            Some(self.slot_base + scan::first_of(self.chars, c))
        } else if self.has_room() {
            Some((self.slot_base + self.chars.len()) as int)
        } else {
            None
        }
    }

    /// The state once `c` has been looked up: a character seen for the first
    /// time gets the next slot.
    pub open spec fn assigned(self, c: char) -> TypingView {
        if !self.chars.contains(c) && self.has_room() {
            TypingView { chars: self.chars.push(c), dirty: true, ..self }
        } else {
            self
        }
    }

    /// The state once all of `cs` have been looked up.
    pub open spec fn assigned_all(self, cs: Seq<char>) -> TypingView
        decreases cs.len(),
    {
        if cs.len() == 0 {
            self
        } else {
            self.assigned_all(cs.drop_last()).assigned(cs.last())
        }
    }

    /// The state once a compiled base keymap is there to build on.
    pub open spec fn based(self, compiled: Option<Seq<char>>) -> TypingView {
        match compiled {
            Some(k) => if self.base.len() == 0 {
                TypingView { base: k, slot_base: first_slot(k) as u32, ..self }
            } else {
                self
            },
            None => self,
        }
    }

    /// The keymap that covers all slots assigned so far.
    pub open spec fn keymap(self) -> Seq<char> {
        keymap::extended(self.base, self.chars, self.slot_base as nat)
    }
}

impl View for TextInput {
    type V = TypingView;

    closed spec fn view(&self) -> TypingView {
        TypingView {
            base: self.base@,
            slot_base: self.slot_base,
            chars: self.chars@,
            dirty: self.dirty,
        }
    }
}

impl Default for TextInput {
    fn default() -> (r: Self)
        ensures
            r.wf(),
            r@ == (TypingView {
                base: Seq::empty(),
                slot_base: 0,
                chars: Seq::empty(),
                dirty: false,
            }),
    {
        let r = TextInput {
            base: String::new(),
            slot_base: 0,
            chars: Vec::new(),
            by_char: HashMap::new(),
            dirty: false,
        };
        assert(r@ =~= TypingView {
            base: Seq::empty(),
            slot_base: 0,
            chars: Seq::empty(),
            dirty: false,
        });
        r
    }
}

/// The view of an optional string.
pub open spec fn compiled_view(s: Option<String>) -> Option<Seq<char>> {
    match s {
        Some(t) => Some(t@),
        None => None,
    }
}

impl TextInput {
    /// Every character with a slot is found under its code point, with the
    /// keycode of its slot, and nothing else is; all slots have a keycode.
    pub closed spec fn wf(&self) -> bool {
        &&& self.chars@.len() <= keymap::MAX_SLOTS
        &&& self.base@.len() == 0 ==> self.chars@.len() == 0
        &&& slots_fit(self.slot_base as int)
        &&& forall|i: int|
            0 <= i < self.chars@.len() ==> self.by_char@.contains_key(
                (#[trigger] self.chars@[i]) as u32,
            ) && self.by_char@[self.chars@[i] as u32] == self.slot_base + i
        &&& forall|k: u32| #[trigger]
            self.by_char@.contains_key(k) ==> exists|i: int|
                0 <= i < self.chars@.len() && (#[trigger] self.chars@[i]) as u32 == k
    }

    /// Take the compiled base keymap, unless there is one already. Returns
    /// whether there is a base keymap to build on; an empty text is none.
    pub fn ensure_base(&mut self, compiled: Option<String>) -> (r: bool)
        requires
            old(self).wf(),
            match compiled {
                Some(k) => slots_fit(first_slot(k@)),
                None => true,
            },
        ensures
            final(self).wf(),
            final(self)@ == old(self)@.based(compiled_view(compiled)),
            r == (final(self)@.base.len() > 0),
    {
        let ghost before = self@;
        if self.has_base() {
            return true;
        }
        match compiled {
            Some(k) => {
                let max: u32 = match keymap::parse_maximum(k.as_str()) {
                    Some(m) => m,
                    None => 255,
                };
                self.slot_base = max + 12;
                self.base = k;
                assert(self@ =~= before.based(Some(k@)));
                self.has_base()
            },
            None => false,
        }
    }

    /// Whether there is a base keymap already.
    pub fn has_base(&self) -> (r: bool)
        ensures
            r == (self@.base.len() > 0),
    {
        !is_blank(self.base.as_str())
    }

    /// The xkb keycode that types `c`, assigning a new slot if needed. `compiled`
    /// is what compiling the base keymap gave; it is taken where there is no base
    /// yet. Returns `None` only if there is no base keymap or no slot is left.
    pub fn keycode_for(&mut self, compiled: Option<String>, c: char) -> (r: Option<u32>)
        requires
            old(self).wf(),
            match compiled {
                Some(k) => slots_fit(first_slot(k@)),
                None => true,
            },
        ensures
            final(self).wf(),
            ({
                let based = old(self)@.based(compiled_view(compiled));
                &&& final(self)@ == based.assigned(c)
                &&& match r {
                    Some(k) => based.keycode(c) == Some(k as int),
                    None => based.keycode(c) is None,
                }
            }),
    {
        let _ = self.ensure_base(compiled);
        self.slot_for(c)
    }

    /// The keycode that types `c` on the base that is there.
    fn slot_for(&mut self, c: char) -> (r: Option<u32>)
        requires
            old(self).wf(),
        ensures
            final(self).wf(),
            final(self)@ == old(self)@.assigned(c),
            match r {
                Some(k) => old(self)@.keycode(c) == Some(k as int),
                None => old(self)@.keycode(c) is None,
            },
    {
        broadcast use vstd::utf8::char_is_scalar;

        let ghost before = self@;
        let code: u32 = text::code_point(c);
        let known: Option<u32> = match self.by_char.get(&code) {
            Some(k) => Some(*k),
            None => None,
        };
        if let Some(k) = known {
            proof {
                let i = choose|i: int|
                    0 <= i < self.chars@.len() && (#[trigger] self.chars@[i]) as u32 == code;
                lemma_same_char(self.chars@[i], c);
                assert(before.chars.contains(c));
                assert forall|j: int| 0 <= j < i implies before.chars[j] != c by {
                    assert(self.by_char@[self.chars@[j] as u32] == self.slot_base + j);
                }
                scan::lemma_first_of_unique(before.chars, c, i);
            }
            return Some(k);
        }
        proof {
            if before.chars.contains(c) {
                let i = choose|i: int| 0 <= i < self.chars@.len() && self.chars@[i] == c;
                assert(self.by_char@.contains_key(self.chars@[i] as u32));
            }
        }
        if !self.has_base() || self.chars.len() >= keymap::MAX_SLOTS {
            return None;
        }
        let k: u32 = self.slot_base + self.chars.len() as u32;
        let ghost map0 = self.by_char@;
        let ghost chars0 = self.chars@;
        self.chars.push(c);
        self.by_char.insert(code, k);
        self.dirty = true;
        proof {
            assert(self@ =~= before.assigned(c));
            assert forall|i: int| 0 <= i < self.chars@.len() implies self.by_char@.contains_key(
                (#[trigger] self.chars@[i]) as u32,
            ) && self.by_char@[self.chars@[i] as u32] == self.slot_base + i by {
                if i < chars0.len() {
                    assert(self.chars@[i] == chars0[i]);
                    assert(map0.contains_key(chars0[i] as u32));
                }
            }
            assert forall|x: u32| #[trigger] self.by_char@.contains_key(x) implies exists|i: int|
                0 <= i < self.chars@.len() && (#[trigger] self.chars@[i]) as u32 == x by {
                if x == code {
                    assert(self.chars@[chars0.len() as int] as u32 == x);
                } else {
                    assert(map0.contains_key(x));
                    let i = choose|i: int| 0 <= i < chars0.len() && (#[trigger] chars0[i]) as u32
                        == x;
                    assert(self.chars@[i] as u32 == x);
                }
            }
        }
        Some(k)
    }

    /// If a new character was just assigned, the keymap to upload before typing.
    pub fn take_keymap(&mut self) -> (r: Option<String>)
        requires
            old(self).wf(),
        ensures
            final(self).wf(),
            final(self)@ == (TypingView { dirty: false, ..old(self)@ }),
            match r {
                Some(k) => old(self)@.dirty && k@ == old(self)@.keymap(),
                None => !old(self)@.dirty,
            },
    {
        let ghost before = self@;
        if self.dirty {
            self.dirty = false;
            assert(self@ =~= TypingView { dirty: false, ..before });
            Some(keymap::build_keymap(self.base.as_str(), &self.chars, self.slot_base))
        } else {
            assert(self@ =~= TypingView { dirty: false, ..before });
            None
        }
    }

    /// Build the startup keymap with the common characters pre-assigned, to be
    /// installed on the seat before any client connects. `None` if there is no
    /// base keymap.
    pub fn prime(&mut self, compiled: Option<String>) -> (r: Option<String>)
        requires
            old(self).wf(),
            match compiled {
                Some(k) => slots_fit(first_slot(k@)),
                None => true,
            },
        ensures
            final(self).wf(),
            ({
                let based = old(self)@.based(compiled_view(compiled));
                match r {
                    Some(k) => {
                        &&& based.base.len() > 0
                        &&& final(self)@ == (TypingView {
                            dirty: false,
                            ..based.assigned_all(startup_chars())
                        })
                        &&& k@ == final(self)@.keymap()
                    },
                    None => based.base.len() == 0 && final(self)@ == based,
                }
            }),
    {
        if !self.ensure_base(compiled) {
            return None;
        }
        let ghost start = self@;
        let all = primed_chars();
        let mut i: usize = 0;
        while i < all.len()
            invariant
                i <= all@.len(),
                all@ == startup_chars(),
                self.wf(),
                self@ == start.assigned_all(all@.take(i as int)),
            decreases all@.len() - i,
        {
            proof {
                assert(all@.take(i + 1).drop_last() =~= all@.take(i as int));
            }
            let _ = self.slot_for(all[i]);
            i += 1;
        }
        assert(all@.take(i as int) =~= all@);
        let ghost full = self@;
        self.dirty = false;
        assert(self@ =~= TypingView { dirty: false, ..full });
        Some(keymap::build_keymap(self.base.as_str(), &self.chars, self.slot_base))
    }

    /// What typing `c` takes: the keymap to upload first, if the character is
    /// new, and the xkb keycode to press and release. `compiled` is what compiling
    /// the base keymap gave; it is taken where there is no base yet. `None` when
    /// the character cannot be typed: there is no base keymap or no slot is left.
    pub fn type_step(&mut self, compiled: Option<String>, c: char) -> (r: Option<
        (Option<String>, u32),
    >)
        requires
            old(self).wf(),
            match compiled {
                Some(k) => slots_fit(first_slot(k@)),
                None => true,
            },
        ensures
            final(self).wf(),
            ({
                let based = old(self)@.based(compiled_view(compiled));
                match r {
                    Some((upload, code)) => {
                        let next = based.assigned(c);
                        &&& based.keycode(c) == Some(code as int)
                        &&& final(self)@ == (TypingView { dirty: false, ..next })
                        &&& match upload {
                            Some(k) => next.dirty && k@ == next.keymap(),
                            None => !next.dirty,
                        }
                    },
                    None => based.keycode(c) is None && final(self)@ == based,
                }
            }),
    {
        match self.keycode_for(compiled, c) {
            Some(code) => {
                let upload = self.take_keymap();
                Some((upload, code))
            },
            None => None,
        }
    }
}

/// Characters with the same code point are the same.
proof fn lemma_same_char(a: char, b: char)
    requires
        a as u32 == b as u32,
    ensures
        a == b,
{
    broadcast use vstd::utf8::char_is_scalar;

    assert(a as int == a as u32);
    assert(b as int == b as u32);
}

// ---------------------------------------------------------------------------
// Laws
// ---------------------------------------------------------------------------

/// Slots are stable: a character that has a keycode keeps it whatever other
/// characters are typed, and two characters never share one.
pub proof fn law_keycodes_are_stable_and_distinct(t: TypingView, c: char, d: char)
    requires
        t.chars.contains(c),
    ensures
        t.assigned(d).keycode(c) == t.keycode(c),
        c != d && t.keycode(d) is Some ==> t.keycode(c) != t.keycode(d),
        t.assigned(d).keycode(d) == t.keycode(d),
{
    let m = t.assigned(d);
    scan::lemma_first_of(t.chars, c);
    scan::lemma_first_of(t.chars, d);
    let i = scan::first_of(t.chars, c);
    let w = choose|w: int| 0 <= w < t.chars.len() && t.chars[w] == c;
    assert(i < t.chars.len());
    if t.chars.contains(d) {
        let x = choose|x: int| 0 <= x < t.chars.len() && t.chars[x] == d;
        assert(scan::first_of(t.chars, d) < t.chars.len());
    } else if t.has_room() {
        assert(m.chars[i] == c);
        assert(m.chars.contains(c));
        assert(m.chars[t.chars.len() as int] == d);
        assert(m.chars.contains(d));
        scan::lemma_first_of_unique(m.chars, c, i);
        assert forall|j: int| 0 <= j < t.chars.len() implies m.chars[j] != d by {
            assert(t.chars[j] == m.chars[j]);
        }
        scan::lemma_first_of_unique(m.chars, d, t.chars.len() as int);
    }
}

/// Looking up distinct characters on a fresh base gives each the next slot.
proof fn lemma_assigned_all_fresh(t: TypingView, cs: Seq<char>, n: int)
    requires
        t.base.len() > 0,
        t.chars.len() == 0,
        cs.len() <= keymap::MAX_SLOTS,
        forall|i: int, j: int| 0 <= i < j < cs.len() ==> #[trigger] cs[i] != #[trigger] cs[j],
        0 <= n <= cs.len(),
    ensures
        t.assigned_all(cs.take(n)).chars == cs.take(n),
        t.assigned_all(cs.take(n)).base == t.base,
        t.assigned_all(cs.take(n)).slot_base == t.slot_base,
    decreases n,
{
    if n == 0 {
        assert(t.assigned_all(cs.take(0)).chars =~= cs.take(0));
    } else {
        lemma_assigned_all_fresh(t, cs, n - 1);
        assert(cs.take(n).drop_last() =~= cs.take(n - 1));
        let part = cs.take(n - 1);
        let c = cs[n - 1];
        if part.contains(c) {
            let i = choose|i: int| 0 <= i < part.len() && part[i] == c;
            assert(cs[i] != cs[n - 1]);
        }
        assert(part.push(c) =~= cs.take(n));
    }
}

/// The startup characters are distinct.
proof fn lemma_startup_chars_distinct()
    ensures
        startup_chars().len() == 327,
        forall|i: int, j: int|
            0 <= i < j < startup_chars().len() ==> #[trigger] startup_chars()[i]
                != #[trigger] startup_chars()[j],
{
    let s = startup_chars();
    assert(smart_chars().len() == 8);
    assert(s.len() == 95 + 96 + 128 + 8);
    assert forall|i: int| 0 <= i < 319 implies #[trigger] s[i] as int == (if i < 95 {
        0x20 + i
    } else if i < 191 {
        0xA0 + (i - 95)
    } else {
        0x100 + (i - 191)
    }) by {}
    assert forall|i: int| 319 <= i < 327 implies #[trigger] s[i] == smart_chars()[i - 319] by {}
    assert forall|i: int, j: int| 0 <= i < j < s.len() implies #[trigger] s[i]
        != #[trigger] s[j] by {
        if j >= 319 {
            assert(s[j] == smart_chars()[j - 319]);
            assert(s[j] as int >= 0x2013);
            if i >= 319 {
                assert(s[i] == smart_chars()[i - 319]);
            } else {
                assert(s[i] as int <= 0x17F);
            }
        }
    }
}

/// Typical text never changes the keymap under a focused client: once primed on
/// a compiled base keymap, every startup character has a slot, and typing it
/// leaves nothing to upload.
pub proof fn law_primed_characters_need_no_new_keymap(t: TypingView, c: char)
    requires
        t.base.len() > 0,
        t.chars.len() == 0,
        startup_chars().contains(c),
    ensures
        ({
            let primed = TypingView { dirty: false, ..t.assigned_all(startup_chars()) };
            &&& primed.chars == startup_chars()
            &&& primed.assigned(c) == primed
            &&& primed.keycode(c) is Some
            &&& !primed.assigned(c).dirty
        }),
{
    let cs = startup_chars();
    lemma_startup_chars_distinct();
    lemma_assigned_all_fresh(t, cs, cs.len() as int);
    assert(cs.take(cs.len() as int) =~= cs);
}

/// Ready from the start are the printable characters of ASCII, of Latin-1 and of
/// Latin Extended-A, the euro sign, the dashes, the curly quotes and the ellipsis;
/// no others.
pub proof fn law_startup_characters(c: char)
    ensures
        startup_chars().contains(c) <==> ({
            let v = c as int;
            ||| 0x20 <= v <= 0x7E
            ||| 0xA0 <= v <= 0x17F
            ||| v == 0x20AC || v == 0x2013 || v == 0x2014 || v == 0x2018 || v == 0x2019 || v
                == 0x201C || v == 0x201D || v == 0x2026
        }),
{
    let s = startup_chars();
    let v = c as int;
    let a = char_range(0x20, 0x7E);
    let b = char_range(0xA0, 0xFF);
    let e = char_range(0x100, 0x17F);
    let q = smart_chars();
    assert(a.len() == 95 && b.len() == 96 && e.len() == 128 && q.len() == 8);
    if s.contains(c) {
        let i = choose|i: int| 0 <= i < s.len() && s[i] == c;
        if i < 95 {
            assert(s[i] == a[i]);
        } else if i < 191 {
            assert(s[i] == b[i - 95]);
        } else if i < 319 {
            assert(s[i] == e[i - 191]);
        } else {
            assert(s[i] == q[i - 319]);
        }
    }
    if 0x20 <= v <= 0x7E {
        assert(s[v - 0x20] == a[v - 0x20]);
        assert(a[v - 0x20] == c);
    }
    if 0xA0 <= v <= 0xFF {
        assert(s[95 + (v - 0xA0)] == b[v - 0xA0]);
        assert(b[v - 0xA0] == c);
    }
    if 0x100 <= v <= 0x17F {
        assert(s[191 + (v - 0x100)] == e[v - 0x100]);
        assert(e[v - 0x100] == c);
    }
    assert(s[319] == q[0] && s[320] == q[1] && s[321] == q[2] && s[322] == q[3] && s[323] == q[4]
        && s[324] == q[5] && s[325] == q[6] && s[326] == q[7]);
}

/// The slots begin twelve above the highest code of the base keymap, which is 255
/// where it does not say.
pub proof fn law_slots_begin_above_the_maximum(k: Seq<char>)
    ensures
        keymap::maximum_at(k) matches Some((a, b, v)) ==> first_slot(k) == v + 12,
        keymap::maximum_at(k) is None ==> first_slot(k) == 267,
{
}

/// A character has the code of its slot; a new one gets the next slot, as long as
/// there is a base keymap and not all 4095 slots are taken.
pub proof fn law_characters_get_consecutive_slots(t: TypingView, c: char, i: int)
    ensures
        0 <= i < t.chars.len() && t.chars[i] == c && (forall|j: int|
            0 <= j < i ==> t.chars[j] != c) ==> t.keycode(c) == Some(t.slot_base + i)
            && t.assigned(c) == t,
        !t.chars.contains(c) && t.base.len() > 0 && t.chars.len() < 4095 ==> {
            &&& t.keycode(c) == Some(t.slot_base + t.chars.len())
            &&& t.assigned(c).chars == t.chars.push(c)
            &&& t.assigned(c).dirty
            &&& t.assigned(c).base == t.base
            &&& t.assigned(c).slot_base == t.slot_base
        },
        !t.chars.contains(c) && (t.base.len() == 0 || t.chars.len() >= 4095) ==> t.keycode(c) is None
            && t.assigned(c) == t,
{
    if 0 <= i < t.chars.len() && t.chars[i] == c && (forall|j: int|
        0 <= j < i ==> t.chars[j] != c) {
        scan::lemma_first_of_unique(t.chars, c, i);
        assert(t.chars.contains(c));
    }
}

/// The first compiled keymap becomes the base, and stays it.
pub proof fn law_base_is_set_once(t: TypingView, k: Seq<char>, other: Option<Seq<char>>)
    requires
        0 <= first_slot(k) <= u32::MAX,
    ensures
        t.base.len() == 0 ==> t.based(Some(k)).base == k && t.based(Some(k)).slot_base == first_slot(
            k,
        ),
        t.base.len() > 0 ==> t.based(other) == t,
        t.based(None) == t,
        t.based(other).chars == t.chars,
        t.based(other).dirty == t.dirty,
{
}

/// Several characters get their slots one after the other.
pub proof fn law_characters_are_assigned_in_order(t: TypingView, cs: Seq<char>, c: char)
    ensures
        t.assigned_all(Seq::empty()) == t,
        t.assigned_all(cs.push(c)) == t.assigned_all(cs).assigned(c),
        t.keymap() == keymap::extended(t.base, t.chars, t.slot_base as nat),
{
    assert(cs.push(c).drop_last() =~= cs);
}

} // verus!
