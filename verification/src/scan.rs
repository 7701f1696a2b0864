//! Searching and splitting character sequences, and numbers in text.

use vstd::prelude::*;

use crate::text;

verus! {

// ---------------------------------------------------------------------------
// Searching
// ---------------------------------------------------------------------------

/// Whether `p` stands at position `i` of `s`.
pub open spec fn occurs_at(s: Seq<char>, p: Seq<char>, i: int) -> bool {
    0 <= i && i + p.len() <= s.len() && s.subrange(i, i + p.len()) == p
}

/// The first position of `p` in `s` from `i` on.
pub open spec fn find_from(s: Seq<char>, p: Seq<char>, i: int) -> Option<int>
    decreases s.len() + 1 - i,
{
    if i < 0 || i + p.len() > s.len() {
        None
    } else if occurs_at(s, p, i) {
        Some(i)
    } else {
        find_from(s, p, i + 1)
    }
}

/// The first position of `p` in `s`.
pub open spec fn find(s: Seq<char>, p: Seq<char>) -> Option<int> {
    find_from(s, p, 0)
}

/// What a search reports: the least position at which the pattern stands, or
/// nothing when it stands nowhere.
pub proof fn lemma_find_from(s: Seq<char>, p: Seq<char>, i: int)
    requires
        0 <= i,
    ensures
        match find_from(s, p, i) {
            Some(k) => i <= k && occurs_at(s, p, k) && forall|j: int|
                i <= j < k ==> !#[trigger] occurs_at(s, p, j),
            None => forall|j: int| i <= j ==> !#[trigger] occurs_at(s, p, j),
        },
    decreases s.len() + 1 - i,
{
    if i + p.len() <= s.len() && !occurs_at(s, p, i) {
        lemma_find_from(s, p, i + 1);
    }
}

/// Whether `p` stands at position `i` of `v`.
fn stands_at(v: &[char], p: &[char], i: usize) -> (r: bool)
    requires
        i + p@.len() <= v@.len(),
    ensures
        r == occurs_at(v@, p@, i as int),
{
    let have: usize = v.len();
    let mut k: usize = 0;
    while k < p.len()
        invariant
            k <= p@.len(),
            have == v@.len(),
            i + p@.len() <= v@.len(),
            forall|j: int| 0 <= j < k ==> v@[i + j] == p@[j],
        decreases p@.len() - k,
    {
        if v[i + k] != p[k] {
            assert(v@.subrange(i as int, i + p@.len())[k as int] != p@[k as int]);
            return false;
        }
        k += 1;
    }
    assert(v@.subrange(i as int, i + p@.len()) =~= p@);
    true
}

/// The first position of `p` in `v` from `from` on.
pub fn find_chars(v: &[char], p: &[char], from: usize) -> (r: Option<usize>)
    ensures
        match r {
            Some(k) => find_from(v@, p@, from as int) == Some(k as int) && k + p@.len() <= v@.len(),
            None => find_from(v@, p@, from as int) is None,
        },
{
    let n: usize = v.len();
    let m: usize = p.len();
    if m > n || from > n - m {
        return None;
    }
    let mut i: usize = from;
    while i <= n - m
        invariant
            n == v@.len(),
            m == p@.len(),
            m <= n,
            from <= i <= n - m + 1,
            find_from(v@, p@, from as int) == find_from(v@, p@, i as int),
        decreases n - i,
    {
        if stands_at(v, p, i) {
            return Some(i);
        }
        if i == n - m {
            assert(find_from(v@, p@, i + 1) is None);
            return None;
        }
        i += 1;
    }
    None
}

/// Whether `p` stands anywhere in `s`.
pub open spec fn has_text(s: Seq<char>, p: Seq<char>) -> bool {
    exists|i: int| occurs_at(s, p, i)
}

/// Whether `s` contains `p`.
pub fn contains_text(s: &str, p: &str) -> (r: bool)
    ensures
        r == has_text(s@, p@),
{
    let v = text::chars_of(s);
    let w = text::chars_of(p);
    proof {
        lemma_find_from(s@, p@, 0);
        assert forall|i: int| occurs_at(s@, p@, i) implies 0 <= i by {}
    }
    match find_chars(&v, &w, 0) {
        Some(_) => true,
        None => false,
    }
}

/// Position of the first `c` in `s`, or the length of `s`.
pub open spec fn first_of(s: Seq<char>, c: char) -> int
    decreases s.len(),
{
    if s.len() == 0 || s[0] == c {
        0
    } else {
        1 + first_of(s.drop_first(), c)
    }
}

/// The first position holds `c`, and none before it does.
pub proof fn lemma_first_of(s: Seq<char>, c: char)
    ensures
        0 <= first_of(s, c) <= s.len(),
        first_of(s, c) < s.len() ==> s[first_of(s, c)] == c,
        forall|j: int| 0 <= j < first_of(s, c) ==> s[j] != c,
    decreases s.len(),
{
    if s.len() > 0 && s[0] != c {
        let d = s.drop_first();
        lemma_first_of(d, c);
        assert forall|j: int| 0 <= j < first_of(s, c) implies s[j] != c by {
            if j > 0 {
                assert(d[j - 1] == s[j]);
            }
        }
    }
}

/// There is one such position only.
pub proof fn lemma_first_of_unique(s: Seq<char>, c: char, k: int)
    requires
        0 <= k <= s.len(),
        k < s.len() ==> s[k] == c,
        forall|j: int| 0 <= j < k ==> s[j] != c,
    ensures
        first_of(s, c) == k,
{
    lemma_first_of(s, c);
    let f = first_of(s, c);
    if f < k {
        assert(s[f] != c);
    }
}

/// Position of the first `c` in `v`, or the length of `v`.
pub fn index_of(v: &[char], c: char) -> (r: usize)
    ensures
        r == first_of(v@, c),
        r <= v@.len(),
{
    let mut i: usize = 0;
    while i < v.len() && v[i] != c
        invariant
            i <= v@.len(),
            forall|j: int| 0 <= j < i ==> v@[j] != c,
        decreases v@.len() - i,
    {
        i += 1;
    }
    proof {
        lemma_first_of_unique(v@, c, i as int);
    }
    i
}

/// Whether `s` begins with `p`.
pub open spec fn begins_with(s: Seq<char>, p: Seq<char>) -> bool {
    occurs_at(s, p, 0)
}

/// Whether `s` ends with `p`.
pub open spec fn finishes_with(s: Seq<char>, p: Seq<char>) -> bool {
    occurs_at(s, p, s.len() - p.len())
}

/// Whether `v` begins with `p`.
pub fn starts_with(v: &[char], p: &[char]) -> (r: bool)
    ensures
        r == begins_with(v@, p@),
{
    p.len() <= v.len() && stands_at(v, p, 0)
}

/// Whether `v` ends with `p`.
pub fn ends_with(v: &[char], p: &[char]) -> (r: bool)
    ensures
        r == finishes_with(v@, p@),
{
    p.len() <= v.len() && stands_at(v, p, v.len() - p.len())
}

/// What is left of `s` behind the prefix `p`.
pub open spec fn after_prefix(s: Seq<char>, p: Seq<char>) -> Option<Seq<char>> {
    if begins_with(s, p) {
        Some(s.skip(p.len() as int))
    } else {
        None
    }
}

/// `s` without the suffix `p`, or `s` itself where it does not end so.
pub open spec fn without_suffix(s: Seq<char>, p: Seq<char>) -> Seq<char> {
    if finishes_with(s, p) {
        s.take(s.len() - p.len())
    } else {
        s
    }
}

/// What is left of `v` behind the prefix `p`.
pub fn strip_prefix(v: &[char], p: &str) -> (r: Option<Vec<char>>)
    ensures
        match r {
            Some(w) => after_prefix(v@, p@) == Some(w@),
            None => after_prefix(v@, p@) is None,
        },
{
    let q = text::chars_of(p);
    if starts_with(v, &q) {
        let r = text::slice_copy(v, q.len(), v.len());
        assert(r@ =~= v@.skip(p@.len() as int));
        Some(r)
    } else {
        None
    }
}

/// `v` without the suffix `p`.
pub fn strip_suffix(v: &[char], p: &str) -> (r: Vec<char>)
    ensures
        r@ == without_suffix(v@, p@),
{
    let q = text::chars_of(p);
    if ends_with(v, &q) {
        let r = text::slice_copy(v, 0, v.len() - q.len());
        assert(r@ =~= v@.take(v@.len() - p@.len()));
        r
    } else {
        let r = text::slice_copy(v, 0, v.len());
        assert(r@ =~= v@);
        r
    }
}

// ---------------------------------------------------------------------------
// Splitting at a separator
// ---------------------------------------------------------------------------

/// The pieces of `s` between the separators, empty pieces included.
pub open spec fn pieces(s: Seq<char>, sep: char) -> Seq<Seq<char>>
    decreases s.len(),
{
    proof {
        lemma_first_of(s, sep);
    }
    let k = first_of(s, sep);
    if k >= s.len() {
        seq![s]
    } else {
        seq![s.take(k)] + pieces(s.skip(k + 1), sep)
    }
}

/// The views of vectors of characters.
pub open spec fn rows(v: Seq<Vec<char>>) -> Seq<Seq<char>> {
    v.map_values(|s: Vec<char>| s@)
}

/// The pieces of `v` between the separators.
pub fn split_at_char(v: &[char], sep: char) -> (r: Vec<Vec<char>>)
    ensures
        rows(r@) == pieces(v@, sep),
    decreases v@.len(),
{
    let k: usize = index_of(v, sep);
    let mut out: Vec<Vec<char>> = Vec::new();
    if k == v.len() {
        let all = text::slice_copy(v, 0, k);
        assert(all@ =~= v@);
        out.push(all);
        assert(rows(out@) =~= pieces(v@, sep));
        return out;
    }
    let head = text::slice_copy(v, 0, k);
    let tail = text::slice_copy(v, k + 1, v.len());
    proof {
        assert(head@ =~= v@.take(k as int));
        assert(tail@ =~= v@.skip(k + 1));
    }
    out.push(head);
    let mut rest = split_at_char(&tail, sep);
    let ghost more = rest@;
    out.append(&mut rest);
    proof {
        assert(rows(out@) =~= seq![v@.take(k as int)] + rows(more));
    }
    out
}

// ---------------------------------------------------------------------------
// Numbers
// ---------------------------------------------------------------------------

/// The digit character of `d`, for bases up to sixteen.
pub open spec fn digit_char(d: int) -> char {
    if d < 10 {
        (48 + d) as char
    } else {
        (55 + d) as char
    }
}

/// `n` in base `base`, most significant digit first, letters in upper case.
pub open spec fn numeral(n: nat, base: nat) -> Seq<char>
    decreases n,
{
    if base < 2 || n < base {
        seq![digit_char(n as int)]
    } else {
        proof {
            assert(n / base < n) by (nonlinear_arith)
                requires
                    base >= 2,
                    n >= base,
            ;
        }
        numeral(n / base, base).push(digit_char((n % base) as int))
    }
}

/// `n` in decimal.
pub open spec fn decimal(n: nat) -> Seq<char> {
    numeral(n, 10)
}

/// `n` in upper-case hexadecimal.
pub open spec fn hexadecimal(n: nat) -> Seq<char> {
    numeral(n, 16)
}

/// `s` filled up on the left with zeros to at least `width` characters.
pub open spec fn zero_padded(s: Seq<char>, width: int) -> Seq<char>
    decreases width - s.len(),
{
    if s.len() >= width {
        s
    } else {
        zero_padded(seq!['0'] + s, width)
    }
}

/// Executable form of [`digit_char`].
fn digit_of(d: u64) -> (c: char)
    requires
        d < 16,
    ensures
        c == digit_char(d as int),
{
    if d == 0 { '0' }
    else if d == 1 { '1' }
    else if d == 2 { '2' }
    else if d == 3 { '3' }
    else if d == 4 { '4' }
    else if d == 5 { '5' }
    else if d == 6 { '6' }
    else if d == 7 { '7' }
    else if d == 8 { '8' }
    else if d == 9 { '9' }
    else if d == 10 { 'A' }
    else if d == 11 { 'B' }
    else if d == 12 { 'C' }
    else if d == 13 { 'D' }
    else if d == 14 { 'E' }
    else { 'F' }
}

/// The characters of `n` in base `base`.
pub fn numeral_chars(n: u64, base: u64) -> (r: Vec<char>)
    requires
        2 <= base <= 16,
    ensures
        r@ == numeral(n as nat, base as nat),
    decreases n,
{
    if n < base {
        let mut out: Vec<char> = Vec::new();
        out.push(digit_of(n));
        assert(out@ =~= numeral(n as nat, base as nat));
        out
    } else {
        assert(n / base < n) by (nonlinear_arith)
            requires
                base >= 2,
                n >= base,
        ;
        let mut out = numeral_chars(n / base, base);
        out.push(digit_of(n % base));
        out
    }
}

/// The characters of `n` in decimal.
pub fn decimal_chars(n: u64) -> (r: Vec<char>)
    ensures
        r@ == decimal(n as nat),
{
    numeral_chars(n, 10)
}

/// `v` filled up on the left with zeros to at least `width` characters.
pub fn zero_pad(v: Vec<char>, width: usize) -> (r: Vec<char>)
    ensures
        r@ == zero_padded(v@, width as int),
    decreases width - v@.len(),
{
    if v.len() >= width {
        return v;
    }
    let mut out: Vec<char> = Vec::new();
    out.push('0');
    let mut rest = v;
    out.append(&mut rest);
    assert(out@ =~= seq!['0'] + v@);
    zero_pad(out, width)
}

/// The number that a sequence of decimal digits stands for.
pub open spec fn digits_value(s: Seq<char>) -> int
    decreases s.len(),
{
    if s.len() == 0 {
        0
    } else {
        digits_value(s.drop_last()) * 10 + (s.last() as int - 48)
    }
}

/// Whether every character is a decimal digit.
pub open spec fn all_digits(s: Seq<char>) -> bool {
    forall|i: int| 0 <= i < s.len() ==> text::is_digit(#[trigger] s[i])
}

/// The value of a run of digits is not below that of a prefix.
pub proof fn lemma_digits_value_grows(s: Seq<char>, k: int)
    requires
        all_digits(s),
        0 <= k <= s.len(),
    ensures
        0 <= digits_value(s.take(k)) <= digits_value(s),
    decreases s.len(),
{
    if s.len() == 0 {
        assert(s.take(k) =~= s);
    } else if k == s.len() {
        assert(s.take(k) =~= s);
        assert(text::is_digit(s.last()));
        assert forall|i: int| 0 <= i < s.drop_last().len() implies text::is_digit(
            #[trigger] s.drop_last()[i],
        ) by {
            assert(text::is_digit(s[i]));
        }
        lemma_digits_value_grows(s.drop_last(), k - 1);
    } else {
        assert(text::is_digit(s.last()));
        assert forall|i: int| 0 <= i < s.drop_last().len() implies text::is_digit(
            #[trigger] s.drop_last()[i],
        ) by {
            assert(text::is_digit(s[i]));
        }
        lemma_digits_value_grows(s.drop_last(), k);
        assert(s.drop_last().take(k) =~= s.take(k));
    }
}

/// The number that `s` spells in decimal digits, where it fits below or at
/// `limit`.
pub open spec fn parsed(s: Seq<char>, limit: int) -> Option<int> {
    if s.len() > 0 && all_digits(s) && digits_value(s) <= limit {
        Some(digits_value(s))
    } else {
        None
    }
}

/// The number that `v` spells in decimal digits.
pub fn parse_digits(v: &[char], limit: u64) -> (r: Option<u64>)
    ensures
        match r {
            Some(n) => parsed(v@, limit as int) == Some(n as int),
            None => parsed(v@, limit as int) is None,
        },
{
    if v.len() == 0 {
        return None;
    }
    let mut total: u64 = 0;
    let mut i: usize = 0;
    while i < v.len()
        invariant
            i <= v@.len(),
            total == digits_value(v@.take(i as int)),
            total <= limit,
            all_digits(v@.take(i as int)),
        decreases v@.len() - i,
    {
        let c: char = v[i];
        if !text::char_is_digit(c) {
            assert(!text::is_digit(v@[i as int]));
            return None;
        }
        let d: u64 = (text::code_point(c) - 48) as u64;
        let ghost next = v@.take(i + 1);
        proof {
            assert(next.drop_last() =~= v@.take(i as int));
            assert(digits_value(next) == total * 10 + d);
            assert forall|j: int| 0 <= j < next.len() implies text::is_digit(#[trigger] next[j]) by {
                if j < i {
                    assert(text::is_digit(v@.take(i as int)[j]));
                }
            }
        }
        let grown: u128 = total as u128 * 10 + d as u128;
        if grown > limit as u128 {
            proof {
                if all_digits(v@) {
                    lemma_digits_value_grows(v@, i + 1);
                }
            }
            return None;
        }
        total = grown as u64;
        i += 1;
    }
    assert(v@.take(i as int) =~= v@);
    Some(total)
}

/// A number written in decimal is made of digits.
pub proof fn lemma_decimal_digits(n: nat)
    ensures
        decimal(n).len() > 0,
        all_digits(decimal(n)),
        digits_value(decimal(n)) == n,
    decreases n,
{
    let s = decimal(n);
    if n < 10 {
        assert(s =~= seq![digit_char(n as int)]);
        assert(digits_value(s.drop_last()) == 0);
        assert(s.last() == digit_char(n as int));
        assert(text::is_digit(s[0]));
    } else {
        lemma_decimal_digits(n / 10);
        let d = decimal(n / 10);
        assert(s == d.push(digit_char((n % 10) as int)));
        assert(s.drop_last() =~= d);
        assert forall|i: int| 0 <= i < s.len() implies text::is_digit(#[trigger] s[i]) by {
            if i < d.len() {
                assert(text::is_digit(d[i]));
            }
        }
    }
}

/// Writing a number in decimal and reading it gives the number back.
pub proof fn law_decimal_round_trip(n: nat, limit: int)
    requires
        n <= limit,
    ensures
        parsed(decimal(n), limit) == Some(n as int),
{
    lemma_decimal_digits(n);
}

/// Searching finds the same place in a text that begins alike.
pub proof fn lemma_find_in_prefix(s: Seq<char>, t: Seq<char>, p: Seq<char>, k: int, n: int)
    requires
        find(s, p) == Some(k),
        k + p.len() <= n,
        n <= s.len(),
        n <= t.len(),
        s.take(n) == t.take(n),
    ensures
        find(t, p) == Some(k),
{
    lemma_find_from(s, p, 0);
    lemma_find_from(t, p, 0);
    assert forall|j: int| 0 <= j <= k implies occurs_at(s, p, j) == #[trigger] occurs_at(
        t,
        p,
        j,
    ) by {
        assert(s.subrange(j, j + p.len()) =~= s.take(n).subrange(j, j + p.len()));
        assert(t.subrange(j, j + p.len()) =~= t.take(n).subrange(j, j + p.len()));
    }
    assert(occurs_at(t, p, k));
    match find(t, p) {
        Some(m) => {
            if m < k {
                assert(occurs_at(s, p, m));
            }
        },
        None => {},
    }
}

/// A text is found where it first stands, character for character; where it is
/// not found it stands nowhere.
pub proof fn law_find_gives_the_first_place(s: Seq<char>, p: Seq<char>, i: int)
    ensures
        match find(s, p) {
            Some(k) => {
                &&& 0 <= k
                &&& k + p.len() <= s.len()
                &&& forall|j: int| 0 <= j < p.len() ==> s[k + j] == #[trigger] p[j]
                &&& 0 <= i < k ==> exists|j: int| 0 <= j < p.len() && s[i + j] != #[trigger] p[j]
            },
            None => 0 <= i && i + p.len() <= s.len() ==> exists|j: int|
                0 <= j < p.len() && s[i + j] != #[trigger] p[j],
        },
        has_text(s, p) <==> find(s, p) is Some,
{
    lemma_find_from(s, p, 0);
    if has_text(s, p) {
        let k = choose|k: int| occurs_at(s, p, k);
        assert(find(s, p) is Some);
    }
    match find(s, p) {
        Some(k) => {
            assert forall|j: int| 0 <= j < p.len() implies s[k + j] == #[trigger] p[j] by {
                assert(s.subrange(k, k + p.len())[j] == s[k + j]);
            }
            if 0 <= i < k {
                assert(!occurs_at(s, p, i));
                lemma_differs(s, p, i);
            }
        },
        None => {
            if 0 <= i && i + p.len() <= s.len() {
                assert(!occurs_at(s, p, i));
                lemma_differs(s, p, i);
            }
        },
    }
}

proof fn lemma_differs(s: Seq<char>, p: Seq<char>, i: int)
    requires
        0 <= i,
        i + p.len() <= s.len(),
        !occurs_at(s, p, i),
    ensures
        exists|j: int| 0 <= j < p.len() && s[i + j] != #[trigger] p[j],
{
    if forall|j: int| 0 <= j < p.len() ==> s[i + j] == #[trigger] p[j] {
        assert(s.subrange(i, i + p.len()) =~= p);
    }
}

/// A prefix or suffix is there exactly when the text is made of it and a rest,
/// and taking it off leaves that rest.
pub proof fn law_prefix_and_suffix(p: Seq<char>, rest: Seq<char>)
    ensures
        begins_with(p + rest, p),
        finishes_with(rest + p, p),
        after_prefix(p + rest, p) == Some(rest),
        without_suffix(rest + p, p) == rest,
{
    assert((p + rest).subrange(0, p.len() as int) =~= p);
    assert((rest + p).subrange(rest.len() as int, (rest.len() + p.len()) as int) =~= p);
    assert((p + rest).skip(p.len() as int) =~= rest);
    assert((rest + p).take(rest.len() as int) =~= rest);
}

/// Where a text does not begin with the prefix, or end with the suffix, nothing
/// is taken off.
pub proof fn law_other_texts_keep_their_ends(s: Seq<char>, p: Seq<char>, j: int)
    requires
        0 <= j < p.len(),
    ensures
        j >= s.len() || s[j] != p[j] ==> after_prefix(s, p) is None && !begins_with(s, p),
        p.len() > s.len() || s[s.len() - p.len() + j] != p[j] ==> without_suffix(s, p) == s
            && !finishes_with(s, p),
{
    if begins_with(s, p) {
        assert(s.subrange(0, p.len() as int)[j] == s[j]);
    }
    if finishes_with(s, p) {
        assert(s.subrange(s.len() - p.len(), s.len() as int)[j] == s[s.len() - p.len() + j]);
    }
}

/// Splitting at a separator loses nothing: no piece holds it, and the pieces
/// joined by it are the text again.
pub proof fn law_pieces_join_to_the_text(s: Seq<char>, sep: char)
    ensures
        pieces(s, sep).len() > 0,
        text::joined(pieces(s, sep), seq![sep]) == s,
        forall|i: int|
            0 <= i < pieces(s, sep).len() ==> !(#[trigger] pieces(s, sep)[i]).contains(sep),
    decreases s.len(),
{
    lemma_first_of(s, sep);
    let k = first_of(s, sep);
    if k >= s.len() {
        assert(pieces(s, sep) =~= seq![s]);
        assert(!s.contains(sep));
    } else {
        let rest = s.skip(k + 1);
        law_pieces_join_to_the_text(rest, sep);
        let head = seq![s.take(k)];
        let tail = pieces(rest, sep);
        assert(pieces(s, sep) =~= head + tail);
        text::law_joining_puts_the_separator_between(head, tail, seq![sep]);
        assert(text::joined(head, seq![sep]) == s.take(k));
        assert(s.take(k) + seq![sep] + rest =~= s);
        assert forall|i: int| 0 <= i < pieces(s, sep).len() implies !(#[trigger] pieces(
            s,
            sep,
        )[i]).contains(sep) by {
            if i > 0 {
                assert(pieces(s, sep)[i] == tail[i - 1]);
            } else {
                assert(!s.take(k).contains(sep));
            }
        }
    }
}

/// A decimal numeral ends in the last digit, and what stands before it is the
/// numeral of the tenth part; there are no leading zeros.
pub proof fn law_decimal_is_positional(n: nat)
    ensures
        decimal(n).last() as int == '0' as int + n % 10,
        n < 10 ==> decimal(n).len() == 1,
        n >= 10 ==> decimal(n).drop_last() == decimal(n / 10),
        n > 0 ==> decimal(n)[0] != '0',
    decreases n,
{
    if n >= 10 {
        law_decimal_is_positional(n / 10);
        assert(decimal(n).drop_last() =~= decimal(n / 10));
        assert(decimal(n)[0] == decimal(n / 10)[0]);
    }
}

/// A hexadecimal numeral ends in the last digit, with capital letters from ten
/// on, and what stands before it is the numeral of the sixteenth part.
pub proof fn law_hexadecimal_is_positional(n: nat)
    ensures
        n % 16 < 10 ==> hexadecimal(n).last() as int == '0' as int + n % 16,
        n % 16 >= 10 ==> hexadecimal(n).last() as int == 'A' as int + (n % 16 - 10),
        n < 16 ==> hexadecimal(n).len() == 1,
        n >= 16 ==> hexadecimal(n).drop_last() == hexadecimal(n / 16),
{
    if n >= 16 {
        assert(hexadecimal(n).drop_last() =~= hexadecimal(n / 16));
    }
}

/// Padding puts zeros in front until the width is reached.
pub proof fn law_padding_puts_zeros_in_front(s: Seq<char>, width: int)
    ensures
        s.len() >= width ==> zero_padded(s, width) == s,
        s.len() < width ==> zero_padded(s, width).len() == width,
        s.len() < width ==> zero_padded(s, width).skip(width - s.len()) == s,
        forall|i: int|
            0 <= i < width - s.len() ==> #[trigger] zero_padded(s, width)[i] == '0',
    decreases width - s.len(),
{
    if s.len() < width {
        let t = seq!['0'] + s;
        law_padding_puts_zeros_in_front(t, width);
        let r = zero_padded(t, width);
        if t.len() == width {
            assert(r.skip(1) =~= s);
        } else {
            let n = width - t.len();
            assert(r[n] == r.skip(n)[0]);
            assert(r.skip(n)[0] == '0');
            assert(r.skip(n + 1) =~= r.skip(n).drop_first());
            assert(r.skip(n).drop_first() =~= s);
        }
    }
}

/// A number is read digit by digit, ten for one place; anything but digits, and
/// a number over the limit, is refused.
pub proof fn law_numbers_are_read_by_digits(s: Seq<char>, d: int, limit: int, i: int)
    requires
        0 <= d < 10,
    ensures
        parsed(Seq::empty(), limit) is None,
        0 <= d <= limit ==> parsed(seq![(48 + d) as char], limit) == Some(d),
        parsed(s, limit) matches Some(n) ==> n <= limit && parsed(
            s.push((48 + d) as char),
            limit,
        ) == if 10 * n + d <= limit {
            Some(10 * n + d)
        } else {
            None
        },
        0 <= i < s.len() && !('0' as int <= s[i] as int <= '9' as int) ==> parsed(s, limit) is None,
{
    let c = (48 + d) as char;
    let one = seq![c];
    assert(one.drop_last() =~= Seq::<char>::empty());
    assert(digits_value(one.drop_last()) == 0);
    assert(one.last() == c);
    let t = s.push(c);
    assert(t.drop_last() =~= s);
    assert(t.last() == c);
    if parsed(s, limit) is Some {
        assert forall|j: int| 0 <= j < t.len() implies text::is_digit(#[trigger] t[j]) by {
            if j < s.len() {
                assert(t[j] == s[j]);
            }
        }
    }
    if 0 <= i < s.len() && all_digits(s) {
        assert(text::is_digit(s[i]));
    }
}

} // verus!
