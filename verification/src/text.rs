//! Character-level text operations, each with its meaning over `Seq<char>`.
//!
//! Executable functions work on a `Vec<char>` holding the characters of the
//! text and on positions in it; the spec functions say what each position
//! or piece is.

use vstd::prelude::*;

verus! {

/// The characters of `s`, in order.
pub fn chars_of(s: &str) -> (v: Vec<char>)
    ensures
        v@ == s@,
{
    let mut v: Vec<char> = Vec::new();
    for c in it: s.chars()
        invariant
            v@ == it.seq().take(it.index() as int),
    {
        v.push(c);
    }
    v
}

/// The piece of `s` from character `from` up to, not including, character `to`.
pub fn piece(s: &str, from: usize, to: usize) -> (r: String)
    requires
        from <= to <= s@.len(),
    ensures
        r@ == s@.subrange(from as int, to as int),
{
    s.substring_char(from, to).to_owned()
}

/// Whether two texts hold the same characters.
pub fn same_text(a: &str, b: &str) -> (r: bool)
    ensures
        r == (a@ == b@),
{
    let av = chars_of(a);
    let bv = chars_of(b);
    if av.len() != bv.len() {
        return false;
    }
    let mut i: usize = 0;
    while i < av.len()
        invariant
            i <= av.len(),
            av.len() == bv.len(),
            av@ == a@,
            bv@ == b@,
            forall|j: int| 0 <= j < i ==> av@[j] == bv@[j],
        decreases av.len() - i,
    {
        if av[i] != bv[i] {
            assert(a@[i as int] != b@[i as int]);
            return false;
        }
        i += 1;
    }
    assert(av@ =~= bv@);
    true
}

/// White space as Unicode defines it (the property `White_Space`).
pub open spec fn is_white_space(c: char) -> bool {
    let n = c as u32;
    ||| 0x09 <= n <= 0x0D
    ||| n == 0x20
    ||| n == 0x85
    ||| n == 0xA0
    ||| n == 0x1680
    ||| 0x2000 <= n <= 0x200A
    ||| n == 0x2028
    ||| n == 0x2029
    ||| n == 0x202F
    ||| n == 0x205F
    ||| n == 0x3000
}

/// Whether `c` is white space.
pub fn white_space(c: char) -> (b: bool)
    ensures
        b == is_white_space(c),
{
    let n: u32 = c as u32;
    (0x09 <= n && n <= 0x0D) || n == 0x20 || n == 0x85 || n == 0xA0 || n == 0x1680 || (0x2000 <= n
        && n <= 0x200A) || n == 0x2028 || n == 0x2029 || n == 0x202F || n == 0x205F || n == 0x3000
}

/// An ASCII decimal digit.
pub open spec fn is_digit(c: char) -> bool {
    '0' <= c <= '9'
}

/// The number a decimal digit stands for.
pub open spec fn digit_value(c: char) -> int {
    c as u32 - '0' as u32
}

/// Whether `c` is a decimal digit.
pub fn digit(c: char) -> (b: bool)
    ensures
        b == is_digit(c),
{
    '0' <= c && c <= '9'
}

/// The position of the first `c` in `s` at or after `from`; the length of
/// `s` when there is none.
pub open spec fn find_char(s: Seq<char>, c: char, from: int) -> int
    decreases s.len() - from,
{
    if from >= s.len() {
        s.len() as int
    } else if s[from] == c {
        from
    } else {
        find_char(s, c, from + 1)
    }
}

/// `find_char` gives the least position at or after `from` that holds `c`.
pub proof fn lemma_find_char(s: Seq<char>, c: char, from: int)
    requires
        0 <= from <= s.len(),
    ensures
        from <= find_char(s, c, from) <= s.len(),
        find_char(s, c, from) < s.len() ==> s[find_char(s, c, from)] == c,
        forall|j: int| from <= j < find_char(s, c, from) ==> s[j] != c,
    decreases s.len() - from,
{
    if from < s.len() && s[from] != c {
        lemma_find_char(s, c, from + 1);
    }
}

/// A position that holds the first `c` at or after `from` is what `find_char` gives.
pub proof fn lemma_find_char_at(s: Seq<char>, c: char, from: int, at: int)
    requires
        0 <= from <= at <= s.len(),
        at < s.len() ==> s[at] == c,
        forall|j: int| from <= j < at ==> s[j] != c,
    ensures
        find_char(s, c, from) == at,
    decreases at - from,
{
    if from < at {
        lemma_find_char_at(s, c, from + 1, at);
    }
}

/// The position of the first `c` at or after `from`, or the length of `v`.
pub fn index_of_char(v: &Vec<char>, c: char, from: usize) -> (r: usize)
    requires
        from <= v.len(),
    ensures
        r == find_char(v@, c, from as int),
        from <= r <= v.len(),
{
    let mut i: usize = from;
    while i < v.len() && v[i] != c
        invariant
            from <= i <= v.len(),
            find_char(v@, c, from as int) == find_char(v@, c, i as int),
        decreases v.len() - i,
    {
        i += 1;
    }
    i
}

/// `pat` stands in `s` at position `at`.
pub open spec fn occurs_at(s: Seq<char>, pat: Seq<char>, at: int) -> bool {
    &&& 0 <= at
    &&& at + pat.len() <= s.len()
    &&& s.subrange(at, at + pat.len()) == pat
}

/// Whether `pat` stands in `v` at position `at`.
pub fn matches_at(v: &Vec<char>, pat: &Vec<char>, at: usize) -> (b: bool)
    ensures
        b == occurs_at(v@, pat@, at as int),
{
    if at > v.len() || pat.len() > v.len() - at {
        return false;
    }
    let mut k: usize = 0;
    while k < pat.len()
        invariant
            at + pat.len() <= v.len(),
            k <= pat.len(),
            forall|j: int| 0 <= j < k ==> v@[at + j] == pat@[j],
        decreases pat.len() - k,
    {
        if v[at + k] != pat[k] {
            assert(v@.subrange(at as int, at + pat.len())[k as int] != pat@[k as int]);
            return false;
        }
        k += 1;
    }
    assert(v@.subrange(at as int, at + pat.len()) =~= pat@);
    true
}

/// The position of the first occurrence of `pat` in `s` at or after `from`.
pub open spec fn find_text(s: Seq<char>, pat: Seq<char>, from: int) -> Option<int>
    decreases s.len() + 1 - from,
{
    if from < 0 || from + pat.len() > s.len() {
        None
    } else if occurs_at(s, pat, from) {
        Some(from)
    } else {
        find_text(s, pat, from + 1)
    }
}

/// `find_text` gives the least position at or after `from` where `pat` stands.
pub proof fn lemma_find_text(s: Seq<char>, pat: Seq<char>, from: int)
    requires
        0 <= from,
    ensures
        match find_text(s, pat, from) {
            Some(at) => from <= at && occurs_at(s, pat, at) && forall|j: int|
                from <= j < at ==> !occurs_at(s, pat, j),
            None => forall|j: int| from <= j ==> !occurs_at(s, pat, j),
        },
    decreases s.len() + 1 - from,
{
    if from + pat.len() <= s.len() && !occurs_at(s, pat, from) {
        lemma_find_text(s, pat, from + 1);
    }
}

/// A position where `pat` stands, with none before it from `from` on, is what
/// `find_text` gives.
pub proof fn lemma_find_text_at(s: Seq<char>, pat: Seq<char>, from: int, at: int)
    requires
        0 <= from <= at,
        occurs_at(s, pat, at),
        forall|j: int| from <= j < at ==> !occurs_at(s, pat, j),
    ensures
        find_text(s, pat, from) == Some(at),
    decreases at - from,
{
    if from < at {
        lemma_find_text_at(s, pat, from + 1, at);
    }
}

/// The position of the first occurrence of `pat` in `v` at or after `from`.
pub fn index_of_text(v: &Vec<char>, pat: &Vec<char>, from: usize) -> (r: Option<usize>)
    ensures
        match r {
            Some(at) => find_text(v@, pat@, from as int) == Some(at as int) && from <= at && at
                + pat.len() <= v.len(),
            None => find_text(v@, pat@, from as int) is None,
        },
{
    if from > v.len() || pat.len() > v.len() - from {
        return None;
    }
    let mut i: usize = from;
    while pat.len() <= v.len() - i
        invariant
            from <= i <= v.len(),
            find_text(v@, pat@, from as int) == find_text(v@, pat@, i as int),
        decreases v.len() - i,
    {
        if matches_at(v, pat, i) {
            return Some(i);
        }
        proof {
            if pat.len() == 0 {
                assert(v@.subrange(i as int, i as int) =~= pat@);
            }
        }
        i += 1;
    }
    None
}

/// The first position in `[from, to)` that holds no white space; `to` when
/// there is none.
pub open spec fn skip_spaces(s: Seq<char>, from: int, to: int) -> int
    decreases to - from,
{
    if from < to && is_white_space(s[from]) {
        skip_spaces(s, from + 1, to)
    } else {
        from
    }
}

/// The end of `[from, to)` once the white space at its end is taken off.
pub open spec fn drop_spaces(s: Seq<char>, from: int, to: int) -> int
    decreases to - from,
{
    if from < to && is_white_space(s[to - 1]) {
        drop_spaces(s, from, to - 1)
    } else {
        to
    }
}

/// `s` without the white space at its start and at its end.
pub open spec fn trimmed(s: Seq<char>) -> Seq<char> {
    let a = skip_spaces(s, 0, s.len() as int);
    s.subrange(a, drop_spaces(s, a, s.len() as int))
}

/// `skip_spaces` passes over white space only, and stops at what is none.
proof fn lemma_skip_spaces(s: Seq<char>, from: int, to: int)
    requires
        from <= to,
    ensures
        from <= skip_spaces(s, from, to) <= to,
        forall|j: int| from <= j < skip_spaces(s, from, to) ==> is_white_space(s[j]),
        skip_spaces(s, from, to) < to ==> !is_white_space(s[skip_spaces(s, from, to)]),
    decreases to - from,
{
    if from < to && is_white_space(s[from]) {
        lemma_skip_spaces(s, from + 1, to);
    }
}

/// `drop_spaces` takes off white space only, and stops at what is none.
proof fn lemma_drop_spaces(s: Seq<char>, from: int, to: int)
    requires
        from <= to,
    ensures
        from <= drop_spaces(s, from, to) <= to,
        forall|j: int| drop_spaces(s, from, to) <= j < to ==> is_white_space(s[j]),
        from < drop_spaces(s, from, to) ==> !is_white_space(s[drop_spaces(s, from, to) - 1]),
    decreases to - from,
{
    if from < to && is_white_space(s[to - 1]) {
        lemma_drop_spaces(s, from, to - 1);
    }
}

/// `trimmed(s)` is `s` with nothing but white space taken off at both
/// ends, and neither starts nor ends with white space.
pub proof fn lemma_trimmed(s: Seq<char>)
    ensures
        exists|a: int, b: int|
            0 <= a <= b <= s.len() && trimmed(s) == #[trigger] s.subrange(a, b) && (forall|j: int|
                0 <= j < a || b <= j < s.len() ==> is_white_space(s[j])),
        trimmed(s).len() > 0 ==> !is_white_space(trimmed(s)[0]) && !is_white_space(
            trimmed(s).last(),
        ),
{
    let a = skip_spaces(s, 0, s.len() as int);
    lemma_skip_spaces(s, 0, s.len() as int);
    let b = drop_spaces(s, a, s.len() as int);
    lemma_drop_spaces(s, a, s.len() as int);
    assert(trimmed(s) == s.subrange(a, b));
}

/// The first position in `[from, to)` that holds no white space, or `to`.
pub fn first_non_space(v: &Vec<char>, from: usize, to: usize) -> (r: usize)
    requires
        from <= to <= v.len(),
    ensures
        r == skip_spaces(v@, from as int, to as int),
        from <= r <= to,
{
    let mut a: usize = from;
    while a < to && white_space(v[a])
        invariant
            from <= a <= to <= v.len(),
            skip_spaces(v@, from as int, to as int) == skip_spaces(v@, a as int, to as int),
        decreases to - a,
    {
        a += 1;
    }
    a
}

/// The position of the first white space in `s` at or after `from`; the
/// length of `s` when there is none.
pub open spec fn find_space(s: Seq<char>, from: int) -> int
    decreases s.len() - from,
{
    if 0 <= from < s.len() && !is_white_space(s[from]) {
        find_space(s, from + 1)
    } else {
        from
    }
}

/// The position of the first white space at or after `from`, or the
/// length of `v`.
pub fn index_of_space(v: &Vec<char>, from: usize) -> (r: usize)
    requires
        from <= v.len(),
    ensures
        r == find_space(v@, from as int),
        from <= r <= v.len(),
{
    let mut i: usize = from;
    while i < v.len() && !white_space(v[i])
        invariant
            from <= i <= v.len(),
            find_space(v@, from as int) == find_space(v@, i as int),
        decreases v.len() - i,
    {
        i += 1;
    }
    i
}

/// The bounds of `trimmed(v@)` in `v`.
pub fn trim_bounds(v: &Vec<char>) -> (r: (usize, usize))
    ensures
        r.0 <= r.1 <= v.len(),
        r.0 == skip_spaces(v@, 0, v.len() as int),
        r.1 == drop_spaces(v@, r.0 as int, v.len() as int),
        v@.subrange(r.0 as int, r.1 as int) == trimmed(v@),
{
    let a = first_non_space(v, 0, v.len());
    let mut b: usize = v.len();
    while a < b && white_space(v[b - 1])
        invariant
            a <= b <= v.len(),
            drop_spaces(v@, a as int, v.len() as int) == drop_spaces(v@, a as int, b as int),
        decreases b - a,
    {
        b -= 1;
    }
    (a, b)
}

/// `s` without the white space around it.
pub fn trim(s: &str) -> (r: String)
    ensures
        r@ == trimmed(s@),
{
    let v = chars_of(s);
    let (a, b) = trim_bounds(&v);
    piece(s, a, b)
}

/// The number that the digits of `s` write in base ten.
pub open spec fn decimal_value(s: Seq<char>) -> nat
    decreases s.len(),
{
    if s.len() == 0 {
        0
    } else {
        (10 * decimal_value(s.drop_last()) + digit_value(s.last())) as nat
    }
}

/// Every character of `s` is a decimal digit.
pub open spec fn all_digits(s: Seq<char>) -> bool {
    forall|i: int| 0 <= i < s.len() ==> is_digit(#[trigger] s[i])
}

/// The number that `s` writes: one or more decimal digits, no sign, with a
/// value that an `i32` holds.
pub open spec fn parse_number(s: Seq<char>) -> Option<i32> {
    if s.len() > 0 && all_digits(s) && decimal_value(s) <= i32::MAX {
        Some(decimal_value(s) as i32)
    } else {
        None
    }
}

/// More digits never write a smaller number.
pub proof fn lemma_decimal_grows(s: Seq<char>, k: int)
    requires
        0 <= k <= s.len(),
        all_digits(s),
    ensures
        decimal_value(s.take(k)) <= decimal_value(s),
    decreases s.len() - k,
{
    if k < s.len() {
        let t = s.drop_last();
        assert(all_digits(t));
        lemma_decimal_grows(t, k);
        assert(t.take(k) =~= s.take(k));
        assert(is_digit(s.last()));
    } else {
        assert(s.take(k) =~= s);
    }
}

/// The number that the characters of `v` in `[from, to)` write.
pub fn number_in(v: &Vec<char>, from: usize, to: usize) -> (r: Option<i32>)
    requires
        from <= to <= v.len(),
    ensures
        r == parse_number(v@.subrange(from as int, to as int)),
{
    let ghost s = v@.subrange(from as int, to as int);
    if from == to {
        return None;
    }
    let mut acc: u32 = 0;
    let mut i: usize = from;
    while i < to
        invariant
            from <= i <= to <= v.len(),
            s == v@.subrange(from as int, to as int),
            all_digits(s.take(i - from)),
            acc == decimal_value(s.take(i - from)),
            acc <= i32::MAX,
        decreases to - i,
    {
        let c = v[i];
        if !digit(c) {
            assert(s[i - from] == c);
            return None;
        }
        let d: u32 = c as u32 - '0' as u32;
        proof {
            let next = s.take(i - from + 1);
            assert(next.drop_last() =~= s.take(i - from));
            assert(next.last() == c);
            assert forall|j: int| 0 <= j < next.len() implies is_digit(#[trigger] next[j]) by {
                if j < i - from {
                    assert(s.take(i - from)[j] == next[j]);
                }
            }
        }
        if acc > 214748364 || acc * 10 > 2147483647 - d {
            proof {
                let next = s.take(i - from + 1);
                assert(decimal_value(next) > i32::MAX);
                if all_digits(s) {
                    lemma_decimal_grows(s, i - from + 1);
                }
            }
            return None;
        }
        acc = acc * 10 + d;
        i += 1;
    }
    assert(s.take(to - from) =~= s);
    Some(acc as i32)
}

/// The first position at or after `from` that holds no decimal digit; the
/// length of `s` when there is none.
pub open spec fn digits_end(s: Seq<char>, from: int) -> int
    decreases s.len() - from,
{
    if 0 <= from < s.len() && is_digit(s[from]) {
        digits_end(s, from + 1)
    } else {
        from
    }
}

/// The first position at or after `from` that holds no decimal digit, or
/// the length of `v`.
pub fn end_of_digits(v: &Vec<char>, from: usize) -> (r: usize)
    requires
        from <= v.len(),
    ensures
        r == digits_end(v@, from as int),
        from <= r <= v.len(),
{
    let mut i: usize = from;
    while i < v.len() && digit(v[i])
        invariant
            from <= i <= v.len(),
            digits_end(v@, from as int) == digits_end(v@, i as int),
        decreases v.len() - i,
    {
        i += 1;
    }
    i
}

/// Where the line that starts at `from` ends: at the line feed that closes
/// it, or before a carriage return that stands right before that line feed,
/// or at the end of `s`.
pub open spec fn line_stop(s: Seq<char>, from: int) -> int {
    let e = find_char(s, '\n', from);
    if from < e < s.len() && s[e - 1] == '\r' {
        e - 1
    } else {
        e
    }
}

/// The lines of `s` from position `from` on. A line ends at a line feed, or
/// at a carriage return followed by a line feed, or at the end of `s`; text
/// that ends with a line ending has no empty last line.
pub open spec fn lines_from(s: Seq<char>, from: int) -> Seq<Seq<char>>
    decreases s.len() + 1 - from,
    via lines_from_decreases
{
    if from < 0 || from >= s.len() {
        Seq::empty()
    } else {
        seq![s.subrange(from, line_stop(s, from))] + lines_from(s, find_char(s, '\n', from) + 1)
    }
}

#[via_fn]
proof fn lines_from_decreases(s: Seq<char>, from: int) {
    if 0 <= from < s.len() {
        lemma_find_char(s, '\n', from);
    }
}

/// The lines of `s`.
pub open spec fn lines(s: Seq<char>) -> Seq<Seq<char>> {
    lines_from(s, 0)
}

/// The lines of `s`, each as a string of its own.
pub fn lines_of(s: &str) -> (r: Vec<String>)
    ensures
        r.deep_view() == lines(s@),
{
    let v = chars_of(s);
    let mut out: Vec<String> = Vec::new();
    let mut from: usize = 0;
    while from < v.len()
        invariant
            v@ == s@,
            from <= v.len(),
            out.deep_view() + lines_from(s@, from as int) == lines(s@),
        decreases v.len() - from,
    {
        let e = index_of_char(&v, '\n', from);
        let stop = if from < e && e < v.len() && v[e - 1] == '\r' {
            e - 1
        } else {
            e
        };
        let line = piece(s, from, stop);
        let ghost before = out.deep_view();
        let ghost shown = line@;
        out.push(line);
        proof {
            let rest = lines_from(s@, e + 1);
            assert(lines_from(s@, from as int) == seq![shown] + rest);
            assert(out.deep_view() =~= before.push(shown));
            assert(before.push(shown) + rest =~= before + (seq![shown] + rest));
        }
        if e == v.len() {
            from = e;
        } else {
            from = e + 1;
        }
    }
    assert(out.deep_view() + Seq::<Seq<char>>::empty() =~= out.deep_view());
    out
}

/// `a` sorts before `b`, given that the two agree before position `from`.
pub open spec fn sorts_before_from(a: Seq<char>, b: Seq<char>, from: int) -> bool
    decreases a.len() - from,
{
    if from >= b.len() {
        false
    } else if from >= a.len() {
        true
    } else if a[from] != b[from] {
        a[from] < b[from]
    } else {
        sorts_before_from(a, b, from + 1)
    }
}

/// `a` sorts before `b` in the order of a dictionary: at the first position
/// where they differ `a` holds the smaller character, or `a` ends there and
/// `b` does not.
pub open spec fn sorts_before(a: Seq<char>, b: Seq<char>) -> bool {
    sorts_before_from(a, b, 0)
}

/// `a` sorts before `b`.
pub fn text_less(a: &str, b: &str) -> (r: bool)
    ensures
        r == sorts_before(a@, b@),
{
    let av = chars_of(a);
    let bv = chars_of(b);
    let mut i: usize = 0;
    while i < av.len() && i < bv.len() && av[i] == bv[i]
        invariant
            i <= av.len(),
            i <= bv.len(),
            sorts_before(av@, bv@) == sorts_before_from(av@, bv@, i as int),
        decreases av.len() - i,
    {
        i += 1;
    }
    if i >= bv.len() {
        false
    } else if i >= av.len() {
        true
    } else {
        av[i] < bv[i]
    }
}

/// No text sorts before itself, from any position on.
proof fn lemma_sorts_before_from_irreflexive(a: Seq<char>, from: int)
    requires
        0 <= from,
    ensures
        !sorts_before_from(a, a, from),
    decreases a.len() - from,
{
    if from < a.len() {
        lemma_sorts_before_from_irreflexive(a, from + 1);
    }
}

/// The order is transitive, from any position on.
proof fn lemma_sorts_before_from_transitive(a: Seq<char>, b: Seq<char>, c: Seq<char>, from: int)
    requires
        0 <= from,
        sorts_before_from(a, b, from),
        sorts_before_from(b, c, from),
    ensures
        sorts_before_from(a, c, from),
    decreases a.len() - from,
{
    if from < a.len() && from < b.len() && from < c.len() && a[from] == b[from] && b[from]
        == c[from] {
        lemma_sorts_before_from_transitive(a, b, c, from + 1);
    }
}

/// Two texts of which neither sorts before the other, from a position on,
/// are equal from there on.
proof fn lemma_sorts_before_from_total(a: Seq<char>, b: Seq<char>, from: int)
    requires
        0 <= from <= a.len(),
        from <= b.len(),
        !sorts_before_from(a, b, from),
        !sorts_before_from(b, a, from),
    ensures
        a.len() == b.len(),
        forall|j: int| from <= j < a.len() ==> a[j] == b[j],
    decreases a.len() - from,
{
    if from < a.len() && from < b.len() {
        lemma_sorts_before_from_total(a, b, from + 1);
    }
}

/// No text sorts before itself.
pub proof fn lemma_sorts_before_irreflexive(a: Seq<char>)
    ensures
        !sorts_before(a, a),
{
    lemma_sorts_before_from_irreflexive(a, 0);
}

/// The order is transitive.
pub proof fn lemma_sorts_before_transitive(a: Seq<char>, b: Seq<char>, c: Seq<char>)
    requires
        sorts_before(a, b),
        sorts_before(b, c),
    ensures
        sorts_before(a, c),
{
    lemma_sorts_before_from_transitive(a, b, c, 0);
}

/// Of two different texts one sorts before the other.
pub proof fn lemma_sorts_before_total(a: Seq<char>, b: Seq<char>)
    ensures
        a == b || sorts_before(a, b) || sorts_before(b, a),
{
    if !sorts_before(a, b) && !sorts_before(b, a) {
        lemma_sorts_before_from_total(a, b, 0);
        assert(a =~= b);
    }
}

/// Two texts never sort before each other.
pub proof fn lemma_sorts_before_asymmetric(a: Seq<char>, b: Seq<char>)
    ensures
        !(sorts_before(a, b) && sorts_before(b, a)),
{
    if sorts_before(a, b) && sorts_before(b, a) {
        lemma_sorts_before_transitive(a, b, a);
        lemma_sorts_before_irreflexive(a);
    }
}

} // verus!
