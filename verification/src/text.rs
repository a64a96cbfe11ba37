//! Character sequences: comparison, trimming and splitting.
//!
//! A string is modelled by its view, the sequence of its characters
//! (`Seq<char>`). The executable functions work on string slices and on
//! vectors of characters.

use vstd::prelude::*;
use vstd::std_specs::iter::IteratorSpec;

verus! {

/// Whether `c` is white space: a character with the Unicode property
/// `White_Space`.
pub open spec fn is_whitespace(c: char) -> bool {
    ||| '\u{0009}' <= c <= '\u{000D}'
    ||| c == '\u{0020}'
    ||| c == '\u{0085}'
    ||| c == '\u{00A0}'
    ||| c == '\u{1680}'
    ||| '\u{2000}' <= c <= '\u{200A}'
    ||| c == '\u{2028}'
    ||| c == '\u{2029}'
    ||| c == '\u{202F}'
    ||| c == '\u{205F}'
    ||| c == '\u{3000}'
}

/// `s` without the white space at its start.
pub open spec fn trim_start(s: Seq<char>) -> Seq<char>
    decreases s.len(),
{
    if s.len() > 0 && is_whitespace(s.first()) {
        trim_start(s.drop_first())
    } else {
        s
    }
}

/// `s` without the white space at its end.
pub open spec fn trim_end(s: Seq<char>) -> Seq<char>
    decreases s.len(),
{
    if s.len() > 0 && is_whitespace(s.last()) {
        trim_end(s.drop_last())
    } else {
        s
    }
}

/// `s` without the white space at its start and at its end.
pub open spec fn trim(s: Seq<char>) -> Seq<char> {
    trim_end(trim_start(s))
}

/// The index of the first `c` in `s`, or the length of `s` if it holds none.
pub open spec fn position(s: Seq<char>, c: char) -> int
    decreases s.len(),
{
    if s.len() == 0 || s.first() == c {
        0
    } else {
        1 + position(s.drop_first(), c)
    }
}

/// The pieces of `s` between the occurrences of `sep`: always at least one,
/// and one more than `s` holds separators.
pub open spec fn split(s: Seq<char>, sep: char) -> Seq<Seq<char>>
    decreases s.len(),
{
    let i = position(s, sep);
    if 0 <= i < s.len() {
        seq![s.take(i)] + split(s.skip(i + 1), sep)
    } else {
        seq![s]
    }
}

/// The pieces put together again, with `sep` between one and the next.
pub open spec fn join(pieces: Seq<Seq<char>>, sep: char) -> Seq<char>
    decreases pieces.len(),
{
    if pieces.len() == 0 {
        Seq::empty()
    } else if pieces.len() == 1 {
        pieces.last()
    } else {
        join(pieces.drop_last(), sep) + seq![sep] + pieces.last()
    }
}

/// How many times `c` occurs in `s`.
pub open spec fn occurrences(s: Seq<char>, c: char) -> nat
    decreases s.len(),
{
    if s.len() == 0 {
        0
    } else {
        occurrences(s.drop_last(), c) + if s.last() == c {
            1nat
        } else {
            0nat
        }
    }
}

/// Whether `a` comes before `b` in the order of strings: character by
/// character, by code point, a proper prefix first.
pub open spec fn precedes(a: Seq<char>, b: Seq<char>) -> bool
    decreases a.len(),
{
    if b.len() == 0 {
        false
    } else if a.len() == 0 {
        true
    } else if a.first() == b.first() {
        precedes(a.drop_first(), b.drop_first())
    } else {
        a.first() < b.first()
    }
}

/// Whether `c` is white space.
pub fn char_is_whitespace(c: char) -> (white: bool)
    ensures
        white == is_whitespace(c),
{
    ('\u{0009}' <= c && c <= '\u{000D}') || c == '\u{0020}' || c == '\u{0085}' || c == '\u{00A0}'
        || c == '\u{1680}' || ('\u{2000}' <= c && c <= '\u{200A}') || c == '\u{2028}' || c
        == '\u{2029}' || c == '\u{202F}' || c == '\u{205F}' || c == '\u{3000}'
}

/// Collects the characters of a string slice into a vector.
pub fn to_chars(s: &str) -> (v: Vec<char>)
    ensures
        v@ == s@,
{
    let mut v: Vec<char> = Vec::new();
    for c in it: s.chars()
        invariant
            v@ == it.seq().take(it.index()),
            it.seq() == s@,
    {
        v.push(c);
    }
    v
}

/// The first character of a string slice, if it has one.
pub fn first_char(s: &str) -> (first: Option<char>)
    ensures
        first == if s@.len() > 0 { Some(s@[0]) } else { None },
{
    broadcast use vstd::string::group_string_axioms;

    let mut it = s.chars();
    it.next()
}

/// Whether two string slices hold the same characters.
pub fn str_eq(a: &str, b: &str) -> (same: bool)
    ensures
        same == (a@ == b@),
{
    broadcast use vstd::string::group_string_axioms;

    let mut rest_a = a.chars();
    let mut rest_b = b.chars();
    let ghost mut n: int = 0;
    loop
        invariant
            0 <= n <= a@.len(),
            n <= b@.len(),
            rest_a.remaining() == a@.skip(n),
            rest_b.remaining() == b@.skip(n),
            a@.take(n) == b@.take(n),
        decreases a@.len() - n,
    {
        match (rest_a.next(), rest_b.next()) {
            (None, None) => {
                assert(a@ == a@.take(n));
                assert(b@ == b@.take(n));
                return true;
            },
            (Some(x), Some(y)) => {
                if x != y {
                    assert(a@[n] != b@[n]);
                    return false;
                }
                proof {
                    assert(a@.take(n + 1) == a@.take(n).push(a@[n]));
                    assert(b@.take(n + 1) == b@.take(n).push(b@[n]));
                    n = n + 1;
                }
            },
            _ => {
                assert(a@.len() != b@.len());
                return false;
            },
        }
    }
}

/// Whether `a` comes before `b` in the order of strings.
pub fn str_precedes(a: &str, b: &str) -> (before: bool)
    ensures
        before == precedes(a@, b@),
{
    broadcast use vstd::string::group_string_axioms;

    let mut rest_a = a.chars();
    let mut rest_b = b.chars();
    let ghost mut n: int = 0;
    assert(a@.skip(0) == a@ && b@.skip(0) == b@);
    loop
        invariant
            0 <= n <= a@.len(),
            n <= b@.len(),
            rest_a.remaining() == a@.skip(n),
            rest_b.remaining() == b@.skip(n),
            precedes(a@, b@) == precedes(a@.skip(n), b@.skip(n)),
        decreases a@.len() - n,
    {
        match (rest_a.next(), rest_b.next()) {
            (_, None) => {
                return false;
            },
            (None, Some(_)) => {
                return true;
            },
            (Some(x), Some(y)) => {
                if x != y {
                    assert(a@.skip(n).first() == x && b@.skip(n).first() == y);
                    return x < y;
                }
                proof {
                    assert(a@.skip(n).drop_first() == a@.skip(n + 1));
                    assert(b@.skip(n).drop_first() == b@.skip(n + 1));
                    n = n + 1;
                }
            },
        }
    }
}

/// The index of the first `c` in `chars[start..end]`, or `end` if that
/// part holds none.
pub fn find_char(chars: &[char], start: usize, end: usize, c: char) -> (at: usize)
    requires
        start <= end <= chars@.len(),
    ensures
        start <= at <= end,
        at - start == position(chars@.subrange(start as int, end as int), c),
{
    let ghost part = chars@.subrange(start as int, end as int);
    let mut at: usize = start;
    while at < end && chars[at] != c
        invariant
            start <= at <= end <= chars@.len(),
            part == chars@.subrange(start as int, end as int),
            forall|j: int| 0 <= j < at - start ==> part[j] != c,
        decreases end - at,
    {
        at += 1;
    }
    proof {
        lemma_position_is(part, c, at - start);
    }
    at
}

/// The bounds of `chars[start..end]` without the white space at its start
/// and at its end.
pub fn trim_bounds(chars: &[char], start: usize, end: usize) -> (bounds: (usize, usize))
    requires
        start <= end <= chars@.len(),
    ensures
        start <= bounds.0 <= bounds.1 <= end,
        chars@.subrange(bounds.0 as int, bounds.1 as int) == trim(
            chars@.subrange(start as int, end as int),
        ),
{
    let ghost part = chars@.subrange(start as int, end as int);
    let mut from: usize = start;
    while from < end && char_is_whitespace(chars[from])
        invariant
            start <= from <= end <= chars@.len(),
            part == chars@.subrange(start as int, end as int),
            forall|j: int| 0 <= j < from - start ==> is_whitespace(part[j]),
        decreases end - from,
    {
        from += 1;
    }
    let ghost rest = chars@.subrange(from as int, end as int);
    proof {
        lemma_trim_start_is(part, from - start);
        assert(part.skip(from - start) == rest);
    }
    let mut to: usize = end;
    while from < to && char_is_whitespace(chars[to - 1])
        invariant
            from <= to <= end <= chars@.len(),
            rest == chars@.subrange(from as int, end as int),
            forall|j: int| to - from <= j < rest.len() ==> is_whitespace(rest[j]),
        decreases to - from,
    {
        to -= 1;
    }
    proof {
        lemma_trim_end_is(rest, to - from);
        assert(rest.take(to - from) == chars@.subrange(from as int, to as int));
    }
    (from, to)
}

/// `position` is within bounds, nothing before it is `c`, and `c` stands
/// there unless it is the length.
pub proof fn lemma_position(s: Seq<char>, c: char)
    ensures
        0 <= position(s, c) <= s.len(),
        position(s, c) < s.len() ==> s[position(s, c)] == c,
        forall|j: int| 0 <= j < position(s, c) ==> s[j] != c,
    decreases s.len(),
{
    if s.len() == 0 || s.first() == c {
    } else {
        lemma_position(s.drop_first(), c);
        let p = position(s.drop_first(), c);
        assert forall|j: int| 0 <= j < 1 + p implies s[j] != c by {
            if j > 0 {
                assert(s[j] == s.drop_first()[j - 1]);
            }
        }
    }
}

/// An index with nothing equal to `c` before it, at which `c` stands or
/// which is the length, is the `position` of `c`.
pub proof fn lemma_position_is(s: Seq<char>, c: char, i: int)
    requires
        0 <= i <= s.len(),
        i < s.len() ==> s[i] == c,
        forall|j: int| 0 <= j < i ==> s[j] != c,
    ensures
        position(s, c) == i,
    decreases s.len(),
{
    if i == 0 {
    } else {
        assert(s[0] != c);
        let t = s.drop_first();
        assert forall|j: int| 0 <= j < i - 1 implies t[j] != c by {
            assert(t[j] == s[j + 1]);
        }
        lemma_position_is(t, c, i - 1);
    }
}

/// A split gives at least one piece.
pub proof fn lemma_split_len(s: Seq<char>, sep: char)
    ensures
        split(s, sep).len() >= 1,
    decreases s.len(),
{
    let i = position(s, sep);
    if 0 <= i < s.len() {
        lemma_split_len(s.skip(i + 1), sep);
    }
}

/// No piece of a split holds the separator.
pub proof fn lemma_split_pieces(s: Seq<char>, sep: char, i: int)
    requires
        0 <= i < split(s, sep).len(),
    ensures
        forall|j: int| 0 <= j < split(s, sep)[i].len() ==> split(s, sep)[i][j] != sep,
    decreases s.len(),
{
    let p = position(s, sep);
    lemma_position(s, sep);
    let pieces = split(s, sep);
    if p < s.len() {
        let rest = split(s.skip(p + 1), sep);
        assert(pieces == seq![s.take(p)] + rest);
        if i > 0 {
            lemma_split_pieces(s.skip(p + 1), sep, i - 1);
            assert(pieces[i] == rest[i - 1]);
        } else {
            assert(pieces[0] == s.take(p));
        }
    } else {
        assert(pieces[0] == s);
    }
}

/// The pieces of two sequences with a separator between them are the
/// pieces of the first, then those of the second.
pub proof fn lemma_split_concat(a: Seq<char>, b: Seq<char>, sep: char)
    ensures
        split(a + seq![sep] + b, sep) == split(a, sep) + split(b, sep),
    decreases a.len(),
{
    let whole = a + seq![sep] + b;
    let p = position(a, sep);
    lemma_position(a, sep);
    if p < a.len() {
        lemma_position_is(whole, sep, p);
        assert(whole.take(p) == a.take(p));
        assert(whole.skip(p + 1) == a.skip(p + 1) + seq![sep] + b);
        lemma_split_concat(a.skip(p + 1), b, sep);
    } else {
        lemma_position_is(whole, sep, a.len() as int);
        assert(whole.take(a.len() as int) == a);
        assert(whole.skip(a.len() as int + 1) == b);
    }
}

/// Pieces that hold no separator, joined and split again, are the same
/// pieces, if there is at least one.
pub proof fn lemma_split_join(pieces: Seq<Seq<char>>, sep: char)
    requires
        pieces.len() > 0,
        forall|i: int, j: int|
            0 <= i < pieces.len() && 0 <= j < pieces[i].len() ==> pieces[i][j] != sep,
    ensures
        split(join(pieces, sep), sep) == pieces,
    decreases pieces.len(),
{
    let last = pieces.last();
    assert forall|j: int| 0 <= j < last.len() implies last[j] != sep by {
        assert(last[j] == pieces[pieces.len() - 1][j]);
    }
    lemma_position_is(last, sep, last.len() as int);
    assert(split(last, sep) == seq![last]);
    if pieces.len() > 1 {
        let front = pieces.drop_last();
        assert forall|i: int, j: int|
            0 <= i < front.len() && 0 <= j < front[i].len() implies front[i][j] != sep by {
            assert(front[i] == pieces[i]);
        }
        lemma_split_join(front, sep);
        lemma_split_concat(join(front, sep), last, sep);
        assert(pieces == front + seq![last]);
    } else {
        assert(pieces == seq![last]);
    }
}

/// The occurrences in two sequences, one after the other, add up.
pub proof fn lemma_occurrences_concat(a: Seq<char>, b: Seq<char>, c: char)
    ensures
        occurrences(a + b, c) == occurrences(a, c) + occurrences(b, c),
    decreases b.len(),
{
    if b.len() == 0 {
        assert(a + b == a);
    } else {
        assert((a + b).drop_last() == a + b.drop_last());
        lemma_occurrences_concat(a, b.drop_last(), c);
    }
}

/// A sequence holds no `c` exactly if `c` occurs in it zero times.
pub proof fn lemma_occurrences_none(s: Seq<char>, c: char)
    ensures
        occurrences(s, c) == 0 <==> (forall|j: int| 0 <= j < s.len() ==> s[j] != c),
    decreases s.len(),
{
    if s.len() > 0 {
        let front = s.drop_last();
        lemma_occurrences_none(front, c);
        if occurrences(s, c) == 0 {
            assert forall|j: int| 0 <= j < s.len() implies s[j] != c by {
                if j < s.len() - 1 {
                    assert(front[j] == s[j]);
                }
            }
        }
        if forall|j: int| 0 <= j < s.len() ==> s[j] != c {
            assert forall|j: int| 0 <= j < front.len() implies front[j] != c by {
                assert(front[j] == s[j]);
            }
        }
    }
}

/// A split gives one piece more than the sequence holds separators.
pub proof fn lemma_split_count(s: Seq<char>, sep: char)
    ensures
        split(s, sep).len() == occurrences(s, sep) + 1,
    decreases s.len(),
{
    let i = position(s, sep);
    lemma_position(s, sep);
    if i < s.len() {
        let (before, after) = (s.take(i), s.skip(i + 1));
        lemma_split_count(after, sep);
        assert(s == before + seq![sep] + after);
        lemma_occurrences_concat(before + seq![sep], after, sep);
        lemma_occurrences_concat(before, seq![sep], sep);
        lemma_occurrences_none(before, sep);
        assert(seq![sep].drop_last() == Seq::<char>::empty());
        assert(occurrences(Seq::<char>::empty(), sep) == 0);
        assert(occurrences(seq![sep], sep) == 1);
    } else {
        lemma_occurrences_none(s, sep);
    }
}

/// Trimming at the start drops exactly the leading white space.
pub proof fn lemma_trim_start_is(s: Seq<char>, k: int)
    requires
        0 <= k <= s.len(),
        forall|j: int| 0 <= j < k ==> is_whitespace(s[j]),
        k < s.len() ==> !is_whitespace(s[k]),
    ensures
        trim_start(s) == s.skip(k),
    decreases s.len(),
{
    if k == 0 {
        assert(s.skip(0) == s);
    } else {
        let t = s.drop_first();
        assert(is_whitespace(s[0]));
        assert forall|j: int| 0 <= j < k - 1 implies is_whitespace(t[j]) by {
            assert(t[j] == s[j + 1]);
        }
        lemma_trim_start_is(t, k - 1);
        assert(t.skip(k - 1) == s.skip(k));
    }
}

/// Trimming at the end drops exactly the trailing white space.
pub proof fn lemma_trim_end_is(s: Seq<char>, k: int)
    requires
        0 <= k <= s.len(),
        forall|j: int| k <= j < s.len() ==> is_whitespace(s[j]),
        k > 0 ==> !is_whitespace(s[k - 1]),
    ensures
        trim_end(s) == s.take(k),
    decreases s.len(),
{
    if k == s.len() {
        assert(s.take(k) == s);
    } else {
        let t = s.drop_last();
        assert(is_whitespace(s.last()));
        lemma_trim_end_is(t, k);
        assert(t.take(k) == s.take(k));
    }
}

/// A part of a sequence is trimmed by its bounds: white space before it,
/// white space after it, none at its two ends.
pub proof fn lemma_trim_is(s: Seq<char>, from: int, to: int)
    requires
        0 <= from <= to <= s.len(),
        forall|j: int| 0 <= j < from ==> is_whitespace(s[j]),
        forall|j: int| to <= j < s.len() ==> is_whitespace(s[j]),
        from < to ==> !is_whitespace(s[from]) && !is_whitespace(s[to - 1]),
    ensures
        trim(s) == s.subrange(from, to),
{
    if from < to {
        lemma_trim_start_is(s, from);
        let rest = s.skip(from);
        assert forall|j: int| to - from <= j < rest.len() implies is_whitespace(rest[j]) by {
            assert(rest[j] == s[from + j]);
        }
        assert(rest[to - from - 1] == s[to - 1]);
        lemma_trim_end_is(rest, to - from);
        assert(rest.take(to - from) == s.subrange(from, to));
    } else {
        lemma_trim_start_is(s, s.len() as int);
        assert(s.skip(s.len() as int) == Seq::<char>::empty());
        assert(s.subrange(from, to) == Seq::<char>::empty());
    }
}

/// Where the trimmed part of `s` at its start begins.
pub proof fn lemma_trim_start_bound(s: Seq<char>) -> (k: int)
    ensures
        0 <= k <= s.len(),
        trim_start(s) == s.skip(k),
        forall|j: int| 0 <= j < k ==> is_whitespace(s[j]),
        k < s.len() ==> !is_whitespace(s[k]),
    decreases s.len(),
{
    if s.len() > 0 && is_whitespace(s.first()) {
        let k = lemma_trim_start_bound(s.drop_first());
        assert(s.drop_first().skip(k) == s.skip(k + 1));
        assert forall|j: int| 0 <= j < k + 1 implies is_whitespace(s[j]) by {
            if j > 0 {
                assert(s[j] == s.drop_first()[j - 1]);
            }
        }
        k + 1
    } else {
        assert(s.skip(0) == s);
        0
    }
}

/// Where the trimmed part of `s` at its end stops.
pub proof fn lemma_trim_end_bound(s: Seq<char>) -> (k: int)
    ensures
        0 <= k <= s.len(),
        trim_end(s) == s.take(k),
        forall|j: int| k <= j < s.len() ==> is_whitespace(s[j]),
        k > 0 ==> !is_whitespace(s[k - 1]),
    decreases s.len(),
{
    if s.len() > 0 && is_whitespace(s.last()) {
        let k = lemma_trim_end_bound(s.drop_last());
        assert(s.drop_last().take(k) == s.take(k));
        assert forall|j: int| k <= j < s.len() implies is_whitespace(s[j]) by {
            if j < s.len() - 1 {
                assert(s[j] == s.drop_last()[j]);
            }
        }
        k
    } else {
        assert(s.take(s.len() as int) == s);
        s.len() as int
    }
}

/// The trimmed sequence is a part of the sequence: white space stands
/// before it and after it, and none at its two ends.
pub proof fn lemma_trim_bounds(s: Seq<char>) -> (bounds: (int, int))
    ensures
        0 <= bounds.0 <= bounds.1 <= s.len(),
        trim(s) == s.subrange(bounds.0, bounds.1),
        forall|j: int| 0 <= j < bounds.0 ==> is_whitespace(s[j]),
        forall|j: int| bounds.1 <= j < s.len() ==> is_whitespace(s[j]),
        bounds.0 < bounds.1 ==> !is_whitespace(s[bounds.0]) && !is_whitespace(s[bounds.1 - 1]),
{
    let from = lemma_trim_start_bound(s);
    let rest = s.skip(from);
    let k = lemma_trim_end_bound(rest);
    assert(rest.take(k) == s.subrange(from, from + k));
    assert forall|j: int| from + k <= j < s.len() implies is_whitespace(s[j]) by {
        assert(s[j] == rest[j - from]);
    }
    if k > 0 {
        assert(rest[k - 1] == s[from + k - 1]);
    }
    (from, from + k)
}

/// A sequence that neither begins nor ends with white space is its own
/// trimmed part.
pub proof fn lemma_trim_fixed(s: Seq<char>)
    requires
        s.len() > 0 ==> !is_whitespace(s.first()) && !is_whitespace(s.last()),
    ensures
        trim(s) == s,
{
    lemma_trim_start_is(s, 0);
    assert(s.skip(0) == s);
    lemma_trim_end_is(s, s.len() as int);
    assert(s.take(s.len() as int) == s);
}

/// Trimming twice is trimming once.
pub proof fn lemma_trim_idempotent(s: Seq<char>)
    ensures
        trim(trim(s)) == trim(s),
{
    let (from, to) = lemma_trim_bounds(s);
    let part = s.subrange(from, to);
    if from < to {
        assert(part.first() == s[from] && part.last() == s[to - 1]);
    }
    lemma_trim_fixed(part);
}

/// A part of a sequence with nothing but white space around it is trimmed
/// to what the sequence is trimmed to.
pub proof fn lemma_trim_of_part(s: Seq<char>, from: int, to: int)
    requires
        0 <= from <= to <= s.len(),
        forall|j: int| 0 <= j < from ==> is_whitespace(s[j]),
        forall|j: int| to <= j < s.len() ==> is_whitespace(s[j]),
    ensures
        trim(s.subrange(from, to)) == trim(s),
{
    let part = s.subrange(from, to);
    let (a, b) = lemma_trim_bounds(s);
    if a < b {
        assert(from <= a && b <= to);
        assert forall|j: int| 0 <= j < a - from implies is_whitespace(part[j]) by {
            assert(part[j] == s[from + j]);
        }
        assert forall|j: int| b - from <= j < part.len() implies is_whitespace(part[j]) by {
            assert(part[j] == s[from + j]);
        }
        assert(part[a - from] == s[a] && part[b - from - 1] == s[b - 1]);
        lemma_trim_is(part, a - from, b - from);
        assert(part.subrange(a - from, b - from) == s.subrange(a, b));
    } else {
        assert forall|j: int| 0 <= j < part.len() implies is_whitespace(part[j]) by {
            assert(part[j] == s[from + j]);
        }
        lemma_trim_is(part, 0, 0);
        assert(part.subrange(0, 0) == s.subrange(a, b));
    }
}

/// No string comes before itself.
pub proof fn lemma_precedes_irreflexive(a: Seq<char>)
    ensures
        !precedes(a, a),
    decreases a.len(),
{
    if a.len() > 0 {
        lemma_precedes_irreflexive(a.drop_first());
    }
}

/// Of two different strings, exactly one comes before the other.
pub proof fn lemma_precedes_total(a: Seq<char>, b: Seq<char>)
    ensures
        a != b ==> (precedes(a, b) <==> !precedes(b, a)),
        a == b ==> !precedes(a, b) && !precedes(b, a),
    decreases a.len(),
{
    if a == b {
        lemma_precedes_irreflexive(a);
    } else if a.len() > 0 && b.len() > 0 && a.first() == b.first() {
        if a.drop_first() == b.drop_first() {
            assert(a =~= seq![a.first()] + a.drop_first());
            assert(b =~= seq![b.first()] + b.drop_first());
        }
        lemma_precedes_total(a.drop_first(), b.drop_first());
    } else if a.len() == 0 {
        assert(b.len() > 0) by {
            if b.len() == 0 {
                assert(a =~= b);
            }
        }
    }
}

/// The order of strings is transitive.
pub proof fn lemma_precedes_transitive(a: Seq<char>, b: Seq<char>, c: Seq<char>)
    requires
        precedes(a, b),
        precedes(b, c),
    ensures
        precedes(a, c),
    decreases a.len(),
{
    if a.len() > 0 && a.first() == b.first() && b.first() == c.first() {
        lemma_precedes_transitive(a.drop_first(), b.drop_first(), c.drop_first());
    }
}

} // verus!
