//! The format of the variable text, and of the lines that show variables.
//!
//! The text is read line by line. A line gives a variable if, once trimmed,
//! it is not empty, does not begin with `#`, and holds exactly one `=`: the
//! key stands before it, the value after it, both trimmed. The key of a
//! variable is never empty: a line with nothing before its `=` gives none.
//! Any other line is passed over too. Where a key occurs on several lines,
//! the last one holds.

use vstd::prelude::*;
use crate::entries::{
    is_listing, lemma_enter, lemma_listing_unique, listing, map_of, Entry, Variables,
};
use crate::text::{
    is_whitespace, join, lemma_occurrences_concat, lemma_occurrences_none, lemma_position,
    lemma_position_is, lemma_split_concat, lemma_split_count, lemma_split_join, lemma_split_len,
    lemma_split_pieces,
    lemma_trim_bounds, lemma_trim_idempotent, lemma_trim_is, lemma_trim_of_part, occurrences,
    position, split, trim,
};

verus! {

/// The variable that a line gives, if it gives one: its key, which is not
/// empty, and its value.
pub open spec fn entry_of_line(line: Seq<char>) -> Option<Entry> {
    let content = trim(line);
    let tokens = split(content, '=');
    if content.len() == 0 || content.first() == '#' || tokens.len() != 2 || trim(
        tokens[0],
    ).len() == 0 {
        None
    } else {
        Some((trim(tokens[0]), trim(tokens[1])))
    }
}

/// The variables that a sequence of lines gives: a later line overwrites
/// what an earlier one gave for the same key.
pub open spec fn variables_of_lines(lines: Seq<Seq<char>>) -> Variables
    decreases lines.len(),
{
    if lines.len() == 0 {
        Map::empty()
    } else {
        let before = variables_of_lines(lines.drop_last());
        match entry_of_line(lines.last()) {
            Some((key, value)) => before.insert(key, value),
            None => before,
        }
    }
}

/// The variables that a text gives: those of its lines, the text being cut
/// at each line feed.
pub open spec fn variables_of_text(text: Seq<char>) -> Variables {
    variables_of_lines(split(text, '\n'))
}

/// The line that shows a variable: its key, `=`, its value.
pub open spec fn line_of_entry(entry: Entry) -> Seq<char> {
    entry.0 + seq!['='] + entry.1
}

/// The lines that show the variables of `map`, in the order of the keys.
pub open spec fn dump(map: Variables) -> Seq<Seq<char>> {
    listing(map).map_values(|entry: Entry| line_of_entry(entry))
}

/// Trimming takes away no character that is no white space.
proof fn lemma_occurrences_trim(s: Seq<char>, c: char)
    requires
        !is_whitespace(c),
    ensures
        occurrences(trim(s), c) == occurrences(s, c),
{
    let (from, to) = lemma_trim_bounds(s);
    let (before, part, after) = (s.take(from), s.subrange(from, to), s.skip(to));
    assert(s == before + part + after);
    lemma_occurrences_concat(before + part, after, c);
    lemma_occurrences_concat(before, part, c);
    lemma_occurrences_none(before, c);
    lemma_occurrences_none(after, c);
}

/// A line that holds no `=`, or more than one, gives no variable.
pub proof fn lemma_line_needs_one_separator(line: Seq<char>)
    requires
        occurrences(line, '=') != 1,
    ensures
        entry_of_line(line) is None,
{
    lemma_occurrences_trim(line, '=');
    lemma_split_count(trim(line), '=');
}

/// A line of nothing but white space gives no variable, and neither does a
/// line that begins with `#` once it is trimmed.
pub proof fn lemma_blank_or_comment_line(line: Seq<char>)
    requires
        (forall|j: int| 0 <= j < line.len() ==> is_whitespace(line[j])) || (trim(line).len() > 0
            && trim(line).first() == '#'),
    ensures
        entry_of_line(line) is None,
{
    if forall|j: int| 0 <= j < line.len() ==> is_whitespace(line[j]) {
        lemma_trim_is(line, 0, 0);
    }
}

/// A line with nothing but white space before its `=` gives no variable:
/// no variable has an empty key.
pub proof fn lemma_line_needs_key(line: Seq<char>)
    ensures
        entry_of_line(line) matches Some(entry) ==> entry.0.len() > 0,
        trim(line).len() > 0 && trim(line).first() == '=' ==> entry_of_line(line) is None,
{
    let content = trim(line);
    if content.len() > 0 && content.first() == '=' {
        lemma_position_is(content, '=', 0);
        let blank = content.take(0);
        assert(split(content, '=')[0] == blank);
        lemma_trim_is(blank, 0, 0);
    }
}

/// No variable that lines give has an empty key.
pub proof fn lemma_variable_keys(lines: Seq<Seq<char>>)
    ensures
        forall|key: Seq<char>| #[trigger]
            variables_of_lines(lines).contains_key(key) ==> key.len() > 0,
    decreases lines.len(),
{
    if lines.len() > 0 {
        let before = variables_of_lines(lines.drop_last());
        lemma_variable_keys(lines.drop_last());
        lemma_line_needs_key(lines.last());
        assert forall|key: Seq<char>| #[trigger]
            variables_of_lines(lines).contains_key(key) implies key.len() > 0 by {
            if !before.contains_key(key) {
                assert(entry_of_line(lines.last()) matches Some(entry) && entry.0 == key);
            }
        }
    }
}

/// A line that gives no variable adds nothing: the variables of the lines
/// are those of the other lines.
pub proof fn lemma_line_without_entry(lines: Seq<Seq<char>>, i: int)
    requires
        0 <= i < lines.len(),
        entry_of_line(lines[i]) is None,
    ensures
        variables_of_lines(lines) == variables_of_lines(lines.remove(i)),
    decreases lines.len(),
{
    if i == lines.len() - 1 {
        assert(lines.remove(i) == lines.drop_last());
    } else {
        let front = lines.drop_last();
        assert(front[i] == lines[i]);
        lemma_line_without_entry(front, i);
        assert(lines.remove(i).drop_last() == front.remove(i));
        assert(lines.remove(i).last() == lines.last());
    }
}

/// In a text, a line that holds no `=`, or more than one, adds nothing to
/// the variables: they are those of the other lines.
pub proof fn lemma_text_line_needs_one_separator(text: Seq<char>, i: int)
    requires
        0 <= i < split(text, '\n').len(),
        occurrences(split(text, '\n')[i], '=') != 1,
    ensures
        variables_of_text(text) == variables_of_lines(split(text, '\n').remove(i)),
{
    lemma_line_needs_one_separator(split(text, '\n')[i]);
    lemma_line_without_entry(split(text, '\n'), i);
}

/// In a text, a line of nothing but white space, or one that begins with
/// `#` once it is trimmed, adds nothing to the variables: they are those of
/// the other lines.
pub proof fn lemma_text_blank_or_comment_line(text: Seq<char>, i: int)
    requires
        0 <= i < split(text, '\n').len(),
        ({
            let line = split(text, '\n')[i];
            (forall|j: int| 0 <= j < line.len() ==> is_whitespace(line[j])) || (trim(line).len()
                > 0 && trim(line).first() == '#')
        }),
    ensures
        variables_of_text(text) == variables_of_lines(split(text, '\n').remove(i)),
{
    lemma_blank_or_comment_line(split(text, '\n')[i]);
    lemma_line_without_entry(split(text, '\n'), i);
}

/// A line that gives no variable can be taken out of a text: the
/// variables stay the same.
pub proof fn lemma_text_without_line(above: Seq<char>, line: Seq<char>, below: Seq<char>)
    requires
        entry_of_line(line) is None,
        forall|j: int| 0 <= j < line.len() ==> line[j] != '\n',
    ensures
        variables_of_text(above + seq!['\n'] + line + seq!['\n'] + below) == variables_of_text(
            above + seq!['\n'] + below,
        ),
{
    let with = above + seq!['\n'] + line + seq!['\n'] + below;
    let without = above + seq!['\n'] + below;
    let (first, last) = (split(above, '\n'), split(below, '\n'));
    assert(with == above + seq!['\n'] + (line + seq!['\n'] + below));
    lemma_split_concat(above, line + seq!['\n'] + below, '\n');
    lemma_split_concat(line, below, '\n');
    lemma_split_concat(above, below, '\n');
    lemma_position_is(line, '\n', line.len() as int);
    assert(split(line, '\n') == seq![line]);
    assert(split(with, '\n') == first + (seq![line] + last));
    let lines = split(with, '\n');
    assert(lines[first.len() as int] == line);
    lemma_line_without_entry(lines, first.len() as int);
    assert(lines.remove(first.len() as int) == first + last);
}

/// Whether the line gives a variable of the key `key`.
pub open spec fn line_sets(line: Seq<char>, key: Seq<char>) -> bool {
    entry_of_line(line) matches Some(entry) && entry.0 == key
}

/// Where a key occurs on several lines, the last one holds: the value of
/// a key is the one that the last line with that key gives.
pub proof fn lemma_last_line_wins(lines: Seq<Seq<char>>, i: int, key: Seq<char>)
    requires
        0 <= i < lines.len(),
        line_sets(lines[i], key),
        forall|j: int| i < j < lines.len() ==> !line_sets(#[trigger] lines[j], key),
    ensures
        variables_of_lines(lines).contains_key(key),
        entry_of_line(lines[i]) == Some((key, variables_of_lines(lines)[key])),
    decreases lines.len(),
{
    if i < lines.len() - 1 {
        let front = lines.drop_last();
        assert(front[i] == lines[i]);
        assert forall|j: int| i < j < front.len() implies !line_sets(#[trigger] front[j], key) by {
            assert(front[j] == lines[j]);
        }
        lemma_last_line_wins(front, i, key);
        assert(!line_sets(lines[lines.len() - 1], key));
    }
}

/// Each variable comes from a line: the last line with its key, which
/// gives its value.
pub proof fn lemma_variable_has_line(lines: Seq<Seq<char>>, key: Seq<char>) -> (i: int)
    requires
        variables_of_lines(lines).contains_key(key),
    ensures
        0 <= i < lines.len(),
        entry_of_line(lines[i]) == Some((key, variables_of_lines(lines)[key])),
        forall|j: int| i < j < lines.len() ==> !line_sets(#[trigger] lines[j], key),
    decreases lines.len(),
{
    if line_sets(lines.last(), key) {
        lines.len() - 1
    } else {
        let front = lines.drop_last();
        let i = lemma_variable_has_line(front, key);
        assert(front[i] == lines[i]);
        assert forall|j: int| i < j < lines.len() implies !line_sets(#[trigger] lines[j], key) by {
            if j < lines.len() - 1 {
                assert(front[j] == lines[j]);
            }
        }
        i
    }
}

/// A line `KEY=VALUE` gives the variable of the trimmed key and the
/// trimmed value, if neither holds `=` and the key, trimmed, is not empty
/// and does not begin with `#`.
pub proof fn lemma_valid_line(key: Seq<char>, value: Seq<char>)
    requires
        occurrences(key, '=') == 0,
        occurrences(value, '=') == 0,
        trim(key).len() > 0,
        trim(key).first() != '#',
    ensures
        entry_of_line(key + seq!['='] + value) == Some((trim(key), trim(value))),
{
    let line = key + seq!['='] + value;
    let n = key.len() as int;
    let (from, to) = lemma_trim_bounds(line);
    assert(line[n] == '=' && !is_whitespace('='));
    assert(from <= n < to);
    let content = line.subrange(from, to);
    lemma_occurrences_none(key, '=');
    lemma_occurrences_none(value, '=');
    assert forall|j: int| 0 <= j < n - from implies content[j] != '=' by {
        assert(content[j] == key[from + j]);
    }
    assert(content[n - from] == '=');
    lemma_position_is(content, '=', n - from);
    let left = content.take(n - from);
    let right = content.skip(n - from + 1);
    assert(left == key.subrange(from, n));
    assert(right == value.subrange(0, to - n - 1));
    assert forall|j: int| 0 <= j < right.len() implies right[j] != '=' by {
        assert(right[j] == value[j]);
    }
    lemma_position_is(right, '=', right.len() as int);
    assert(split(right, '=') == seq![right]);
    assert(split(content, '=') == seq![left] + split(right, '='));
    assert forall|j: int| 0 <= j < from implies is_whitespace(key[j]) by {
        assert(key[j] == line[j]);
    }
    lemma_trim_of_part(key, from, n);
    assert forall|j: int| to - n - 1 <= j < value.len() implies is_whitespace(value[j]) by {
        assert(value[j] == line[n + 1 + j]);
    }
    lemma_trim_of_part(value, 0, to - n - 1);
    let (key_from, key_to) = lemma_trim_bounds(key);
    assert(key[key_from] == line[key_from]);
    assert(from <= key_from < n);
    assert(key[from] == line[from]);
    assert(key_from == from);
    assert(trim(key).first() == key[from]);
    assert(content.first() == key[from]);
}

/// The key and the value that a line gives are parts of the line: a
/// character that the line does not hold is in neither.
pub proof fn lemma_entry_chars(line: Seq<char>, key: Seq<char>, value: Seq<char>, c: char)
    requires
        entry_of_line(line) == Some((key, value)),
        forall|j: int| 0 <= j < line.len() ==> line[j] != c,
    ensures
        forall|j: int| 0 <= j < key.len() ==> key[j] != c,
        forall|j: int| 0 <= j < value.len() ==> value[j] != c,
{
    let (from, to) = lemma_trim_bounds(line);
    let content = trim(line);
    let p = position(content, '=');
    lemma_position(content, '=');
    let (left, right) = (content.take(p), content.skip(p + 1));
    assert(split(content, '=') == seq![left] + split(right, '='));
    lemma_split_len(right, '=');
    let q = position(right, '=');
    lemma_position(right, '=');
    if q < right.len() {
        lemma_split_len(right.skip(q + 1), '=');
    }
    assert(split(right, '=') == seq![right]);
    let (key_from, key_to) = lemma_trim_bounds(left);
    let (value_from, value_to) = lemma_trim_bounds(right);
    assert forall|j: int| 0 <= j < key.len() implies key[j] != c by {
        assert(key[j] == line[from + key_from + j]);
    }
    assert forall|j: int| 0 <= j < value.len() implies value[j] != c by {
        assert(value[j] == line[from + p + 1 + value_from + j]);
    }
}

/// Shown and read again, a variable that a line gave is the same variable:
/// the line `KEY=VALUE` that shows it gives it.
pub proof fn lemma_entry_round_trip(line: Seq<char>)
    requires
        entry_of_line(line) is Some,
    ensures
        entry_of_line(line_of_entry(entry_of_line(line)->0)) == entry_of_line(line),
{
    let (from, to) = lemma_trim_bounds(line);
    let content = trim(line);
    let p = position(content, '=');
    lemma_position(content, '=');
    let (left, right) = (content.take(p), content.skip(p + 1));
    assert(split(content, '=') == seq![left] + split(right, '='));
    lemma_split_len(right, '=');
    let q = position(right, '=');
    lemma_position(right, '=');
    if q < right.len() {
        lemma_split_len(right.skip(q + 1), '=');
    }
    assert(split(right, '=') == seq![right]);
    let (key, value) = entry_of_line(line)->0;
    assert(key == trim(left) && value == trim(right));
    let (key_from, key_to) = lemma_trim_bounds(left);
    let (value_from, value_to) = lemma_trim_bounds(right);
    assert forall|j: int| 0 <= j < key.len() implies key[j] != '=' by {
        assert(key[j] == content[key_from + j]);
    }
    assert forall|j: int| 0 <= j < value.len() implies value[j] != '=' by {
        assert(value[j] == right[value_from + j]);
    }
    lemma_occurrences_none(key, '=');
    lemma_occurrences_none(value, '=');
    lemma_trim_idempotent(left);
    lemma_trim_idempotent(right);
    if key.len() > 0 {
        assert(left[0] == content[0] && content[0] == line[from]);
        assert(key_from == 0);
        assert(key.first() == content.first());
    }
    lemma_valid_line(key, value);
}

/// Whether one of the lines gives the variable `entry`.
pub open spec fn given_by(lines: Seq<Seq<char>>, entry: Entry) -> bool {
    exists|j: int| 0 <= j < lines.len() && entry_of_line(#[trigger] lines[j]) == Some(entry)
}

/// The variables of a sequence of lines have a listing, and each of its
/// entries is given by one of the lines.
pub proof fn lemma_listing_of_lines(lines: Seq<Seq<char>>)
    ensures
        is_listing(listing(variables_of_lines(lines)), variables_of_lines(lines)),
        forall|i: int|
            0 <= i < listing(variables_of_lines(lines)).len() ==> given_by(
                lines,
                #[trigger] listing(variables_of_lines(lines))[i],
            ),
    decreases lines.len(),
{
    let map = variables_of_lines(lines);
    if lines.len() == 0 {
        let none = Seq::<Entry>::empty();
        assert(is_listing(none, map));
        lemma_listing_unique(listing(map), none);
    } else {
        let front = lines.drop_last();
        let before = listing(variables_of_lines(front));
        lemma_listing_of_lines(front);
        assert forall|i: int| 0 <= i < before.len() implies given_by(lines, #[trigger] before[i]) by {
            let j = choose|j: int|
                0 <= j < front.len() && entry_of_line(#[trigger] front[j]) == Some(before[i]);
            assert(front[j] == lines[j]);
        }
        match entry_of_line(lines.last()) {
            Some((key, value)) => {
                let entered = lemma_enter(before, key, value);
                assert(is_listing(entered, map));
                lemma_listing_unique(listing(map), entered);
                assert forall|i: int| 0 <= i < entered.len() implies given_by(
                    lines,
                    #[trigger] entered[i],
                ) by {
                    if entered[i] == (key, value) {
                        assert(entry_of_line(lines[lines.len() - 1]) == Some(entered[i]));
                    } else {
                        let k = choose|k: int| 0 <= k < before.len() && before[k] == entered[i];
                        assert(given_by(lines, before[k]));
                    }
                }
            },
            None => {},
        }
    }
}

/// The lines that show the variables of a sequence of lines give the same
/// variables.
pub proof fn lemma_dump_round_trip(lines: Seq<Seq<char>>)
    ensures
        variables_of_lines(dump(variables_of_lines(lines))) == variables_of_lines(lines),
{
    let entries = listing(variables_of_lines(lines));
    lemma_listing_of_lines(lines);
    assert forall|i: int| 0 <= i < entries.len() implies entry_of_line(
        line_of_entry(#[trigger] entries[i]),
    ) == Some(entries[i]) by {
        let j = choose|j: int|
            0 <= j < lines.len() && entry_of_line(#[trigger] lines[j]) == Some(entries[i]);
        lemma_entry_round_trip(lines[j]);
    }
    lemma_shown_entries(entries);
}

/// Entries that are read as they are shown form the map that their lines
/// give.
proof fn lemma_shown_entries(entries: Seq<Entry>)
    requires
        forall|i: int|
            0 <= i < entries.len() ==> entry_of_line(line_of_entry(#[trigger] entries[i])) == Some(
                entries[i],
            ),
    ensures
        variables_of_lines(entries.map_values(|entry: Entry| line_of_entry(entry)))
            == map_of(entries),
    decreases entries.len(),
{
    let show = |entry: Entry| line_of_entry(entry);
    let lines = entries.map_values(show);
    if entries.len() > 0 {
        let front = entries.drop_last();
        assert forall|i: int| 0 <= i < front.len() implies entry_of_line(
            line_of_entry(#[trigger] front[i]),
        ) == Some(front[i]) by {
            assert(front[i] == entries[i]);
        }
        lemma_shown_entries(front);
        assert(lines.drop_last() == front.map_values(show));
        assert(lines.last() == line_of_entry(entries[entries.len() - 1]));
    }
}

/// Reading a text, showing its variables line by line, and reading these
/// lines as a text gives the same variables.
pub proof fn lemma_text_round_trip(text: Seq<char>)
    ensures
        variables_of_text(join(dump(variables_of_text(text)), '\n')) == variables_of_text(text),
{
    let lines = split(text, '\n');
    let entries = listing(variables_of_lines(lines));
    let shown = dump(variables_of_lines(lines));
    lemma_listing_of_lines(lines);
    lemma_dump_round_trip(lines);
    if shown.len() == 0 {
        let blank = Seq::<char>::empty();
        assert(entries.len() == 0);
        assert(split(blank, '\n') == seq![blank]);
        lemma_trim_is(blank, 0, 0);
        assert(seq![blank].drop_last() == Seq::<Seq<char>>::empty());
        assert(variables_of_lines(seq![blank]) == variables_of_lines(Seq::empty()));
    } else {
        assert forall|i: int, j: int|
            0 <= i < shown.len() && 0 <= j < shown[i].len() implies shown[i][j] != '\n' by {
            let k = choose|k: int|
                0 <= k < lines.len() && entry_of_line(#[trigger] lines[k]) == Some(entries[i]);
            lemma_split_pieces(text, '\n', k);
            let (key, value) = entries[i];
            lemma_entry_chars(lines[k], key, value, '\n');
            assert(shown[i] == key + seq!['='] + value);
            if j < key.len() {
                assert(shown[i][j] == key[j]);
            } else if j > key.len() {
                assert(shown[i][j] == value[j - key.len() - 1]);
            }
        }
        lemma_split_join(shown, '\n');
    }
}

} // verus!
