//! The variables of one source, and the reading of their text.

use vstd::prelude::*;
use crate::entries::{
    keys_not_empty, lemma_insert_sorted, lemma_listing_of_sorted, lemma_map_keys_not_empty,
    lemma_map_of_keys, lemma_sorted_entry, lemma_update_sorted, is_listing, listing, map_of,
    sorted_by_key, Variables,
};
use crate::error::Error;
use crate::format::{
    dump, entry_of_line, lemma_variable_keys, line_of_entry, variables_of_lines,
    variables_of_text,
};
use crate::source::{ReadOutcome, Source, SourceView};
use crate::text::{
    find_char, lemma_precedes_total, lemma_split_len, precedes, split, str_eq, str_precedes,
    to_chars, trim_bounds,
};

verus! {

/// The variables of one source: a map from key to value, no key empty.
///
/// The entries are kept in a vector, in the order of their keys, each key
/// once.
#[derive(Debug, PartialEq, Eq)]
pub struct DotenvFile {
    map: Vec<(String, String)>,
}

impl View for DotenvFile {
    type V = Variables;

    closed spec fn view(&self) -> Variables {
        map_of(self.map.deep_view())
    }
}

impl DotenvFile {
    #[verifier::type_invariant]
    spec fn wf(&self) -> bool {
        sorted_by_key(self.map.deep_view()) && keys_not_empty(self.map.deep_view())
    }

    /// No variables.
    pub fn new() -> (file: DotenvFile)
        ensures
            file@ == Map::<Seq<char>, Seq<char>>::empty(),
    {
        let file = DotenvFile { map: Vec::new() };
        assert(file.map.deep_view() =~= Seq::empty());
        file
    }

    /// Sets the variable `key` to `value`, whether or not it was set, and
    /// says so. An empty key is refused: nothing changes then.
    pub fn insert(&mut self, key: String, value: String) -> (set: bool)
        ensures
            set == (key@.len() > 0),
            final(self)@ == if set {
                old(self)@.insert(key@, value@)
            } else {
                old(self)@
            },
    {
        if key.as_str().is_empty() {
            return false;
        }
        proof {
            use_type_invariant(&*self);
        }
        // The entries are taken out to be changed: what `self` holds is
        // sorted at every moment.
        let mut map: Vec<(String, String)> = Vec::new();
        assert(map.deep_view() =~= Seq::empty());
        core::mem::swap(&mut self.map, &mut map);
        let ghost entries = map.deep_view();
        let mut i: usize = 0;
        while i < map.len() && str_precedes(map[i].0.as_str(), key.as_str())
            invariant
                0 <= i <= map.len(),
                entries == map.deep_view(),
                forall|j: int| 0 <= j < i ==> precedes((#[trigger] entries[j]).0, key@),
            decreases map.len() - i,
        {
            i += 1;
        }
        if i < map.len() && str_eq(map[i].0.as_str(), key.as_str()) {
            proof {
                lemma_update_sorted(entries, i as int, value@);
            }
            map.set(i, (key, value));
            let ghost changed = entries.update(i as int, (key@, value@));
            assert(map.deep_view() =~= changed);
            assert forall|j: int| 0 <= j < changed.len() implies (#[trigger] changed[j]).0.len()
                > 0 by {
                assert(changed[j].0 == entries[j].0);
            }
        } else {
            proof {
                if i < map.len() {
                    lemma_precedes_total(key@, entries[i as int].0);
                }
                lemma_insert_sorted(entries, i as int, key@, value@);
            }
            map.insert(i, (key, value));
            let ghost entered = entries.insert(i as int, (key@, value@));
            assert(map.deep_view() =~= entered);
            assert forall|j: int| 0 <= j < entered.len() implies (#[trigger] entered[j]).0.len()
                > 0 by {
                if j < i {
                    assert(entered[j] == entries[j]);
                } else if j > i {
                    assert(entered[j] == entries[j - 1]);
                }
            }
        }
        core::mem::swap(&mut self.map, &mut map);
        true
    }

    /// The value of the variable `key`, if it is set.
    pub fn get(&self, key: &str) -> (value: Option<&String>)
        ensures
            match value {
                Some(value) => self@.contains_key(key@) && self@[key@] == value@,
                None => !self@.contains_key(key@),
            },
    {
        proof {
            use_type_invariant(self);
        }
        let ghost entries = self.map.deep_view();
        let mut i: usize = 0;
        while i < self.map.len()
            invariant
                0 <= i <= self.map.len(),
                entries == self.map.deep_view(),
                sorted_by_key(entries),
                forall|j: int| 0 <= j < i ==> (#[trigger] entries[j]).0 != key@,
            decreases self.map.len() - i,
        {
            if str_eq(self.map[i].0.as_str(), key) {
                proof {
                    lemma_sorted_entry(entries, i as int);
                }
                return Some(&self.map[i].1);
            }
            i += 1;
        }
        proof {
            lemma_map_of_keys(entries, key@);
        }
        None
    }

    /// The variables, in the order of their keys. No key is empty.
    pub fn get_inner_map(&self) -> (entries: &Vec<(String, String)>)
        ensures
            is_listing(entries.deep_view(), self@),
            entries.deep_view() == listing(self@),
            keys_not_empty(entries.deep_view()),
            forall|key: Seq<char>| #[trigger] self@.contains_key(key) ==> key.len() > 0,
    {
        proof {
            use_type_invariant(self);
            lemma_listing_of_sorted(self.map.deep_view());
            lemma_map_keys_not_empty(self.map.deep_view());
        }
        &self.map
    }

    /// One line for each variable, `KEY=VALUE`, in the order of the keys.
    pub fn dump_lines(&self) -> (lines: Vec<String>)
        ensures
            lines.deep_view() == dump(self@),
    {
        let entries = self.get_inner_map();
        let mut lines: Vec<String> = Vec::new();
        let mut i: usize = 0;
        while i < entries.len()
            invariant
                0 <= i <= entries.len(),
                lines.len() == i,
                forall|j: int|
                    0 <= j < i ==> (#[trigger] lines[j])@ == line_of_entry(
                        entries.deep_view()[j],
                    ),
            decreases entries.len() - i,
        {
            let mut line = entries[i].0.clone();
            line.append("=");
            line.append(entries[i].1.as_str());
            proof {
                reveal_strlit("=");
                assert("="@ =~= seq!['=']);
            }
            lines.push(line);
            i += 1;
        }
        assert(lines.deep_view() =~= dump(self@));
        lines
    }

    /// The variables of the source that `use_stdin` and `file` select,
    /// given what reading that source gave.
    pub fn configure(use_stdin: bool, file: Option<String>, outcome: ReadOutcome) -> (result:
        Result<DotenvFile, Error>)
        ensures
            match SourceView::select(use_stdin, file.deep_view()).text(outcome@) {
                Ok(text) => result matches Ok(vars) && vars@ == variables_of_text(text),
                Err(error) => result matches Err(got) && got@ == error,
            },
            result matches Ok(vars) ==> forall|key: Seq<char>| #[trigger]
                vars@.contains_key(key) ==> key.len() > 0,
    {
        let source = Source::select(use_stdin, file);
        match source.text(outcome) {
            Ok(text) => Ok(parse_dotenv_string(text.as_str())),
            Err(error) => Err(error),
        }
    }
}

/// Where the key and the value stand in the line `chars[start..end]`, if
/// the line gives a variable: the bounds of the key, then those of the
/// value.
pub fn entry_bounds(chars: &[char], start: usize, end: usize) -> (bounds: Option<
    (usize, usize, usize, usize),
>)
    requires
        start <= end <= chars@.len(),
    ensures
        match bounds {
            Some((key_from, key_to, value_from, value_to)) => {
                &&& start <= key_from < key_to < value_from <= value_to <= end
                &&& entry_of_line(chars@.subrange(start as int, end as int)) == Some(
                    (
                        chars@.subrange(key_from as int, key_to as int),
                        chars@.subrange(value_from as int, value_to as int),
                    ),
                )
            },
            None => entry_of_line(chars@.subrange(start as int, end as int)) is None,
        },
{
    let (from, to) = trim_bounds(chars, start, end);
    let ghost content = chars@.subrange(from as int, to as int);
    if from == to || chars[from] == '#' {
        return None;
    }
    let first = find_char(chars, from, to, '=');
    if first == to {
        return None;
    }
    let ghost rest = chars@.subrange(first + 1, to as int);
    assert(content.skip(first - from + 1) == rest);
    assert(split(content, '=') == seq![content.take(first - from)] + split(rest, '='));
    let second = find_char(chars, first + 1, to, '=');
    if second < to {
        proof {
            let after = rest.skip(second - first);
            lemma_split_len(after, '=');
            assert(split(rest, '=') == seq![rest.take(second - first - 1)] + split(after, '='));
        }
        return None;
    }
    assert(split(rest, '=') == seq![rest]);
    assert(content.take(first - from) == chars@.subrange(from as int, first as int));
    let (key_from, key_to) = trim_bounds(chars, from, first);
    if key_from == key_to {
        return None;
    }
    let (value_from, value_to) = trim_bounds(chars, first + 1, to);
    Some((key_from, key_to, value_from, value_to))
}

/// Reads one line.
pub fn parse_line(line: &str) -> (entry: Option<(String, String)>)
    ensures
        entry.deep_view() == entry_of_line(line@),
{
    let chars = to_chars(line);
    assert(chars@.subrange(0, chars@.len() as int) == line@);
    match entry_bounds(chars.as_slice(), 0, chars.len()) {
        Some((key_from, key_to, value_from, value_to)) => {
            let key = line.substring_char(key_from, key_to).to_owned();
            let value = line.substring_char(value_from, value_to).to_owned();
            Some((key, value))
        },
        None => None,
    }
}

/// Reads the text of a variable source. No text is refused: a line that
/// gives no variable is passed over.
pub fn parse_dotenv_string(content: &str) -> (file: DotenvFile)
    ensures
        file@ == variables_of_text(content@),
        forall|key: Seq<char>| #[trigger] file@.contains_key(key) ==> key.len() > 0,
{
    let chars = to_chars(content);
    let mut file = DotenvFile::new();
    let mut start: usize = 0;
    let ghost mut done: Seq<Seq<char>> = Seq::empty();
    assert(content@.skip(0) == content@);
    loop
        invariant
            chars@ == content@,
            0 <= start <= chars@.len(),
            split(content@, '\n') == done + split(content@.skip(start as int), '\n'),
            file@ == variables_of_lines(done),
        decreases chars@.len() - start,
    {
        let end = find_char(chars.as_slice(), start, chars.len(), '\n');
        let ghost rest = content@.skip(start as int);
        let ghost line = content@.subrange(start as int, end as int);
        proof {
            assert(content@.subrange(start as int, chars@.len() as int) == rest);
            assert(rest.take(end - start) == line);
            assert(done.push(line).drop_last() == done);
        }
        match entry_bounds(chars.as_slice(), start, end) {
            Some((key_from, key_to, value_from, value_to)) => {
                // A part is cut out by position, which walks the text from
                // its start.
                let key = content.substring_char(key_from, key_to).to_owned();
                let value = content.substring_char(value_from, value_to).to_owned();
                file.insert(key, value);
            },
            None => {},
        }
        if end == chars.len() {
            assert(split(rest, '\n') == seq![rest]);
            assert(split(content@, '\n') == done.push(line));
            proof {
                lemma_variable_keys(split(content@, '\n'));
            }
            return file;
        }
        proof {
            assert(rest.skip(end - start + 1) == content@.skip(end + 1));
            assert(split(rest, '\n') == seq![line] + split(content@.skip(end + 1), '\n'));
            done = done.push(line);
        }
        start = end + 1;
    }
}

} // verus!
