//! Sequences of entries, and the maps they form.
//!
//! An entry is a key with its value, both sequences of characters. A
//! sequence of entries forms a map; the sequence whose keys rise lists it.

use vstd::prelude::*;
use crate::text::{
    lemma_precedes_irreflexive, lemma_precedes_total, lemma_precedes_transitive, precedes,
};

verus! {

/// A variable: its key, then its value.
pub type Entry = (Seq<char>, Seq<char>);

/// The variables: a map from key to value.
pub type Variables = Map<Seq<char>, Seq<char>>;

/// The map that a sequence of entries forms: a later entry overwrites an
/// earlier one with the same key.
pub open spec fn map_of(entries: Seq<Entry>) -> Variables
    decreases entries.len(),
{
    if entries.len() == 0 {
        Map::empty()
    } else {
        map_of(entries.drop_last()).insert(entries.last().0, entries.last().1)
    }
}

/// Whether the keys of `entries` rise strictly, in the order of strings.
pub open spec fn sorted_by_key(entries: Seq<Entry>) -> bool {
    forall|i: int, j: int|
        #![trigger entries[i], entries[j]]
        0 <= i < j < entries.len() ==> precedes(entries[i].0, entries[j].0)
}

/// Whether `entries` holds the key `key`.
pub open spec fn has_key(entries: Seq<Entry>, key: Seq<char>) -> bool {
    exists|i: int| 0 <= i < entries.len() && (#[trigger] entries[i]).0 == key
}

/// Whether no entry of `entries` has an empty key.
pub open spec fn keys_not_empty(entries: Seq<Entry>) -> bool {
    forall|i: int| 0 <= i < entries.len() ==> (#[trigger] entries[i]).0.len() > 0
}

/// The keys of `map_of(entries)` are the keys that `entries` holds.
pub proof fn lemma_map_of_keys(entries: Seq<Entry>, key: Seq<char>)
    ensures
        map_of(entries).contains_key(key) <==> has_key(entries, key),
    decreases entries.len(),
{
    if entries.len() > 0 {
        let front = entries.drop_last();
        lemma_map_of_keys(front, key);
        if has_key(entries, key) {
            let i = choose|i: int| 0 <= i < entries.len() && (#[trigger] entries[i]).0 == key;
            if i < entries.len() - 1 {
                assert(front[i].0 == key);
            }
        }
        if map_of(entries).contains_key(key) {
            if entries.last().0 == key {
                assert(entries[entries.len() - 1].0 == key);
            } else {
                let i = choose|i: int| 0 <= i < front.len() && (#[trigger] front[i]).0 == key;
                assert(entries[i].0 == key);
            }
        }
    }
}

/// The map of two sequences, one after the other: the second overwrites
/// the first.
pub proof fn lemma_map_of_concat(
    first: Seq<Entry>,
    second: Seq<Entry>,
)
    ensures
        map_of(first + second) == map_of(first).union_prefer_right(map_of(second)),
    decreases second.len(),
{
    if second.len() == 0 {
        assert(first + second == first);
        assert(map_of(first).union_prefer_right(map_of(second)) == map_of(first));
    } else {
        lemma_map_of_concat(first, second.drop_last());
        assert((first + second).drop_last() == first + second.drop_last());
        assert(map_of(first + second) == map_of(first).union_prefer_right(map_of(second)));
    }
}

/// In a sequence sorted by key no key occurs twice, so each entry is what
/// the map holds for its key.
pub proof fn lemma_sorted_entry(entries: Seq<Entry>, i: int)
    requires
        sorted_by_key(entries),
        0 <= i < entries.len(),
    ensures
        map_of(entries).contains_key(entries[i].0),
        map_of(entries)[entries[i].0] == entries[i].1,
{
    let key = entries[i].0;
    let before = entries.take(i);
    let after = entries.skip(i + 1);
    assert(entries == before.push(entries[i]) + after);
    lemma_map_of_concat(before.push(entries[i]), after);
    assert(before.push(entries[i]).drop_last() == before);
    lemma_map_of_keys(after, key);
    if has_key(after, key) {
        let j = choose|j: int| 0 <= j < after.len() && (#[trigger] after[j]).0 == key;
        assert(after[j] == entries[i + 1 + j]);
        assert(precedes(entries[i].0, entries[i + 1 + j].0));
        lemma_precedes_irreflexive(key);
    }
}

/// A new key, entered at its place in a sequence sorted by key, leaves the
/// sequence sorted and adds one variable to its map.
pub proof fn lemma_insert_sorted(
    entries: Seq<Entry>,
    i: int,
    key: Seq<char>,
    value: Seq<char>,
)
    requires
        sorted_by_key(entries),
        0 <= i <= entries.len(),
        forall|j: int| 0 <= j < i ==> precedes((#[trigger] entries[j]).0, key),
        i < entries.len() ==> precedes(key, entries[i].0),
    ensures
        sorted_by_key(entries.insert(i, (key, value))),
        map_of(entries.insert(i, (key, value))) == map_of(entries).insert(key, value),
{
    let entered = entries.insert(i, (key, value));
    let before = entries.take(i);
    let after = entries.skip(i);
    assert forall|j: int| i <= j < entries.len() implies precedes(
        key,
        (#[trigger] entries[j]).0,
    ) by {
        if j > i {
            assert(precedes(entries[i].0, entries[j].0));
            lemma_precedes_transitive(key, entries[i].0, entries[j].0);
        }
    }
    assert forall|a: int, b: int| 0 <= a < b < entered.len() implies precedes(
        (#[trigger] entered[a]).0,
        (#[trigger] entered[b]).0,
    ) by {
        if a < i && b > i {
            assert(entered[a] == entries[a] && entered[b] == entries[b - 1]);
        } else if a < i && b < i {
            assert(entered[a] == entries[a] && entered[b] == entries[b]);
        } else if a > i {
            assert(entered[a] == entries[a - 1] && entered[b] == entries[b - 1]);
        } else if a == i {
            assert(entered[b] == entries[b - 1]);
        } else {
            assert(entered[a] == entries[a]);
        }
    }
    assert(entered == before.push((key, value)) + after);
    assert(entries == before + after);
    lemma_map_of_concat(before.push((key, value)), after);
    lemma_map_of_concat(before, after);
    assert(before.push((key, value)).drop_last() == before);
    lemma_map_of_keys(after, key);
    if has_key(after, key) {
        let j = choose|j: int| 0 <= j < after.len() && (#[trigger] after[j]).0 == key;
        assert(after[j] == entries[i + j]);
        lemma_precedes_irreflexive(key);
    }
    assert(map_of(entered) == map_of(entries).insert(key, value));
}

/// A new value for a key that a sequence sorted by key holds leaves the
/// sequence sorted and changes that one variable in its map.
pub proof fn lemma_update_sorted(entries: Seq<Entry>, i: int, value: Seq<char>)
    requires
        sorted_by_key(entries),
        0 <= i < entries.len(),
    ensures
        sorted_by_key(entries.update(i, (entries[i].0, value))),
        map_of(entries.update(i, (entries[i].0, value))) == map_of(entries).insert(
            entries[i].0,
            value,
        ),
{
    let key = entries[i].0;
    let changed = entries.update(i, (key, value));
    let before = entries.take(i);
    let after = entries.skip(i + 1);
    assert forall|a: int, b: int| 0 <= a < b < changed.len() implies precedes(
        (#[trigger] changed[a]).0,
        (#[trigger] changed[b]).0,
    ) by {
        assert(changed[a].0 == entries[a].0 && changed[b].0 == entries[b].0);
    }
    assert(changed == before.push((key, value)) + after);
    assert(entries == before.push(entries[i]) + after);
    lemma_map_of_concat(before.push((key, value)), after);
    lemma_map_of_concat(before.push(entries[i]), after);
    assert(before.push((key, value)).drop_last() == before);
    assert(before.push(entries[i]).drop_last() == before);
    lemma_map_of_keys(after, key);
    if has_key(after, key) {
        let j = choose|j: int| 0 <= j < after.len() && (#[trigger] after[j]).0 == key;
        assert(after[j] == entries[i + 1 + j]);
        assert(precedes(entries[i].0, entries[i + 1 + j].0));
        lemma_precedes_irreflexive(key);
    }
    assert(map_of(changed) == map_of(entries).insert(key, value));
}

/// Whether `entries` lists `map`: it holds each variable of `map` once, in
/// the order of the keys.
pub open spec fn is_listing(
    entries: Seq<Entry>,
    map: Variables,
) -> bool {
    sorted_by_key(entries) && map_of(entries) == map
}

/// The variables of `map` in the order of their keys. A map that some
/// sequence of entries forms has one listing, and only one.
pub open spec fn listing(map: Variables) -> Seq<Entry> {
    choose|entries: Seq<Entry>| is_listing(entries, map)
}

/// Two sequences sorted by key that form the same map are equal.
pub proof fn lemma_listing_unique(
    a: Seq<Entry>,
    b: Seq<Entry>,
)
    requires
        sorted_by_key(a),
        sorted_by_key(b),
        map_of(a) == map_of(b),
    ensures
        a == b,
    decreases a.len(),
{
    if a.len() == 0 {
        if b.len() > 0 {
            assert(map_of(b).contains_key(b.last().0));
        }
        assert(a =~= b);
    } else {
        if b.len() == 0 {
            assert(map_of(a).contains_key(a.last().0));
        }
        let (key_a, key_b) = (a.last().0, b.last().0);
        let (front_a, front_b) = (a.drop_last(), b.drop_last());
        assert(map_of(a).contains_key(key_a) && map_of(b).contains_key(key_b));
        lemma_map_of_keys(b, key_a);
        lemma_map_of_keys(a, key_b);
        let j = choose|j: int| 0 <= j < b.len() && (#[trigger] b[j]).0 == key_a;
        let i = choose|i: int| 0 <= i < a.len() && (#[trigger] a[i]).0 == key_b;
        if j < b.len() - 1 && i < a.len() - 1 {
            assert(precedes(b[j].0, b[b.len() - 1].0));
            assert(precedes(a[i].0, a[a.len() - 1].0));
            lemma_precedes_total(key_a, key_b);
        }
        assert(key_a == key_b);
        lemma_front_of_sorted(a);
        lemma_front_of_sorted(b);
        assert(map_of(front_a) == map_of(a).remove(key_a));
        assert(map_of(front_b) == map_of(b).remove(key_b));
        lemma_listing_unique(front_a, front_b);
        assert(map_of(a)[key_a] == a.last().1 && map_of(b)[key_b] == b.last().1);
        assert(a.last() == b.last());
        assert(a == front_a.push(a.last()));
        assert(b == front_b.push(b.last()));
    }
}

/// Without its last entry a sequence sorted by key is still sorted, and
/// the key of that entry is no longer in its map.
proof fn lemma_front_of_sorted(entries: Seq<Entry>)
    requires
        sorted_by_key(entries),
        entries.len() > 0,
    ensures
        sorted_by_key(entries.drop_last()),
        !map_of(entries.drop_last()).contains_key(entries.last().0),
{
    let front = entries.drop_last();
    let key = entries.last().0;
    assert forall|i: int, j: int| 0 <= i < j < front.len() implies precedes(
        (#[trigger] front[i]).0,
        (#[trigger] front[j]).0,
    ) by {
        assert(front[i] == entries[i] && front[j] == entries[j]);
    }
    lemma_map_of_keys(front, key);
    if has_key(front, key) {
        let i = choose|i: int| 0 <= i < front.len() && (#[trigger] front[i]).0 == key;
        assert(front[i] == entries[i]);
        assert(precedes(entries[i].0, entries[entries.len() - 1].0));
        lemma_precedes_irreflexive(key);
    }
}

/// A sequence sorted by key is the listing of its map.
pub proof fn lemma_listing_of_sorted(entries: Seq<Entry>)
    requires
        sorted_by_key(entries),
    ensures
        listing(map_of(entries)) == entries,
{
    assert(is_listing(entries, map_of(entries)));
    lemma_listing_unique(listing(map_of(entries)), entries);
}

/// How many entries of a sequence sorted by key come before `key`.
proof fn lemma_rank(entries: Seq<Entry>, key: Seq<char>) -> (i: int)
    ensures
        0 <= i <= entries.len(),
        forall|j: int| 0 <= j < i ==> precedes((#[trigger] entries[j]).0, key),
        i < entries.len() ==> !precedes(entries[i].0, key),
    decreases entries.len(),
{
    if entries.len() > 0 && precedes(entries.first().0, key) {
        let rest = entries.drop_first();
        let i = lemma_rank(rest, key);
        assert forall|j: int| 0 <= j < i + 1 implies precedes((#[trigger] entries[j]).0, key) by {
            if j > 0 {
                assert(entries[j] == rest[j - 1]);
            }
        }
        if i + 1 < entries.len() {
            assert(entries[i + 1] == rest[i]);
        }
        i + 1
    } else {
        0
    }
}

/// A map that has a listing still has one when a variable is set: the
/// entries of the new listing are the new one and entries of the old.
pub proof fn lemma_enter(entries: Seq<Entry>, key: Seq<char>, value: Seq<char>) -> (entered:
    Seq<Entry>)
    requires
        sorted_by_key(entries),
    ensures
        sorted_by_key(entered),
        map_of(entered) == map_of(entries).insert(key, value),
        forall|i: int|
            0 <= i < entered.len() ==> #[trigger] entered[i] == (key, value) || entries.contains(
                entered[i],
            ),
{
    let i = lemma_rank(entries, key);
    if i < entries.len() && entries[i].0 == key {
        lemma_update_sorted(entries, i, value);
        let entered = entries.update(i, (key, value));
        assert forall|j: int| 0 <= j < entered.len() implies #[trigger] entered[j] == (key, value)
            || entries.contains(entered[j]) by {
            if j != i {
                assert(entered[j] == entries[j]);
            }
        }
        entered
    } else {
        if i < entries.len() {
            lemma_precedes_total(key, entries[i].0);
        }
        lemma_insert_sorted(entries, i, key, value);
        let entered = entries.insert(i, (key, value));
        assert forall|j: int| 0 <= j < entered.len() implies #[trigger] entered[j] == (key, value)
            || entries.contains(entered[j]) by {
            if j < i {
                assert(entered[j] == entries[j]);
            } else if j > i {
                assert(entered[j] == entries[j - 1]);
            }
        }
        entered
    }
}

/// A map that a sequence of entries forms has a listing.
pub proof fn lemma_map_has_listing(entries: Seq<Entry>)
    ensures
        is_listing(listing(map_of(entries)), map_of(entries)),
    decreases entries.len(),
{
    let map = map_of(entries);
    if entries.len() == 0 {
        assert(is_listing(entries, map));
    } else {
        let front = entries.drop_last();
        lemma_map_has_listing(front);
        let entered = lemma_enter(listing(map_of(front)), entries.last().0, entries.last().1);
        assert(is_listing(entered, map));
    }
}

/// Where no entry has an empty key, the map they form has none.
pub proof fn lemma_map_keys_not_empty(entries: Seq<Entry>)
    requires
        keys_not_empty(entries),
    ensures
        forall|key: Seq<char>| #[trigger] map_of(entries).contains_key(key) ==> key.len() > 0,
{
    assert forall|key: Seq<char>| #[trigger] map_of(entries).contains_key(key) implies key.len()
        > 0 by {
        lemma_map_of_keys(entries, key);
        let i = choose|i: int| 0 <= i < entries.len() && (#[trigger] entries[i]).0 == key;
        assert(entries[i].0.len() > 0);
    }
}

} // verus!
