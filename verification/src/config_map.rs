//! The map from setting keys to values that the parser fills and the emitter
//! reads.
//!
//! A `ConfigMap` is viewed as a `Map<Seq<char>, Seq<char>>`. It keeps its
//! entries in a vector in which no key occurs twice, which is its type
//! invariant; the order of that vector is not part of the view.

use vstd::prelude::*;
use crate::text::{chars_of, string_of, text_eq};

verus! {

/// One key with its value.
pub(crate) struct Entry {
    pub(crate) key: Vec<char>,
    pub(crate) value: Vec<char>,
}

/// A finite map from keys to values, both texts.
pub struct ConfigMap {
    entries: Vec<Entry>,
}

/// Whether some entry of `es` has the key `k`.
pub(crate) open spec fn has_key(es: Seq<Entry>, k: Seq<char>) -> bool {
    exists|i: int| 0 <= i < es.len() && #[trigger] es[i].key@ == k
}

/// The position of an entry of `es` with the key `k`.
pub(crate) open spec fn key_index(es: Seq<Entry>, k: Seq<char>) -> int {
    choose|i: int| 0 <= i < es.len() && #[trigger] es[i].key@ == k
}

/// No key occurs in two entries of `es`.
pub(crate) open spec fn distinct_keys(es: Seq<Entry>) -> bool {
    forall|i: int, j: int|
        0 <= i < es.len() && 0 <= j < es.len() && #[trigger] es[i].key@ == #[trigger] es[j].key@
            ==> i == j
}

/// The map that the entries `es` stand for.
pub(crate) open spec fn map_of(es: Seq<Entry>) -> Map<Seq<char>, Seq<char>> {
    Map::new(|k: Seq<char>| has_key(es, k), |k: Seq<char>| es[key_index(es, k)].value@)
}

/// The keys of `es`, in the order of the entries.
pub(crate) open spec fn keys_of(es: Seq<Entry>) -> Seq<Seq<char>> {
    Seq::new(es.len(), |i: int| es[i].key@)
}

/// With distinct keys, each entry is the one that `map_of` finds for its key.
pub(crate) proof fn lemma_map_of_entry(es: Seq<Entry>, i: int)
    requires
        distinct_keys(es),
        0 <= i < es.len(),
    ensures
        map_of(es).contains_key(es[i].key@),
        map_of(es)[es[i].key@] == es[i].value@,
        key_index(es, es[i].key@) == i,
{
    assert(has_key(es, es[i].key@));
}

/// The keys of distinct entries are exactly the domain of their map, each once.
pub(crate) proof fn lemma_keys_of(es: Seq<Entry>)
    requires
        distinct_keys(es),
    ensures
        keys_of(es).no_duplicates(),
        keys_of(es).to_set() == map_of(es).dom(),
        map_of(es).dom().finite(),
        map_of(es).dom().len() == es.len(),
{
    let keys = keys_of(es);
    assert forall|i: int, j: int| 0 <= i < keys.len() && 0 <= j < keys.len() && i != j implies keys[i]
        != keys[j] by {
        assert(es[i].key@ == keys[i] && es[j].key@ == keys[j]);
    }
    assert forall|k: Seq<char>| keys.to_set().contains(k) <==> map_of(es).dom().contains(k) by {
        if keys.to_set().contains(k) {
            let i = choose|i: int| 0 <= i < keys.len() && keys[i] == k;
            assert(es[i].key@ == k);
        }
        if has_key(es, k) {
            let i = key_index(es, k);
            assert(keys[i] == k);
        }
    }
    assert(keys.to_set() =~= map_of(es).dom());
    keys.unique_seq_to_set();
    vstd::seq_lib::seq_to_set_is_finite(keys);
}

impl View for ConfigMap {
    type V = Map<Seq<char>, Seq<char>>;

    /// The map that the entries stand for.
    closed spec fn view(&self) -> Map<Seq<char>, Seq<char>> {
        map_of(self.entries@)
    }
}

impl ConfigMap {
    /// No key occurs in two entries.
    #[verifier::type_invariant]
    spec fn distinct(self) -> bool {
        distinct_keys(self.entries@)
    }

    /// The entries behind the view, in the order in which their keys came.
    pub(crate) closed spec fn entries(&self) -> Seq<Entry> {
        self.entries@
    }

    /// The empty map.
    pub fn new() -> (map: ConfigMap)
        ensures
            map@ == Map::<Seq<char>, Seq<char>>::empty(),
    {
        let map = ConfigMap { entries: Vec::new() };
        assert(map@ =~= Map::<Seq<char>, Seq<char>>::empty());
        map
    }

    /// The number of keys.
    pub fn len(&self) -> (n: usize)
        ensures
            self@.dom().finite(),
            n == self@.len(),
    {
        self.entry_count()
    }

    /// The number of entries: one for each key of the view.
    pub(crate) fn entry_count(&self) -> (n: usize)
        ensures
            self@.dom().finite(),
            n == self@.len(),
            n == self.entries().len(),
            distinct_keys(self.entries()),
            self@ == map_of(self.entries()),
    {
        proof {
            use_type_invariant(self);
            lemma_keys_of(self.entries@);
        }
        self.entries.len()
    }

    /// The entry at position `i`.
    pub(crate) fn entry(&self, i: usize) -> (e: &Entry)
        requires
            i < self.entries().len(),
        ensures
            *e == self.entries()[i as int],
    {
        &self.entries[i]
    }

    /// Whether the map holds `key`.
    pub fn contains_key(&self, key: &str) -> (held: bool)
        ensures
            held == self@.contains_key(key@),
    {
        self.get_text(&chars_of(key)).is_some()
    }

    /// The value stored for `key`.
    pub fn get(&self, key: &str) -> (value: Option<String>)
        ensures
            match value {
                Some(v) => self@.contains_key(key@) && v@ == self@[key@],
                None => !self@.contains_key(key@),
            },
    {
        match self.get_text(&chars_of(key)) {
            Some(v) => Some(string_of(v)),
            None => None,
        }
    }

    /// Stores `value` for `key`, in place of any value that `key` had.
    pub fn insert(&mut self, key: &str, value: &str)
        ensures
            final(self)@ == old(self)@.insert(key@, value@),
    {
        self.insert_text(chars_of(key), chars_of(value));
    }

    /// Takes `key` and its value out of the map.
    pub fn remove(&mut self, key: &str)
        ensures
            final(self)@ == old(self)@.remove(key@),
    {
        self.remove_text(&chars_of(key));
    }

    /// Where the entry for `key` stands, if there is one.
    fn position(&self, key: &Vec<char>) -> (at: Option<usize>)
        ensures
            match at {
                Some(i) => i < self.entries@.len() && self.entries@[i as int].key@ == key@,
                None => !has_key(self.entries@, key@),
            },
    {
        let mut i: usize = 0;
        while i < self.entries.len()
            invariant
                i <= self.entries@.len(),
                forall|j: int| 0 <= j < i ==> self.entries@[j].key@ != key@,
            decreases self.entries@.len() - i,
        {
            if text_eq(&self.entries[i].key, key) {
                return Some(i);
            }
            i += 1;
        }
        None
    }

    /// The value stored for `key`.
    pub(crate) fn get_text(&self, key: &Vec<char>) -> (value: Option<&Vec<char>>)
        ensures
            match value {
                Some(v) => self@.contains_key(key@) && v@ == self@[key@],
                None => !self@.contains_key(key@),
            },
    {
        proof {
            use_type_invariant(self);
        }
        match self.position(key) {
            Some(i) => {
                proof {
                    lemma_map_of_entry(self.entries@, i as int);
                }
                Some(&self.entries[i].value)
            },
            None => None,
        }
    }

    /// Stores `value` for `key`, in place of any value that `key` had.
    pub(crate) fn insert_text(&mut self, key: Vec<char>, value: Vec<char>)
        ensures
            final(self)@ == old(self)@.insert(key@, value@),
    {
        proof {
            use_type_invariant(&*self);
        }
        let ghost before = self.entries@;
        let found = self.position(&key);
        let entry = Entry { key, value };
        let mut entries: Vec<Entry> = Vec::new();
        core::mem::swap(&mut self.entries, &mut entries);
        match found {
            Some(i) => {
                entries.set(i, entry);
                proof {
                    lemma_entry_replaced(before, entry, i as int);
                }
            },
            None => {
                entries.push(entry);
                proof {
                    lemma_entry_added(before, entry);
                }
            },
        }
        core::mem::swap(&mut self.entries, &mut entries);
    }

    /// Takes `key` and its value out of the map.
    pub(crate) fn remove_text(&mut self, key: &Vec<char>)
        ensures
            final(self)@ == old(self)@.remove(key@),
    {
        proof {
            use_type_invariant(&*self);
        }
        let ghost before = self.entries@;
        match self.position(key) {
            Some(i) => {
                let mut entries: Vec<Entry> = Vec::new();
                core::mem::swap(&mut self.entries, &mut entries);
                entries.remove(i);
                proof {
                    lemma_entry_removed(before, i as int);
                }
                core::mem::swap(&mut self.entries, &mut entries);
            },
            None => {
                assert(map_of(before) =~= map_of(before).remove(key@));
            },
        }
    }
}

/// An entry in the place of one with the same key stores its value for that
/// key and leaves the other keys as they are.
proof fn lemma_entry_replaced(before: Seq<Entry>, entry: Entry, i: int)
    requires
        distinct_keys(before),
        0 <= i < before.len(),
        before[i].key@ == entry.key@,
    ensures
        distinct_keys(before.update(i, entry)),
        map_of(before.update(i, entry)) == map_of(before).insert(entry.key@, entry.value@),
{
    let after = before.update(i, entry);
    assert forall|a: int, b: int|
        0 <= a < after.len() && 0 <= b < after.len() && #[trigger] after[a].key@
            == #[trigger] after[b].key@ implies a == b by {
        assert(after[a].key@ == before[a].key@);
        assert(after[b].key@ == before[b].key@);
    }
    assert forall|x: Seq<char>| has_key(after, x) <==> has_key(before, x) by {
        if has_key(after, x) {
            assert(before[key_index(after, x)].key@ == x);
        }
        if has_key(before, x) {
            assert(after[key_index(before, x)].key@ == x);
        }
    }
    assert(has_key(before, entry.key@));
    assert forall|x: Seq<char>| has_key(after, x) implies map_of(after)[x] == map_of(before).insert(
        entry.key@,
        entry.value@,
    )[x] by {
        let j = key_index(after, x);
        lemma_map_of_entry(after, j);
        if j != i {
            assert(before[j].key@ == x);
            lemma_map_of_entry(before, j);
        }
    }
    assert(map_of(after) =~= map_of(before).insert(entry.key@, entry.value@));
}

/// An entry with a new key, added at the end, stores its value for that key
/// and leaves the other keys as they are.
proof fn lemma_entry_added(before: Seq<Entry>, entry: Entry)
    requires
        distinct_keys(before),
        !has_key(before, entry.key@),
    ensures
        distinct_keys(before.push(entry)),
        map_of(before.push(entry)) == map_of(before).insert(entry.key@, entry.value@),
{
    let after = before.push(entry);
    let n = before.len() as int;
    assert forall|a: int, b: int|
        0 <= a < after.len() && 0 <= b < after.len() && #[trigger] after[a].key@
            == #[trigger] after[b].key@ implies a == b by {
        if a < n {
            assert(before[a].key@ == after[a].key@);
        }
        if b < n {
            assert(before[b].key@ == after[b].key@);
        }
    }
    assert forall|x: Seq<char>| has_key(after, x) <==> (x == entry.key@ || has_key(before, x)) by {
        if has_key(after, x) {
            let j = key_index(after, x);
            if j < n {
                assert(before[j].key@ == x);
            }
        }
        if has_key(before, x) {
            assert(after[key_index(before, x)].key@ == x);
        }
        if x == entry.key@ {
            assert(after[n].key@ == x);
        }
    }
    assert forall|x: Seq<char>| has_key(after, x) implies map_of(after)[x] == map_of(before).insert(
        entry.key@,
        entry.value@,
    )[x] by {
        let j = key_index(after, x);
        lemma_map_of_entry(after, j);
        if j < n {
            assert(before[j].key@ == x);
            lemma_map_of_entry(before, j);
        }
    }
    assert(map_of(after) =~= map_of(before).insert(entry.key@, entry.value@));
}

/// Without the entry at `i`, the key of that entry is gone and the other
/// keys are as they were.
proof fn lemma_entry_removed(before: Seq<Entry>, i: int)
    requires
        distinct_keys(before),
        0 <= i < before.len(),
    ensures
        distinct_keys(before.remove(i)),
        map_of(before.remove(i)) == map_of(before).remove(before[i].key@),
{
    let after = before.remove(i);
    let k = before[i].key@;
    assert forall|a: int| 0 <= a < after.len() implies #[trigger] after[a] == before[shifted(i, a)] by {}
    assert forall|a: int, b: int|
        0 <= a < after.len() && 0 <= b < after.len() && #[trigger] after[a].key@
            == #[trigger] after[b].key@ implies a == b by {
        assert(after[a] == before[shifted(i, a)]);
        assert(after[b] == before[shifted(i, b)]);
    }
    assert forall|x: Seq<char>| has_key(after, x) <==> (x != k && has_key(before, x)) by {
        if has_key(after, x) {
            let j = key_index(after, x);
            assert(after[j] == before[shifted(i, j)]);
            assert(before[shifted(i, j)].key@ == x);
        }
        if x != k && has_key(before, x) {
            let j = key_index(before, x);
            if j < i {
                assert(after[j] == before[shifted(i, j)]);
                assert(after[j].key@ == x);
            } else {
                assert(after[j - 1] == before[shifted(i, j - 1)]);
                assert(after[j - 1].key@ == x);
            }
        }
    }
    assert forall|x: Seq<char>| has_key(after, x) implies map_of(after)[x] == map_of(before)[x] by {
        let j = key_index(after, x);
        lemma_map_of_entry(after, j);
        assert(after[j] == before[shifted(i, j)]);
        lemma_map_of_entry(before, shifted(i, j));
    }
    assert(map_of(after) =~= map_of(before).remove(k));
}

/// Where the entry now at `a` stood before the entry at `removed` left.
spec fn shifted(removed: int, a: int) -> int {
    if a < removed {
        a
    } else {
        a + 1
    }
}

} // verus!
