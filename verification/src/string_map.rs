//! A map from strings to strings that keeps its entries in insertion order.
//!
//! The map is modelled twice: as the sequence of its entries, which fixes the
//! order in which they are written out, and as a `Map`, which is what lookups
//! speak of. No key occurs twice.

use vstd::prelude::*;
use vstd::string::*;

verus! {

/// One entry of a map, as mathematical text.
pub type Pair = (Seq<char>, Seq<char>);

/// Position of the first entry at or after `from` whose key is `key`.
pub open spec fn assoc_index_from(entries: Seq<Pair>, key: Seq<char>, from: int) -> Option<int>
    decreases entries.len() - from,
{
    if from < 0 || from >= entries.len() {
        None
    } else if entries[from].0 == key {
        Some(from)
    } else {
        assoc_index_from(entries, key, from + 1)
    }
}

/// Position of the first entry whose key is `key`.
pub open spec fn assoc_index(entries: Seq<Pair>, key: Seq<char>) -> Option<int> {
    assoc_index_from(entries, key, 0)
}

/// The value stored under `key`.
pub open spec fn assoc_get(entries: Seq<Pair>, key: Seq<char>) -> Option<Seq<char>> {
    match assoc_index(entries, key) {
        Some(i) => Some(entries[i].1),
        None => None,
    }
}

/// `entries` after `key` is bound to `value`: an existing entry keeps its
/// place and takes the new value, a new key goes to the end.
pub open spec fn assoc_insert(entries: Seq<Pair>, key: Seq<char>, value: Seq<char>) -> Seq<Pair> {
    match assoc_index(entries, key) {
        Some(i) => entries.update(i, (key, value)),
        None => entries.push((key, value)),
    }
}

/// `entries` without the entry for `key`.
pub open spec fn assoc_remove(entries: Seq<Pair>, key: Seq<char>) -> Seq<Pair> {
    match assoc_index(entries, key) {
        Some(i) => entries.remove(i),
        None => entries,
    }
}

/// No key occurs twice.
pub open spec fn assoc_distinct(entries: Seq<Pair>) -> bool {
    forall|i: int, j: int| 0 <= i < j < entries.len() ==> entries[i].0 != entries[j].0
}

/// The entries as a map.
pub open spec fn assoc_map(entries: Seq<Pair>) -> Map<Seq<char>, Seq<char>> {
    Map::new(
        |k: Seq<char>| assoc_index(entries, k) is Some,
        |k: Seq<char>| entries[assoc_index(entries, k)->0].1,
    )
}

/// What `assoc_index_from` returns: the least position at or after `from`
/// with the key, or `None` when no entry from there on has it.
pub proof fn lemma_assoc_index_from(entries: Seq<Pair>, key: Seq<char>, from: int)
    requires
        0 <= from,
    ensures
        match assoc_index_from(entries, key, from) {
            Some(i) => {
                &&& from <= i < entries.len()
                &&& entries[i].0 == key
                &&& forall|j: int| from <= j < i ==> entries[j].0 != key
            },
            None => forall|j: int| from <= j < entries.len() ==> entries[j].0 != key,
        },
    decreases entries.len() - from,
{
    if from < entries.len() && entries[from].0 != key {
        lemma_assoc_index_from(entries, key, from + 1);
    }
}

/// The position of an entry with the key, where none before it has the key,
/// is what `assoc_index_from` returns.
pub proof fn lemma_assoc_index_from_is(entries: Seq<Pair>, key: Seq<char>, from: int, i: int)
    requires
        0 <= from <= i < entries.len(),
        entries[i].0 == key,
        forall|j: int| from <= j < i ==> entries[j].0 != key,
    ensures
        assoc_index_from(entries, key, from) == Some(i),
    decreases i - from,
{
    if from < i {
        lemma_assoc_index_from_is(entries, key, from + 1, i);
    }
}

/// Where no entry from `from` on has the key, `assoc_index_from` is `None`.
pub proof fn lemma_assoc_index_from_none(entries: Seq<Pair>, key: Seq<char>, from: int)
    requires
        0 <= from,
        forall|j: int| from <= j < entries.len() ==> entries[j].0 != key,
    ensures
        assoc_index_from(entries, key, from) is None,
    decreases entries.len() - from,
{
    if from < entries.len() {
        lemma_assoc_index_from_none(entries, key, from + 1);
    }
}

/// Binding a key keeps keys distinct and changes the map at that key only.
pub proof fn lemma_assoc_insert(entries: Seq<Pair>, key: Seq<char>, value: Seq<char>)
    requires
        assoc_distinct(entries),
    ensures
        assoc_distinct(assoc_insert(entries, key, value)),
        assoc_map(assoc_insert(entries, key, value)) == assoc_map(entries).insert(key, value),
        assoc_get(assoc_insert(entries, key, value), key) == Some(value),
{
    let after = assoc_insert(entries, key, value);
    lemma_assoc_index_from(entries, key, 0);
    assert forall|k: Seq<char>| #[trigger] assoc_index(after, k) == (if k == key {
        match assoc_index(entries, key) {
            Some(i) => Some(i),
            None => Some(entries.len() as int),
        }
    } else {
        assoc_index(entries, k)
    }) by {
        lemma_assoc_index_from(entries, k, 0);
        match assoc_index(entries, k) {
            Some(i) => {
                lemma_assoc_index_from_is(after, k, 0, i);
            },
            None => {
                if k == key {
                    lemma_assoc_index_from_is(after, k, 0, entries.len() as int);
                } else {
                    lemma_assoc_index_from_none(after, k, 0);
                }
            },
        }
    }
    let m1 = assoc_map(after);
    let m2 = assoc_map(entries).insert(key, value);
    assert forall|k: Seq<char>| m1.dom().contains(k) == m2.dom().contains(k) by {
        let _ = assoc_index(after, k);
    }
    assert forall|k: Seq<char>| #[trigger] m1.dom().contains(k) implies m1[k] == m2[k] by {
        let _ = assoc_index(after, k);
        lemma_assoc_index_from(entries, k, 0);
    }
    assert(m1 =~= m2);
}

/// After a key is bound, every entry is the new one or one that was there.
pub proof fn lemma_assoc_insert_entry(
    entries: Seq<Pair>,
    key: Seq<char>,
    value: Seq<char>,
    i: int,
)
    requires
        0 <= i < assoc_insert(entries, key, value).len(),
    ensures
        assoc_insert(entries, key, value)[i] == (key, value) || (i < entries.len() && assoc_insert(
            entries,
            key,
            value,
        )[i] == entries[i]),
{
    lemma_assoc_index_from(entries, key, 0);
}

/// Removing a key keeps keys distinct and removes that key from the map.
pub proof fn lemma_assoc_remove(entries: Seq<Pair>, key: Seq<char>)
    requires
        assoc_distinct(entries),
    ensures
        assoc_distinct(assoc_remove(entries, key)),
        assoc_map(assoc_remove(entries, key)) == assoc_map(entries).remove(key),
{
    let after = assoc_remove(entries, key);
    lemma_assoc_index_from(entries, key, 0);
    assert forall|k: Seq<char>| #[trigger] assoc_index(after, k) == (if k == key {
        None
    } else {
        match (assoc_index(entries, k), assoc_index(entries, key)) {
            (Some(i), Some(r)) => if i < r { Some(i) } else { Some(i - 1) },
            (other, _) => other,
        }
    }) by {
        lemma_assoc_index_from(entries, k, 0);
        match assoc_index(entries, key) {
            Some(r) => {
                match assoc_index(entries, k) {
                    Some(i) => {
                        if k == key {
                            lemma_assoc_index_from_none(after, k, 0);
                        } else if i < r {
                            lemma_assoc_index_from_is(after, k, 0, i);
                        } else {
                            lemma_assoc_index_from_is(after, k, 0, i - 1);
                        }
                    },
                    None => {
                        lemma_assoc_index_from_none(after, k, 0);
                    },
                }
            },
            None => {},
        }
    }
    let m1 = assoc_map(after);
    let m2 = assoc_map(entries).remove(key);
    assert forall|k: Seq<char>| m1.dom().contains(k) == m2.dom().contains(k) by {
        let _ = assoc_index(after, k);
    }
    assert forall|k: Seq<char>| #[trigger] m1.dom().contains(k) implies m1[k] == m2[k] by {
        let _ = assoc_index(after, k);
        lemma_assoc_index_from(entries, k, 0);
    }
    assert(m1 =~= m2);
}

/// A map from strings to strings, in insertion order, without repeated keys.
#[derive(Debug)]
pub struct StringMap {
    items: Vec<(String, String)>,
}

impl View for StringMap {
    type V = Map<Seq<char>, Seq<char>>;

    open spec fn view(&self) -> Map<Seq<char>, Seq<char>> {
        assoc_map(self.entries())
    }
}

impl StringMap {
    #[verifier::type_invariant]
    spec fn keys_distinct(self) -> bool {
        assoc_distinct(self.entries())
    }

    /// The entries in the order in which their keys were first inserted.
    pub closed spec fn entries(self) -> Seq<Pair> {
        self.items@.map_values(|p: (String, String)| (p.0@, p.1@))
    }

    /// An empty map.
    pub fn new() -> (m: StringMap)
        ensures
            m.entries() == Seq::<Pair>::empty(),
            m@ == Map::<Seq<char>, Seq<char>>::empty(),
    {
        let m = StringMap { items: Vec::new() };
        assert(m.entries() =~= Seq::<Pair>::empty());
        assert(m@ =~= Map::<Seq<char>, Seq<char>>::empty());
        m
    }

    /// Number of entries. No key occurs twice among them.
    pub fn len(&self) -> (n: usize)
        ensures
            n == self.entries().len(),
            assoc_distinct(self.entries()),
    {
        proof {
            use_type_invariant(self);
        }
        self.items.len()
    }

    /// Whether the map has no entry.
    pub fn is_empty(&self) -> (r: bool)
        ensures
            r == (self.entries().len() == 0),
    {
        self.items.len() == 0
    }

    /// Key of the entry at position `i`.
    pub fn key_at(&self, i: usize) -> (k: &String)
        requires
            i < self.entries().len(),
        ensures
            k@ == self.entries()[i as int].0,
    {
        &self.items[i].0
    }

    /// Value of the entry at position `i`.
    pub fn value_at(&self, i: usize) -> (v: &String)
        requires
            i < self.entries().len(),
        ensures
            v@ == self.entries()[i as int].1,
    {
        &self.items[i].1
    }

    fn position(&self, key: &str) -> (r: Option<usize>)
        ensures
            r is Some <==> assoc_index(self.entries(), key@) is Some,
            r matches Some(i) ==> assoc_index(self.entries(), key@) == Some(i as int) && i
                < self.items@.len(),
    {
        let owned = key.to_owned();
        let mut i: usize = 0;
        while i < self.items.len()
            invariant
                i <= self.items.len(),
                owned@ == key@,
                assoc_index(self.entries(), key@) == assoc_index_from(
                    self.entries(),
                    key@,
                    i as int,
                ),
            decreases self.items.len() - i,
        {
            if self.items[i].0 == owned {
                return Some(i);
            }
            i = i + 1;
        }
        None
    }

    /// The value stored under `key`.
    pub fn get(&self, key: &str) -> (r: Option<&String>)
        ensures
            r is Some <==> self@.contains_key(key@),
            r matches Some(v) ==> v@ == self@[key@],
            r is Some <==> assoc_get(self.entries(), key@) is Some,
            r matches Some(v) ==> Some(v@) == assoc_get(self.entries(), key@),
    {
        match self.position(key) {
            Some(i) => Some(&self.items[i].1),
            None => None,
        }
    }

    /// Whether `key` has an entry.
    pub fn contains_key(&self, key: &str) -> (r: bool)
        ensures
            r == self@.contains_key(key@),
            r == (assoc_index(self.entries(), key@) is Some),
    {
        self.position(key).is_some()
    }

    /// Binds `key` to `value`. The last value written for a key wins.
    pub fn insert(&mut self, key: String, value: String)
        ensures
            final(self).entries() == assoc_insert(old(self).entries(), key@, value@),
            final(self)@ == old(self)@.insert(key@, value@),
    {
        proof {
            use_type_invariant(&*self);
            lemma_assoc_insert(self.entries(), key@, value@);
        }
        let found = self.position(key.as_str());
        let ghost before = self.entries();
        let mut items: Vec<(String, String)> = Vec::new();
        core::mem::swap(&mut self.items, &mut items);
        match found {
            Some(i) => {
                items[i] = (key, value);
            },
            None => {
                items.push((key, value));
            },
        }
        assert(items@.map_values(|p: (String, String)| (p.0@, p.1@)) =~= assoc_insert(
            before,
            key@,
            value@,
        ));
        core::mem::swap(&mut self.items, &mut items);
    }

    /// Removes the entry for `key`, if there is one.
    pub fn remove(&mut self, key: &str)
        ensures
            final(self).entries() == assoc_remove(old(self).entries(), key@),
            final(self)@ == old(self)@.remove(key@),
    {
        proof {
            use_type_invariant(&*self);
            lemma_assoc_remove(self.entries(), key@);
        }
        let found = self.position(key);
        let ghost before = self.entries();
        let mut items: Vec<(String, String)> = Vec::new();
        core::mem::swap(&mut self.items, &mut items);
        match found {
            Some(i) => {
                let _ = items.remove(i);
            },
            None => {},
        }
        assert(items@.map_values(|p: (String, String)| (p.0@, p.1@)) =~= assoc_remove(
            before,
            key@,
        ));
        core::mem::swap(&mut self.items, &mut items);
    }
}

} // verus!
