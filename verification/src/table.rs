//! Tables: entries in the order in which their keys first came.
use crate::text::same_text;
use vstd::prelude::*;

verus! {

/// A type whose values can be keys of a table.
pub trait TableKey: Sized {
    /// What two keys are compared by.
    type Model;

    spec fn model(&self) -> Self::Model;

    fn same_key(&self, other: &Self) -> (r: bool)
        ensures
            r == (self.model() == other.model()),
    ;
}

impl TableKey for String {
    type Model = Seq<char>;

    open spec fn model(&self) -> Seq<char> {
        self@
    }

    fn same_key(&self, other: &String) -> (r: bool) {
        same_text(self.as_str(), other.as_str())
    }
}

impl TableKey for (usize, String) {
    type Model = (usize, Seq<char>);

    open spec fn model(&self) -> (usize, Seq<char>) {
        (self.0, self.1@)
    }

    fn same_key(&self, other: &(usize, String)) -> (r: bool) {
        self.0 == other.0 && same_text(self.1.as_str(), other.1.as_str())
    }
}

impl TableKey for (String, String) {
    type Model = (Seq<char>, Seq<char>);

    open spec fn model(&self) -> (Seq<char>, Seq<char>) {
        (self.0@, self.1@)
    }

    fn same_key(&self, other: &(String, String)) -> (r: bool) {
        same_text(self.0.as_str(), other.0.as_str()) && same_text(
            self.1.as_str(),
            other.1.as_str(),
        )
    }
}

/// A table of values under keys.
#[derive(Debug, Clone)]
pub struct Table<K, V> {
    pub entries: Vec<(K, V)>,
}

impl<K: TableKey, V: View> View for Table<K, V> {
    type V = Seq<(K::Model, V::V)>;

    open spec fn view(&self) -> Seq<(K::Model, V::V)> {
        self.entries@.map_values(|e: (K, V)| (e.0.model(), e.1@))
    }
}

/// The index of the first entry at or after `from` whose key is `key`, or the number of entries.
pub open spec fn slot<K, V>(t: Seq<(K, V)>, key: K, from: int) -> int
    decreases t.len() - from,
{
    if from >= t.len() || t[from].0 == key {
        from
    } else {
        slot(t, key, from + 1)
    }
}

/// The value that a table holds under `key`.
pub open spec fn held<K, V>(t: Seq<(K, V)>, key: K) -> Option<V> {
    if slot(t, key, 0) < t.len() {
        Some(t[slot(t, key, 0)].1)
    } else {
        None
    }
}

/// `t` with `value` under `key`: in the place of the value held before, or at the end.
pub open spec fn stored<K, V>(t: Seq<(K, V)>, key: K, value: V) -> Seq<(K, V)> {
    let i = slot(t, key, 0);
    if i < t.len() {
        t.update(i, (key, value))
    } else {
        t.push((key, value))
    }
}

/// No key occurs twice.
pub open spec fn keys_distinct<K, V>(t: Seq<(K, V)>) -> bool {
    forall|i: int, j: int| 0 <= i < j < t.len() ==> (#[trigger] t[i]).0 != (#[trigger] t[j]).0
}

pub proof fn lemma_slot<K, V>(t: Seq<(K, V)>, key: K, from: int)
    requires
        0 <= from <= t.len(),
    ensures
        from <= slot(t, key, from) <= t.len(),
        slot(t, key, from) < t.len() ==> t[slot(t, key, from)].0 == key,
        forall|j: int| from <= j < slot(t, key, from) ==> (#[trigger] t[j]).0 != key,
    decreases t.len() - from,
{
    if from < t.len() && t[from].0 != key {
        lemma_slot(t, key, from + 1);
    }
}

pub proof fn lemma_slot_is<K, V>(t: Seq<(K, V)>, key: K, from: int, at: int)
    requires
        0 <= from <= at <= t.len(),
        forall|j: int| from <= j < at ==> (#[trigger] t[j]).0 != key,
        at < t.len() ==> t[at].0 == key,
    ensures
        slot(t, key, from) == at,
    decreases at - from,
{
    if from < at {
        lemma_slot_is(t, key, from + 1, at);
    }
}

/// Where no key occurs twice, the value of each entry is the one found under its key.
pub proof fn law_each_entry_is_found<K, V>(t: Seq<(K, V)>, i: int)
    requires
        keys_distinct(t),
        0 <= i < t.len(),
    ensures
        held(t, t[i].0) == Some(t[i].1),
{
    lemma_slot_is(t, t[i].0, 0, i);
}

/// A read gives back what was last stored under its key, and storing leaves other keys alone.
pub proof fn law_stored_then_held<K, V>(t: Seq<(K, V)>, key: K, value: V, other: K)
    ensures
        held(stored(t, key, value), key) == Some(value),
        other != key ==> held(stored(t, key, value), other) == held(t, other),
        keys_distinct(t) ==> keys_distinct(stored(t, key, value)),
{
    let w = stored(t, key, value);
    let i = slot(t, key, 0);
    lemma_slot(t, key, 0);
    lemma_slot_is(w, key, 0, i);
    if other != key {
        let j = slot(t, other, 0);
        lemma_slot(t, other, 0);
        if j < t.len() {
            lemma_slot_is(w, other, 0, j);
        } else {
            lemma_slot_is(w, other, 0, w.len() as int);
        }
    }
}

/// Storing twice under one key is storing the second value.
pub proof fn law_stored_twice<K, V>(t: Seq<(K, V)>, key: K, first: V, second: V)
    ensures
        stored(stored(t, key, first), key, second) == stored(t, key, second),
{
    let w = stored(t, key, first);
    let i = slot(t, key, 0);
    lemma_slot(t, key, 0);
    lemma_slot_is(w, key, 0, i);
    assert(stored(w, key, second) =~= stored(t, key, second));
}

/// Storing what is held already changes nothing, and storing anything else changes the table.
pub proof fn law_stored_again<K, V>(t: Seq<(K, V)>, key: K, value: V)
    ensures
        stored(t, key, value) == t <==> held(t, key) == Some(value),
{
    let i = slot(t, key, 0);
    lemma_slot(t, key, 0);
    if held(t, key) == Some(value) {
        assert(stored(t, key, value) =~= t);
    } else if i < t.len() {
        assert(stored(t, key, value)[i] == (key, value));
    } else {
        assert(stored(t, key, value).len() == t.len() + 1);
    }
}

impl<K: TableKey, V: View> Table<K, V> {
    pub fn new() -> (r: Table<K, V>)
        ensures
            r@ == Seq::<(K::Model, V::V)>::empty(),
            r.entries@.len() == 0,
    {
        let r: Table<K, V> = Table { entries: Vec::new() };
        proof {
            assert(r@ =~= Seq::<(K::Model, V::V)>::empty());
        }
        r
    }

    /// The index of the entry under `key`, or the number of entries.
    pub fn index_of(&self, key: &K) -> (r: usize)
        ensures
            r == slot(self@, key.model(), 0),
            r <= self.entries@.len(),
            r < self.entries@.len() ==> self.entries@[r as int].0.model() == key.model(),
    {
        let mut i: usize = 0;
        while i < self.entries.len()
            invariant
                i <= self.entries@.len(),
                forall|j: int| 0 <= j < i ==> (#[trigger] self@[j]).0 != key.model(),
            decreases self.entries@.len() - i,
        {
            if self.entries[i].0.same_key(key) {
                proof {
                    lemma_slot_is(self@, key.model(), 0, i as int);
                }
                return i;
            }
            i += 1;
        }
        proof {
            lemma_slot_is(self@, key.model(), 0, i as int);
        }
        i
    }

    /// The value under `key`.
    pub fn find(&self, key: &K) -> (r: Option<&V>)
        ensures
            match r {
                Some(v) => held(self@, key.model()) == Some(v@),
                None => held(self@, key.model()) is None,
            },
    {
        let i: usize = self.index_of(key);
        if i < self.entries.len() {
            Some(&self.entries[i].1)
        } else {
            None
        }
    }

    /// Stores `value` under `key`.
    pub fn insert(&mut self, key: K, value: V)
        ensures
            final(self)@ == stored(old(self)@, key.model(), value@),
    {
        let i: usize = self.index_of(&key);
        let ghost before = self@;
        if i < self.entries.len() {
            let _ = self.entries.remove(i);
            self.entries.insert(i, (key, value));
            proof {
                assert(self@ =~= stored(before, key.model(), value@));
            }
        } else {
            let ghost model = key.model();
            self.entries.push((key, value));
            proof {
                assert(self@ =~= before.push((model, value@)));
            }
        }
    }
}

impl<V: View> Table<String, V> {
    /// The value under a text.
    pub fn get(&self, key: &str) -> (r: Option<&V>)
        ensures
            match r {
                Some(v) => held(self@, key@) == Some(v@),
                None => held(self@, key@) is None,
            },
    {
        self.find(&key.to_string())
    }
}

} // verus!
