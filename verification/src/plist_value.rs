//! Operations on property list values.
pub use crate::plist_model::{Instant, PlistDictionary, PlistModel, PlistValue};
use crate::plist_model::{group_plist_models, list_model};
use crate::text::same_text;
use vstd::prelude::*;

verus! {

broadcast use group_plist_models;

// ---------------------------------------------------------------------------
// Dictionaries
// ---------------------------------------------------------------------------

/// The index of the first entry at or after `from` whose key is `key`, or the number of entries.
pub open spec fn key_index(d: Seq<(Seq<char>, PlistModel)>, key: Seq<char>, from: int) -> int
    decreases d.len() - from,
{
    if from >= d.len() || d[from].0 == key {
        from
    } else {
        key_index(d, key, from + 1)
    }
}

/// The value that `d` holds under `key`.
pub open spec fn lookup(d: Seq<(Seq<char>, PlistModel)>, key: Seq<char>) -> Option<PlistModel> {
    let i = key_index(d, key, 0);
    if i < d.len() {
        Some(d[i].1)
    } else {
        None
    }
}

/// `d` with `value` under `key`: in the place of the value held before, or at the end.
pub open spec fn with_entry(
    d: Seq<(Seq<char>, PlistModel)>,
    key: Seq<char>,
    value: PlistModel,
) -> Seq<(Seq<char>, PlistModel)> {
    let i = key_index(d, key, 0);
    if i < d.len() {
        d.update(i, (d[i].0, value))
    } else {
        d.push((key, value))
    }
}

/// No key occurs twice.
pub open spec fn distinct_keys(d: Seq<(Seq<char>, PlistModel)>) -> bool {
    forall|i: int, j: int| 0 <= i < j < d.len() ==> d[i].0 != d[j].0
}

pub proof fn lemma_key_index(d: Seq<(Seq<char>, PlistModel)>, key: Seq<char>, from: int)
    requires
        0 <= from <= d.len(),
    ensures
        from <= key_index(d, key, from) <= d.len(),
        key_index(d, key, from) < d.len() ==> d[key_index(d, key, from)].0 == key,
        forall|j: int| from <= j < key_index(d, key, from) ==> d[j].0 != key,
    decreases d.len() - from,
{
    if from < d.len() && d[from].0 != key {
        lemma_key_index(d, key, from + 1);
    }
}

proof fn lemma_key_index_is(d: Seq<(Seq<char>, PlistModel)>, key: Seq<char>, from: int, at: int)
    requires
        0 <= from <= at <= d.len(),
        forall|j: int| from <= j < at ==> d[j].0 != key,
        at < d.len() ==> d[at].0 == key,
    ensures
        key_index(d, key, from) == at,
    decreases at - from,
{
    if from < at {
        lemma_key_index_is(d, key, from + 1, at);
    }
}

/// Where no key occurs twice, the value of each entry is the one found under its key.
pub proof fn lemma_lookup_at(d: Seq<(Seq<char>, PlistModel)>, i: int)
    requires
        distinct_keys(d),
        0 <= i < d.len(),
    ensures
        lookup(d, d[i].0) == Some(d[i].1),
{
    lemma_key_index_is(d, d[i].0, 0, i);
}

/// A read gives back what was last written under its key, and a write leaves other keys alone.
pub proof fn law_write_then_read(
    d: Seq<(Seq<char>, PlistModel)>,
    key: Seq<char>,
    value: PlistModel,
    other: Seq<char>,
)
    ensures
        lookup(with_entry(d, key, value), key) == Some(value),
        other != key ==> lookup(with_entry(d, key, value), other) == lookup(d, other),
        distinct_keys(d) ==> distinct_keys(with_entry(d, key, value)),
{
    let w = with_entry(d, key, value);
    let i = key_index(d, key, 0);
    lemma_key_index(d, key, 0);
    lemma_key_index_is(w, key, 0, i);
    if other != key {
        let j = key_index(d, other, 0);
        lemma_key_index(d, other, 0);
        if j < d.len() {
            lemma_key_index_is(w, other, 0, j);
        } else {
            lemma_key_index_is(w, other, 0, w.len() as int);
        }
    }
}

impl PlistDictionary {
    pub fn new() -> (r: PlistDictionary)
        ensures
            r@ == Seq::<(Seq<char>, PlistModel)>::empty(),
    {
        let r: PlistDictionary = PlistDictionary { entries: Vec::new() };
        proof {
            assert(r@ =~= Seq::<(Seq<char>, PlistModel)>::empty());
        }
        r
    }

    fn index_of(&self, key: &str) -> (r: usize)
        ensures
            r == key_index(self@, key@, 0),
            r <= self.entries@.len(),
    {
        let mut i: usize = 0;
        while i < self.entries.len()
            invariant
                i <= self.entries@.len(),
                forall|j: int| 0 <= j < i ==> self@[j].0 != key@,
            decreases self.entries@.len() - i,
        {
            if same_text(self.entries[i].0.as_str(), key) {
                proof {
                    lemma_key_index_is(self@, key@, 0, i as int);
                }
                return i;
            }
            i += 1;
        }
        proof {
            lemma_key_index_is(self@, key@, 0, i as int);
        }
        i
    }

    /// The value under `key`.
    pub fn get(&self, key: &str) -> (r: Option<&PlistValue>)
        ensures
            match r {
                Some(v) => lookup(self@, key@) == Some(v@),
                None => lookup(self@, key@) is None,
            },
    {
        let i: usize = self.index_of(key);
        if i < self.entries.len() {
            Some(&self.entries[i].1)
        } else {
            None
        }
    }

    /// Puts `value` under `key`.
    pub fn insert(&mut self, key: String, value: PlistValue)
        ensures
            final(self)@ == with_entry(old(self)@, key@, value@),
    {
        let i: usize = self.index_of(key.as_str());
        let ghost before = self@;
        if i < self.entries.len() {
            let (k, _): (String, PlistValue) = self.entries.remove(i);
            self.entries.insert(i, (k, value));
            proof {
                assert(self@ =~= with_entry(before, key@, value@));
            }
        } else {
            let ghost k = key@;
            self.entries.push((key, value));
            proof {
                assert(self@ =~= before.push((k, value@)));
            }
        }
    }

    /// Takes the entry under `key` out, if there is one; the order of the others stays.
    pub fn remove(&mut self, key: &str)
        ensures
            final(self)@ == without_entry(old(self)@, key@),
    {
        let i: usize = self.index_of(key);
        let ghost before = self@;
        if i < self.entries.len() {
            let _ = self.entries.remove(i);
            proof {
                assert(self@ =~= before.remove(i as int));
            }
        }
    }

    /// A copy with the same content.
    pub fn duplicate(&self) -> (r: PlistDictionary)
        ensures
            r@ == self@,
        decreases self,
    {
        let mut entries: Vec<(String, PlistValue)> = Vec::new();
        let mut i: usize = 0;
        while i < self.entries.len()
            invariant
                i <= self.entries@.len(),
                entries@.len() == i,
                forall|j: int|
                    0 <= j < i ==> (#[trigger] entries@[j]).0@ == self.entries@[j].0@
                        && entries@[j].1@ == self.entries@[j].1@,
            decreases self.entries@.len() - i,
        {
            proof {
                assert(decreases_to!(self => self.entries@[i as int].1));
            }
            entries.push((self.entries[i].0.clone(), self.entries[i].1.duplicate()));
            i += 1;
        }
        let r: PlistDictionary = PlistDictionary { entries };
        proof {
            assert(r@ =~= self@);
        }
        r
    }
}

/// `d` without its entry under `key`.
pub open spec fn without_entry(d: Seq<(Seq<char>, PlistModel)>, key: Seq<char>) -> Seq<
    (Seq<char>, PlistModel),
> {
    let i = key_index(d, key, 0);
    if i < d.len() {
        d.remove(i)
    } else {
        d
    }
}

// ---------------------------------------------------------------------------
// Values
// ---------------------------------------------------------------------------

impl PlistModel {
    pub open spec fn text(self) -> Option<Seq<char>> {
        match self {
            PlistModel::Text(s) => Some(s),
            _ => None,
        }
    }

    pub open spec fn entries(self) -> Option<Seq<(Seq<char>, PlistModel)>> {
        match self {
            PlistModel::Dict(d) => Some(d),
            _ => None,
        }
    }

    pub open spec fn data(self) -> Option<Seq<u8>> {
        match self {
            PlistModel::Data(d) => Some(d),
            _ => None,
        }
    }

    pub open spec fn date(self) -> Option<Instant> {
        match self {
            PlistModel::Time(d) => Some(d),
            _ => None,
        }
    }

    pub open spec fn items(self) -> Option<Seq<PlistModel>> {
        match self {
            PlistModel::Array(a) => Some(a),
            _ => None,
        }
    }

    pub open spec fn boolean(self) -> Option<bool> {
        match self {
            PlistModel::Boolean(b) => Some(b),
            _ => None,
        }
    }

    /// The value under `key`, where this is a dictionary that has one.
    pub open spec fn field(self, key: Seq<char>) -> Option<PlistModel> {
        match self {
            PlistModel::Dict(d) => lookup(d, key),
            _ => None,
        }
    }
}

/// The text that `d` holds under `key`; none where the value is of another kind.
pub open spec fn text_entry(d: Seq<(Seq<char>, PlistModel)>, key: Seq<char>) -> Option<Seq<char>> {
    match lookup(d, key) {
        Some(v) => v.text(),
        None => None,
    }
}

/// The bytes that `d` holds under `key`; none where the value is of another kind.
pub open spec fn data_entry(d: Seq<(Seq<char>, PlistModel)>, key: Seq<char>) -> Option<Seq<u8>> {
    match lookup(d, key) {
        Some(v) => v.data(),
        None => None,
    }
}

/// Copies with the same contents, in the same order.
pub fn duplicate_all(items: &Vec<PlistValue>) -> (r: Vec<PlistValue>)
    ensures
        r@.len() == items@.len(),
        forall|j: int| 0 <= j < items@.len() ==> (#[trigger] r@[j])@ == items@[j]@,
    decreases items,
{
    let mut copies: Vec<PlistValue> = Vec::new();
    let mut i: usize = 0;
    while i < items.len()
        invariant
            i <= items@.len(),
            copies@.len() == i,
            forall|j: int| 0 <= j < i ==> (#[trigger] copies@[j])@ == items@[j]@,
        decreases items@.len() - i,
    {
        copies.push(items[i].duplicate());
        i += 1;
    }
    copies
}

impl PlistValue {
    pub fn as_text(&self) -> (r: Option<&String>)
        ensures
            match r {
                Some(s) => self@.text() == Some(s@),
                None => self@.text() is None,
            },
    {
        match self {
            PlistValue::Text(s) => Some(s),
            _ => None,
        }
    }

    pub fn as_dictionary(&self) -> (r: Option<&PlistDictionary>)
        ensures
            match r {
                Some(d) => self@.entries() == Some(d@),
                None => self@.entries() is None,
            },
    {
        match self {
            PlistValue::Dict(d) => Some(d),
            _ => None,
        }
    }

    pub fn as_data(&self) -> (r: Option<&Vec<u8>>)
        ensures
            match r {
                Some(d) => self@.data() == Some(d@),
                None => self@.data() is None,
            },
    {
        match self {
            PlistValue::Data(d) => Some(d),
            _ => None,
        }
    }

    pub fn as_boolean(&self) -> (r: Option<bool>)
        ensures
            r == self@.boolean(),
    {
        match self {
            PlistValue::Boolean(b) => Some(*b),
            _ => None,
        }
    }

    /// The number, where this is one that fits `u64`.
    pub fn as_unsigned(&self) -> (r: Option<u64>)
        ensures
            match r {
                Some(n) => self@ == PlistModel::Integer(n as int),
                None => !(self@ matches PlistModel::Integer(n) && 0 <= n <= u64::MAX),
            },
    {
        match self {
            PlistValue::Signed(n) => if *n >= 0 {
                Some(*n as u64)
            } else {
                None
            },
            PlistValue::Unsigned(n) => Some(*n),
            _ => None,
        }
    }

    pub fn as_date(&self) -> (r: Option<Instant>)
        ensures
            r == self@.date(),
    {
        match self {
            PlistValue::Time(d) => Some(*d),
            _ => None,
        }
    }

    pub fn as_array(&self) -> (r: Option<&Vec<PlistValue>>)
        ensures
            match r {
                Some(items) => self@.items() == Some(list_model(items@)),
                None => self@.items() is None,
            },
    {
        match self {
            PlistValue::Array(items) => Some(items),
            _ => None,
        }
    }

    /// The value under `key`, where this is a dictionary that has one.
    pub fn field(&self, key: &str) -> (r: Option<&PlistValue>)
        ensures
            match r {
                Some(v) => self@.field(key@) == Some(v@),
                None => self@.field(key@) is None,
            },
    {
        match self {
            PlistValue::Dict(d) => d.get(key),
            _ => None,
        }
    }

    /// A copy with the same content.
    pub fn duplicate(&self) -> (r: PlistValue)
        ensures
            r@ == self@,
        decreases self,
    {
        match self {
            PlistValue::Array(items) => {
                let copies: Vec<PlistValue> = duplicate_all(items);
                proof {
                    assert(list_model(copies@) =~= list_model(items@));
                }
                PlistValue::Array(copies)
            },
            PlistValue::Dict(d) => PlistValue::Dict(d.duplicate()),
            PlistValue::Boolean(b) => PlistValue::Boolean(*b),
            PlistValue::Data(d) => PlistValue::Data(d.clone()),
            PlistValue::Time(d) => PlistValue::Time(*d),
            PlistValue::Real(t) => PlistValue::Real(t.clone()),
            PlistValue::Signed(n) => PlistValue::Signed(*n),
            PlistValue::Unsigned(n) => PlistValue::Unsigned(*n),
            PlistValue::Text(s) => PlistValue::Text(s.clone()),
            PlistValue::Uid(n) => PlistValue::Uid(*n),
        }
    }
}

// ---------------------------------------------------------------------------
// What can be written
// ---------------------------------------------------------------------------

/// Every date in a value can be written.
pub open spec fn writable(value: PlistModel) -> bool
    decreases value,
{
    match value {
        PlistModel::Array(items) => forall|i: int|
            0 <= i < items.len() ==> writable(#[trigger] items[i]),
        PlistModel::Dict(d) => forall|i: int| 0 <= i < d.len() ==> writable((#[trigger] d[i]).1),
        PlistModel::Time(t) => t.in_calendar(),
        _ => true,
    }
}

/// A printing character or a space.
pub open spec fn printing(c: char) -> bool {
    (' ' <= c && c <= '~') || c as u32 >= 0xa0
}

/// A text of printing characters.
pub open spec fn printable(s: Seq<char>) -> bool {
    forall|i: int| 0 <= i < s.len() ==> printing(#[trigger] s[i])
}

/// A dictionary of printable texts, bytes and dates, each under a printable key of its own.
pub open spec fn flat(d: Seq<(Seq<char>, PlistModel)>) -> bool {
    &&& distinct_keys(d)
    &&& forall|i: int|
        0 <= i < d.len() ==> printable((#[trigger] d[i]).0) && match d[i].1 {
            PlistModel::Text(s) => printable(s),
            PlistModel::Data(_) => true,
            PlistModel::Time(t) => t.in_calendar(),
            _ => false,
        }
}

impl PlistValue {
    /// Whether every date in the value can be written.
    pub fn is_writable(&self) -> (r: bool)
        ensures
            r == writable(self@),
        decreases self,
    {
        match self {
            PlistValue::Array(items) => all_writable(items),
            PlistValue::Dict(d) => d.is_writable(),
            PlistValue::Time(t) => t.is_in_calendar(),
            _ => true,
        }
    }
}

fn all_writable(items: &Vec<PlistValue>) -> (r: bool)
    ensures
        r == writable(PlistModel::Array(list_model(items@))),
    decreases items,
{
    let ghost model = PlistModel::Array(list_model(items@));
    proof {
        assert(model->Array_0 == list_model(items@));
    }
    let mut i: usize = 0;
    while i < items.len()
        invariant
            i <= items@.len(),
            model == PlistModel::Array(list_model(items@)),
            model->Array_0 == list_model(items@),
            forall|j: int| 0 <= j < i ==> writable(#[trigger] model->Array_0[j]),
        decreases items@.len() - i,
    {
        proof {
            assert(model->Array_0[i as int] == items@[i as int]@);
        }
        if !items[i].is_writable() {
            proof {
                assert(!writable(model->Array_0[i as int]));
            }
            return false;
        }
        i += 1;
    }
    true
}

impl PlistDictionary {
    /// Whether every date in the dictionary can be written.
    pub fn is_writable(&self) -> (r: bool)
        ensures
            r == writable(PlistModel::Dict(self@)),
        decreases self,
    {
        let ghost model = PlistModel::Dict(self@);
        proof {
            assert(model->Dict_0 == self@);
        }
        let mut i: usize = 0;
        while i < self.entries.len()
            invariant
                i <= self.entries@.len(),
                model == PlistModel::Dict(self@),
                model->Dict_0 == self@,
                forall|j: int| 0 <= j < i ==> writable((#[trigger] model->Dict_0[j]).1),
            decreases self.entries@.len() - i,
        {
            proof {
                assert(model->Dict_0[i as int].1 == self.entries@[i as int].1@);
                assert(decreases_to!(self => self.entries@[i as int].1));
            }
            if !self.entries[i].1.is_writable() {
                proof {
                    assert(!writable(model->Dict_0[i as int].1));
                }
                return false;
            }
            i += 1;
        }
        proof {
            assert(writable(model));
        }
        true
    }
}

/// A value is found under a key exactly where the dictionary holds the key, and it is one that it
/// holds there.
pub proof fn law_values_are_found(d: Seq<(Seq<char>, PlistModel)>, key: Seq<char>)
    ensures
        lookup(d, key) is Some <==> exists|i: int| 0 <= i < d.len() && (#[trigger] d[i]).0 == key,
        lookup(d, key) matches Some(v) ==> exists|i: int|
            0 <= i < d.len() && #[trigger] d[i] == (key, v),
{
    lemma_key_index(d, key, 0);
    let i = key_index(d, key, 0);
    if i < d.len() {
        assert(d[i] == (key, d[i].1));
    }
}

/// A key that was removed is gone, and every other is as it was.
pub proof fn law_removed_key_is_gone(
    d: Seq<(Seq<char>, PlistModel)>,
    key: Seq<char>,
    other: Seq<char>,
)
    requires
        distinct_keys(d),
    ensures
        lookup(without_entry(d, key), key) is None,
        other != key ==> lookup(without_entry(d, key), other) == lookup(d, other),
{
    let rest = without_entry(d, key);
    let i = key_index(d, key, 0);
    lemma_key_index(d, key, 0);
    lemma_key_index(rest, key, 0);
    let q = key_index(rest, key, 0);
    if i < d.len() && q < rest.len() {
        if q < i {
            assert(rest[q] == d[q]);
        } else {
            assert(rest[q] == d[q + 1]);
            assert(d[i].0 == d[q + 1].0);
        }
    }
    if other != key {
        lemma_key_index(d, other, 0);
        lemma_key_index(rest, other, 0);
        let a = key_index(d, other, 0);
        let b = key_index(rest, other, 0);
        if i < d.len() {
            if a < d.len() {
                let c = if a < i {
                    a
                } else {
                    a - 1
                };
                assert(rest[c] == d[a]);
                assert(b <= c);
                let e = if b < i {
                    b
                } else {
                    b + 1
                };
                assert(rest[b] == d[e]);
                assert(a == e);
            } else if b < rest.len() {
                let e = if b < i {
                    b
                } else {
                    b + 1
                };
                assert(rest[b] == d[e]);
            }
        }
    }
}

/// Instants go by their seconds, and by their nanoseconds within one.
pub proof fn law_instants_are_ordered(a: Instant, b: Instant)
    requires
        a.nanos < 1_000_000_000,
        b.nanos < 1_000_000_000,
    ensures
        a.at() < b.at() <==> a.seconds < b.seconds || (a.seconds == b.seconds && a.nanos < b.nanos),
        a.at() == b.at() <==> a == b,
{
}

/// A value is read as what it is, and as nothing else.
pub proof fn law_values_are_read_as_they_are(v: PlistModel)
    ensures
        v.boolean() matches Some(b) ==> v == PlistModel::Boolean(b),
        v.boolean() is None ==> !(v is Boolean),
        v.date() matches Some(d) ==> v == PlistModel::Time(d),
        v.date() is None ==> !(v is Time),
        v.text() matches Some(s) ==> v == PlistModel::Text(s),
        v.text() is None ==> !(v is Text),
        v.data() matches Some(d) ==> v == PlistModel::Data(d),
        v.data() is None ==> !(v is Data),
{
}

} // verus!
