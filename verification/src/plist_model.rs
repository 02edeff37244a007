//! The types of property list values and the mathematical model of their contents.
use vstd::prelude::*;

verus! {

/// A point in time: whole seconds since the Unix epoch, and the nanoseconds past that second.
#[derive(Clone, Copy, PartialEq, Eq, Structural, Debug)]
pub struct Instant {
    pub seconds: i64,
    pub nanos: u32,
}

impl Instant {
    /// The signed number of nanoseconds since the Unix epoch.
    pub open spec fn at(self) -> int {
        self.seconds * 1_000_000_000 + self.nanos
    }

    /// A calendar date that date libraries can represent, with less than a second of nanoseconds.
    pub open spec fn valid(self) -> bool {
        self.nanos < 1_000_000_000 && -8_000_000_000_000 <= self.seconds <= 8_000_000_000_000
    }

    /// An instant in one of the years that are written with four digits.
    pub open spec fn in_calendar(self) -> bool {
        self.nanos < 1_000_000_000 && -62_167_219_200 <= self.seconds <= 253_402_300_799
    }

    /// Whether the instant is [in the calendar](Instant::in_calendar).
    pub fn is_in_calendar(&self) -> (r: bool)
        ensures
            r == self.in_calendar(),
    {
        self.nanos < 1_000_000_000 && -62_167_219_200 <= self.seconds && self.seconds
            <= 253_402_300_799
    }

    /// Whether this instant is `other` or a later one.
    pub fn not_before(&self, other: &Instant) -> (r: bool)
        ensures
            r == (self.at() >= other.at()),
    {
        let a: i128 = self.seconds as i128 * 1_000_000_000 + self.nanos as i128;
        let b: i128 = other.seconds as i128 * 1_000_000_000 + other.nanos as i128;
        a >= b
    }

    /// Whether the instant is [valid](Instant::valid).
    pub fn is_valid(&self) -> (r: bool)
        ensures
            r == self.valid(),
    {
        self.nanos < 1_000_000_000 && -8_000_000_000_000 <= self.seconds && self.seconds
            <= 8_000_000_000_000
    }
}

/// A property list value. A real number is held as its shortest decimal text.
#[derive(Debug)]
pub enum PlistValue {
    Array(Vec<PlistValue>),
    Dict(PlistDictionary),
    Boolean(bool),
    Data(Vec<u8>),
    Time(Instant),
    Real(String),
    Signed(i64),
    Unsigned(u64),
    Text(String),
    Uid(u64),
}

/// A property list dictionary: its entries in insertion order.
#[derive(Debug)]
pub struct PlistDictionary {
    pub entries: Vec<(String, PlistValue)>,
}

/// The content of a property list value.
#[verifier::ext_equal]
pub enum PlistModel {
    Array(Seq<PlistModel>),
    Dict(Seq<(Seq<char>, PlistModel)>),
    Boolean(bool),
    Data(Seq<u8>),
    Time(Instant),
    Real(Seq<char>),
    Integer(int),
    Text(Seq<char>),
    Uid(u64),
}

/// The content of a value.
pub open spec fn value_model(value: PlistValue) -> PlistModel
    decreases value,
{
    match value {
        PlistValue::Array(items) => PlistModel::Array(
            Seq::new(
                items@.len(),
                |i: int|
                    if 0 <= i < items@.len() {
                        value_model(items@[i])
                    } else {
                        PlistModel::Boolean(false)
                    },
            ),
        ),
        PlistValue::Dict(d) => PlistModel::Dict(
            Seq::new(
                d.entries@.len(),
                |i: int|
                    if 0 <= i < d.entries@.len() {
                        (d.entries@[i].0@, value_model(d.entries@[i].1))
                    } else {
                        (seq![], PlistModel::Boolean(false))
                    },
            ),
        ),
        PlistValue::Boolean(b) => PlistModel::Boolean(b),
        PlistValue::Data(d) => PlistModel::Data(d@),
        PlistValue::Time(d) => PlistModel::Time(d),
        PlistValue::Real(t) => PlistModel::Real(t@),
        PlistValue::Signed(n) => PlistModel::Integer(n as int),
        PlistValue::Unsigned(n) => PlistModel::Integer(n as int),
        PlistValue::Text(s) => PlistModel::Text(s@),
        PlistValue::Uid(n) => PlistModel::Uid(n),
    }
}

/// The contents of a list of values.
pub open spec fn list_model(items: Seq<PlistValue>) -> Seq<PlistModel> {
    items.map_values(|v: PlistValue| v@)
}

impl View for PlistValue {
    type V = PlistModel;

    open spec fn view(&self) -> PlistModel {
        value_model(*self)
    }
}

impl View for PlistDictionary {
    type V = Seq<(Seq<char>, PlistModel)>;

    open spec fn view(&self) -> Seq<(Seq<char>, PlistModel)> {
        Seq::new(
            self.entries@.len(),
            |i: int| (self.entries@[i].0@, value_model(self.entries@[i].1)),
        )
    }
}

/// The content of a dictionary value is that of the dictionary.
pub broadcast proof fn lemma_dictionary_model(d: PlistDictionary)
    ensures
        #[trigger] value_model(PlistValue::Dict(d)) == PlistModel::Dict(d@),
{
    assert(value_model(PlistValue::Dict(d))->Dict_0 =~= d@);
}

/// The content of an array is the contents of its items.
pub broadcast proof fn lemma_array_model(items: Vec<PlistValue>)
    ensures
        #[trigger] value_model(PlistValue::Array(items)) == PlistModel::Array(list_model(items@)),
{
    assert(value_model(PlistValue::Array(items))->Array_0 =~= list_model(items@));
}

pub broadcast group group_plist_models {
    lemma_dictionary_model,
    lemma_array_model,
}

} // verus!
