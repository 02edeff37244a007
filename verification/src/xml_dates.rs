//! The dates in a property list in XML.
//!
//! The reader takes a date that leaves the years it supports for a fault in the program, not in the
//! data. This module finds the dates that the reader comes to, and looks at each.
use vstd::prelude::*;

verus! {

// ---------------------------------------------------------------------------
// Bytes
// ---------------------------------------------------------------------------

/// The index of the first byte at or after `from` that is one of `stops`, or the length.
pub open spec fn next_of(data: Seq<u8>, from: int, stops: Seq<u8>) -> int
    decreases data.len() - from,
{
    if from >= data.len() || stops.contains(data[from]) {
        from
    } else {
        next_of(data, from + 1, stops)
    }
}

/// The bytes at `at` begin with `word`.
pub open spec fn has_word(data: Seq<u8>, at: int, word: Seq<u8>) -> bool {
    at + word.len() <= data.len() && data.subrange(at, at + word.len()) == word
}

fn holds(v: &Vec<u8>, b: u8) -> (r: bool)
    ensures
        r == v@.contains(b),
{
    let mut i: usize = 0;
    while i < v.len()
        invariant
            i <= v@.len(),
            forall|j: int| 0 <= j < i ==> #[trigger] v@[j] != b,
        decreases v@.len() - i,
    {
        if v[i] == b {
            return true;
        }
        i += 1;
    }
    false
}

fn find_next_of(data: &[u8], from: usize, stops: &Vec<u8>) -> (r: usize)
    requires
        from <= data@.len(),
    ensures
        r == next_of(data@, from as int, stops@),
        from <= r <= data@.len(),
{
    let n: usize = data.len();
    let mut i: usize = from;
    while i < n && !holds(stops, data[i])
        invariant
            from <= i <= n == data@.len(),
            next_of(data@, from as int, stops@) == next_of(data@, i as int, stops@),
        decreases n - i,
    {
        i += 1;
    }
    i
}

fn starts_with_word(data: &[u8], at: usize, word: &Vec<u8>) -> (r: bool)
    requires
        at <= data@.len(),
    ensures
        r == has_word(data@, at as int, word@),
{
    let n: usize = data.len();
    if n - at < word.len() {
        return false;
    }
    let ghost part = data@.subrange(at as int, at + word@.len());
    let mut i: usize = 0;
    while i < word.len()
        invariant
            at + word@.len() <= n == data@.len(),
            part == data@.subrange(at as int, at + word@.len()),
            i <= word@.len(),
            forall|j: int| 0 <= j < i ==> #[trigger] word@[j] == part[j],
        decreases word@.len() - i,
    {
        if data[at + i] != word[i] {
            proof {
                assert(part[i as int] == data@[at + i]);
            }
            return false;
        }
        i += 1;
    }
    proof {
        assert(part =~= word@);
    }
    true
}

// ---------------------------------------------------------------------------
// Markup
// ---------------------------------------------------------------------------

/// The end of a tag: behind the first closing bracket at or after `from` that stands outside quotes.
/// `quote` is the quote that is open, or zero.
pub open spec fn tag_end(data: Seq<u8>, from: int, quote: u8) -> Option<int>
    decreases data.len() - from,
{
    if from >= data.len() {
        None
    } else if quote != 0 {
        tag_end(
            data,
            from + 1,
            if data[from] == quote {
                0
            } else {
                quote
            },
        )
    } else if data[from] == 0x3e {
        Some(from + 1)
    } else if data[from] == 0x22 || data[from] == 0x27 {
        tag_end(data, from + 1, data[from])
    } else {
        tag_end(data, from + 1, 0)
    }
}

/// A closing bracket at `j` with `n` times the byte `mark` before it.
pub open spec fn closes(data: Seq<u8>, j: int, mark: u8, n: int) -> bool {
    data[j] == 0x3e && (n >= 1 ==> data[j - 1] == mark) && (n >= 2 ==> data[j - 2] == mark)
}

/// The end of what a marked bracket closes: behind the first one at or after `from`.
pub open spec fn closing(data: Seq<u8>, from: int, mark: u8, n: int) -> Option<int>
    decreases data.len() - from,
{
    if from >= data.len() {
        None
    } else if closes(data, from, mark, n) {
        Some(from + 1)
    } else {
        closing(data, from + 1, mark, n)
    }
}

/// `!ENTITY`
pub open spec fn entity_word() -> Seq<u8> {
    seq![0x21u8, 0x45, 0x4e, 0x54, 0x49, 0x54, 0x59]
}

/// `!ATTLIST`
pub open spec fn attlist_word() -> Seq<u8> {
    seq![0x21u8, 0x41, 0x54, 0x54, 0x4c, 0x49, 0x53, 0x54]
}

/// `!NOTATION`
pub open spec fn notation_word() -> Seq<u8> {
    seq![0x21u8, 0x4e, 0x4f, 0x54, 0x41, 0x54, 0x49, 0x4f, 0x4e]
}

/// `!--`
pub open spec fn comment_word() -> Seq<u8> {
    seq![0x21u8, 0x2d, 0x2d]
}

/// The end of the declaration at `at` inside a document type: of an instruction, of a comment, of a
/// declaration with quotes, or of any other.
pub open spec fn declaration_end(data: Seq<u8>, at: int) -> Option<int> {
    if at + 1 < data.len() && data[at + 1] == 0x3f {
        closing(data, at + 3, 0x3f, 1)
    } else if has_word(data, at + 1, comment_word()) {
        closing(data, at + 6, 0x2d, 2)
    } else if has_word(data, at + 1, entity_word()) || has_word(data, at + 1, attlist_word())
        || has_word(data, at + 1, notation_word()) {
        tag_end(data, at + 1, 0)
    } else {
        closing(data, at + 1, 0, 0)
    }
}

/// The end of a document type whose declarations go on at `from`.
pub open spec fn subset_end(data: Seq<u8>, from: int) -> Option<int>
    decreases data.len() - from,
{
    if from >= data.len() {
        None
    } else if data[from] == 0x5d {
        closing(data, from + 1, 0, 0)
    } else if data[from] == 0x3c {
        match declaration_end(data, from) {
            Some(end) if from < end <= data.len() => subset_end(data, end),
            _ => None,
        }
    } else {
        subset_end(data, from + 1)
    }
}

/// The end of a document type that goes on at `from`. `quote` is the quote that is open, or zero.
pub open spec fn doctype_end(data: Seq<u8>, from: int, quote: u8) -> Option<int>
    decreases data.len() - from,
{
    if from >= data.len() {
        None
    } else if quote != 0 {
        doctype_end(
            data,
            from + 1,
            if data[from] == quote {
                0
            } else {
                quote
            },
        )
    } else if data[from] == 0x3e {
        Some(from + 1)
    } else if data[from] == 0x5b {
        subset_end(data, from + 1)
    } else if data[from] == 0x22 || data[from] == 0x27 {
        doctype_end(data, from + 1, data[from])
    } else {
        doctype_end(data, from + 1, 0)
    }
}

/// The end of the markup whose opening bracket stands at `at`: a tag, a comment, a section of plain
/// text, a document type or an instruction. None where it does not end.
pub open spec fn markup_end(data: Seq<u8>, at: int) -> Option<int> {
    if at + 1 >= data.len() {
        None
    } else if data[at + 1] == 0x21 {
        if at + 2 >= data.len() {
            None
        } else if data[at + 2] == 0x5b {
            closing(data, at + 5, 0x5d, 2)
        } else if data[at + 2] == 0x2d {
            closing(data, at + 6, 0x2d, 2)
        } else if data[at + 2] == 0x44 || data[at + 2] == 0x64 {
            doctype_end(data, at + 2, 0)
        } else {
            None
        }
    } else if data[at + 1] == 0x3f {
        closing(data, at + 2, 0x3f, 1)
    } else {
        tag_end(data, at + 1, 0)
    }
}

fn find_tag_end(data: &[u8], from: usize) -> (r: Option<usize>)
    requires
        from <= data@.len(),
    ensures
        tag_end(data@, from as int, 0) == as_index(r),
        r matches Some(e) ==> from < e <= data@.len(),
{
    let n: usize = data.len();
    let mut quote: u8 = 0;
    let mut i: usize = from;
    while i < n
        invariant
            from <= i <= n == data@.len(),
            tag_end(data@, from as int, 0) == tag_end(data@, i as int, quote),
        decreases n - i,
    {
        let b: u8 = data[i];
        if quote != 0 {
            if b == quote {
                quote = 0;
            }
        } else if b == 0x3e {
            return Some(i + 1);
        } else if b == 0x22 || b == 0x27 {
            quote = b;
        }
        i += 1;
    }
    None
}

/// An index as a number.
pub open spec fn as_index(i: Option<usize>) -> Option<int> {
    match i {
        Some(i) => Some(i as int),
        None => None,
    }
}

fn find_closing(data: &[u8], at: usize, skip: usize, mark: u8, n: usize) -> (r: Option<usize>)
    requires
        at <= data@.len(),
        n <= skip,
        n <= 2,
    ensures
        closing(data@, at + skip, mark, n as int) == as_index(r),
        r matches Some(e) ==> at + skip < e <= data@.len(),
{
    let total: usize = data.len();
    if total - at <= skip {
        return None;
    }
    let mut i: usize = at + skip;
    while i < total
        invariant
            n <= skip,
            n <= 2,
            at + skip <= i <= total == data@.len(),
            closing(data@, at + skip, mark, n as int) == closing(
                data@,
                i as int,
                mark,
                n as int,
            ),
        decreases total - i,
    {
        if data[i] == 0x3e && (n < 1 || data[i - 1] == mark) && (n < 2 || data[i - 2] == mark) {
            return Some(i + 1);
        }
        i += 1;
    }
    None
}

fn find_declaration_end(data: &[u8], at: usize) -> (r: Option<usize>)
    requires
        at < data@.len(),
    ensures
        declaration_end(data@, at as int) == as_index(r),
        r matches Some(e) ==> at < e <= data@.len(),
{
    let n: usize = data.len();
    if n - at > 1 && data[at + 1] == 0x3f {
        return find_closing(data, at, 3, 0x3f, 1);
    }
    let comment: Vec<u8> = vec![0x21u8, 0x2d, 0x2d];
    let entity: Vec<u8> = vec![0x21u8, 0x45, 0x4e, 0x54, 0x49, 0x54, 0x59];
    let attlist: Vec<u8> = vec![0x21u8, 0x41, 0x54, 0x54, 0x4c, 0x49, 0x53, 0x54];
    let notation: Vec<u8> = vec![0x21u8, 0x4e, 0x4f, 0x54, 0x41, 0x54, 0x49, 0x4f, 0x4e];
    proof {
        assert(comment@ =~= comment_word());
        assert(entity@ =~= entity_word());
        assert(attlist@ =~= attlist_word());
        assert(notation@ =~= notation_word());
    }
    if starts_with_word(data, at + 1, &comment) {
        find_closing(data, at, 6, 0x2d, 2)
    } else if starts_with_word(data, at + 1, &entity) || starts_with_word(data, at + 1, &attlist)
        || starts_with_word(data, at + 1, &notation) {
        find_tag_end(data, at + 1)
    } else {
        find_closing(data, at, 1, 0, 0)
    }
}

fn find_subset_end(data: &[u8], from: usize) -> (r: Option<usize>)
    requires
        from <= data@.len(),
    ensures
        subset_end(data@, from as int) == as_index(r),
        r matches Some(e) ==> from < e <= data@.len(),
{
    let n: usize = data.len();
    let mut i: usize = from;
    while i < n
        invariant
            from <= i <= n == data@.len(),
            subset_end(data@, from as int) == subset_end(data@, i as int),
        decreases n - i,
    {
        if data[i] == 0x5d {
            return find_closing(data, i, 1, 0, 0);
        } else if data[i] == 0x3c {
            match find_declaration_end(data, i) {
                Some(end) => {
                    i = end;
                },
                None => {
                    return None;
                },
            }
        } else {
            i += 1;
        }
    }
    None
}

fn find_doctype_end(data: &[u8], from: usize) -> (r: Option<usize>)
    requires
        from <= data@.len(),
    ensures
        doctype_end(data@, from as int, 0) == as_index(r),
        r matches Some(e) ==> from < e <= data@.len(),
{
    let n: usize = data.len();
    let mut quote: u8 = 0;
    let mut i: usize = from;
    while i < n
        invariant
            from <= i <= n == data@.len(),
            doctype_end(data@, from as int, 0) == doctype_end(data@, i as int, quote),
        decreases n - i,
    {
        let b: u8 = data[i];
        if quote != 0 {
            if b == quote {
                quote = 0;
            }
        } else if b == 0x3e {
            return Some(i + 1);
        } else if b == 0x5b {
            return find_subset_end(data, i + 1);
        } else if b == 0x22 || b == 0x27 {
            quote = b;
        }
        i += 1;
    }
    None
}

fn find_markup_end(data: &[u8], at: usize) -> (r: Option<usize>)
    requires
        at < data@.len(),
    ensures
        markup_end(data@, at as int) == as_index(r),
        r matches Some(e) ==> at + 1 < e <= data@.len(),
{
    let n: usize = data.len();
    if n - at < 2 {
        return None;
    }
    if data[at + 1] == 0x21 {
        if n - at < 3 {
            None
        } else if data[at + 2] == 0x5b {
            find_closing(data, at, 5, 0x5d, 2)
        } else if data[at + 2] == 0x2d {
            find_closing(data, at, 6, 0x2d, 2)
        } else if data[at + 2] == 0x44 || data[at + 2] == 0x64 {
            find_doctype_end(data, at + 2)
        } else {
            None
        }
    } else if data[at + 1] == 0x3f {
        find_closing(data, at, 2, 0x3f, 1)
    } else {
        find_tag_end(data, at + 1)
    }
}

// ---------------------------------------------------------------------------
// Elements
// ---------------------------------------------------------------------------

/// What the reader does at an element.
#[derive(Debug, Clone, Copy, PartialEq, Eq, Structural)]
pub enum ElementKind {
    /// A collection, a truth value or the outermost element: the reader goes on behind the tag.
    Structure,
    /// The reader takes the text up to the closing tag.
    Text,
    /// Like a text, which is then read as a date.
    Date,
    /// The reader fails.
    Unknown,
}

/// The element with a name: one of `plist`, `array`, `dict`, `true` and `false`; one of `key`,
/// `data`, `integer`, `real` and `string`; or `date`.
pub open spec fn element_kind(name: Seq<u8>) -> ElementKind {
    if name == seq![0x70u8, 0x6c, 0x69, 0x73, 0x74] || name == seq![0x61u8, 0x72, 0x72, 0x61, 0x79]
        || name == seq![0x64u8, 0x69, 0x63, 0x74] || name == seq![0x74u8, 0x72, 0x75, 0x65] || name
        == seq![0x66u8, 0x61, 0x6c, 0x73, 0x65] {
        ElementKind::Structure
    } else if name == seq![0x6bu8, 0x65, 0x79] || name == seq![0x64u8, 0x61, 0x74, 0x61] || name
        == seq![0x69u8, 0x6e, 0x74, 0x65, 0x67, 0x65, 0x72] || name
        == seq![0x72u8, 0x65, 0x61, 0x6c] || name
        == seq![0x73u8, 0x74, 0x72, 0x69, 0x6e, 0x67] {
        ElementKind::Text
    } else if name == seq![0x64u8, 0x61, 0x74, 0x65] {
        ElementKind::Date
    } else {
        ElementKind::Unknown
    }
}

/// The tag that ends at `end` closes itself.
pub open spec fn closes_itself(data: Seq<u8>, end: int) -> bool {
    data[end - 2] == 0x2f
}

/// The name in the tag from `at` to `end`, without a prefix. It ends at white space.
pub open spec fn local_name(data: Seq<u8>, at: int, end: int) -> Seq<u8> {
    let last = if closes_itself(data, end) {
        end - 2
    } else {
        end - 1
    };
    let space = next_of(data, at + 1, seq![0x20u8, 0x09, 0x0a, 0x0d]);
    let to = if space < last {
        space
    } else {
        last
    };
    let colon = next_of(data, at + 1, seq![0x3au8]);
    data.subrange(
        if colon < to {
            colon + 1
        } else {
            at + 1
        },
        to,
    )
}

fn same_bytes(data: &[u8], from: usize, to: usize, word: &Vec<u8>) -> (r: bool)
    requires
        from <= to <= data@.len(),
    ensures
        r == (data@.subrange(from as int, to as int) == word@),
{
    if to - from != word.len() {
        return false;
    }
    let r: bool = starts_with_word(data, from, word);
    proof {
        assert(from + word@.len() == to);
    }
    r
}

fn find_element_kind(data: &[u8], at: usize, end: usize) -> (r: ElementKind)
    requires
        at + 1 < end <= data@.len(),
        data@[at as int] == 0x3c,
        data@[at + 1] != 0x2f,
    ensures
        r == element_kind(local_name(data@, at as int, end as int)),
{
    let last: usize = if data[end - 2] == 0x2f {
        end - 2
    } else {
        end - 1
    };
    let spaces: Vec<u8> = vec![0x20u8, 0x09, 0x0a, 0x0d];
    let colons: Vec<u8> = vec![0x3au8];
    proof {
        assert(spaces@ =~= seq![0x20u8, 0x09, 0x0a, 0x0d]);
        assert(colons@ =~= seq![0x3au8]);
    }
    let space: usize = find_next_of(data, at + 1, &spaces);
    let to: usize = if space < last {
        space
    } else {
        last
    };
    let colon: usize = find_next_of(data, at + 1, &colons);
    let from: usize = if colon < to {
        colon + 1
    } else {
        at + 1
    };
    let word_plist: Vec<u8> = vec![0x70u8, 0x6c, 0x69, 0x73, 0x74];
    let word_array: Vec<u8> = vec![0x61u8, 0x72, 0x72, 0x61, 0x79];
    let word_dict: Vec<u8> = vec![0x64u8, 0x69, 0x63, 0x74];
    let word_true: Vec<u8> = vec![0x74u8, 0x72, 0x75, 0x65];
    let word_false: Vec<u8> = vec![0x66u8, 0x61, 0x6c, 0x73, 0x65];
    let word_key: Vec<u8> = vec![0x6bu8, 0x65, 0x79];
    let word_data: Vec<u8> = vec![0x64u8, 0x61, 0x74, 0x61];
    let word_integer: Vec<u8> = vec![0x69u8, 0x6e, 0x74, 0x65, 0x67, 0x65, 0x72];
    let word_real: Vec<u8> = vec![0x72u8, 0x65, 0x61, 0x6c];
    let word_string: Vec<u8> = vec![0x73u8, 0x74, 0x72, 0x69, 0x6e, 0x67];
    let word_date: Vec<u8> = vec![0x64u8, 0x61, 0x74, 0x65];
    proof {
        assert(word_plist@ =~= seq![0x70u8, 0x6c, 0x69, 0x73, 0x74]);
        assert(word_array@ =~= seq![0x61u8, 0x72, 0x72, 0x61, 0x79]);
        assert(word_dict@ =~= seq![0x64u8, 0x69, 0x63, 0x74]);
        assert(word_true@ =~= seq![0x74u8, 0x72, 0x75, 0x65]);
        assert(word_false@ =~= seq![0x66u8, 0x61, 0x6c, 0x73, 0x65]);
        assert(word_key@ =~= seq![0x6bu8, 0x65, 0x79]);
        assert(word_data@ =~= seq![0x64u8, 0x61, 0x74, 0x61]);
        assert(word_integer@ =~= seq![0x69u8, 0x6e, 0x74, 0x65, 0x67, 0x65, 0x72]);
        assert(word_real@ =~= seq![0x72u8, 0x65, 0x61, 0x6c]);
        assert(word_string@ =~= seq![0x73u8, 0x74, 0x72, 0x69, 0x6e, 0x67]);
        assert(word_date@ =~= seq![0x64u8, 0x61, 0x74, 0x65]);
    }
    if same_bytes(data, from, to, &word_plist)
        || same_bytes(data, from, to, &word_array)
        || same_bytes(data, from, to, &word_dict)
        || same_bytes(data, from, to, &word_true)
        || same_bytes(data, from, to, &word_false) {
        ElementKind::Structure
    } else if same_bytes(data, from, to, &word_key)
        || same_bytes(data, from, to, &word_data)
        || same_bytes(data, from, to, &word_integer)
        || same_bytes(data, from, to, &word_real)
        || same_bytes(data, from, to, &word_string) {
        ElementKind::Text
    } else if same_bytes(data, from, to, &word_date) {
        ElementKind::Date
    } else {
        ElementKind::Unknown
    }
}

// ---------------------------------------------------------------------------
// Text
// ---------------------------------------------------------------------------

/// The value of a digit.
pub open spec fn digit_value(b: u8) -> int {
    if 0x30 <= b <= 0x39 {
        b - 0x30
    } else if 0x61 <= b <= 0x66 {
        b - 0x61 + 10
    } else if 0x41 <= b <= 0x46 {
        b - 0x41 + 10
    } else {
        99
    }
}

/// The number that the digits from `from` to `to` give; none where one of them is no digit.
pub open spec fn number(text: Seq<u8>, from: int, to: int, base: int) -> Option<int>
    decreases to - from,
{
    if to <= from {
        Some(0)
    } else {
        match number(text, from, to - 1, base) {
            Some(n) if digit_value(text[to - 1]) < base => Some(
                n * base + digit_value(text[to - 1]),
            ),
            _ => None,
        }
    }
}

/// The character with a number; none where there is none. One outside ASCII counts as two bytes that
/// stand for nothing.
pub open spec fn numbered(code: int) -> Option<Seq<u8>> {
    if code <= 0 || code > 0x10ffff || 0xd800 <= code < 0xe000 {
        None
    } else if code < 0x80 {
        Some(seq![code as u8])
    } else {
        Some(seq![0xffu8, 0xff])
    }
}

/// What a reference stands for: a character by its number, one of `lt`, `gt`, `amp`, `apos` and
/// `quot`, or nothing. None where the reader fails.
pub open spec fn referenced(text: Seq<u8>) -> Option<Seq<u8>> {
    let n = text.len() as int;
    if n > 0 && text[0] == 0x23 {
        let (from, base) = if n > 1 && text[1] == 0x78 {
            (2int, 16int)
        } else {
            (1int, 10int)
        };
        match number(text, from, n, base) {
            Some(code) if from < n => numbered(code),
            _ => None,
        }
    } else if text == seq![0x6cu8, 0x74] {
        Some(seq![0x3cu8])
    } else if text == seq![0x67u8, 0x74] {
        Some(seq![0x3eu8])
    } else if text == seq![0x61u8, 0x6d, 0x70] {
        Some(seq![0x26u8])
    } else if text == seq![0x61u8, 0x70, 0x6f, 0x73] {
        Some(seq![0x27u8])
    } else if text == seq![0x71u8, 0x75, 0x6f, 0x74] {
        Some(seq![0x22u8])
    } else {
        Some(seq![])
    }
}

/// The end of the reference at `at`, which is the index of its semicolon.
pub open spec fn reference_end(data: Seq<u8>, at: int) -> Option<int> {
    let j = next_of(data, at + 1, seq![0x3bu8, 0x26, 0x3c]);
    if at < j < data.len() && data[j] == 0x3b {
        Some(j)
    } else {
        None
    }
}

/// The text from `from` to the next closing tag, behind `taken`, and the end of that tag. Comments,
/// instructions and the like are left out. None where the reader fails.
pub open spec fn text_from(data: Seq<u8>, from: int, taken: Seq<u8>) -> Option<(Seq<u8>, int)>
    decreases data.len() - from,
{
    if from >= data.len() {
        None
    } else if data[from] == 0x3c {
        match markup_end(data, from) {
            Some(end) if from < end <= data.len() => if data[from + 1] == 0x2f {
                Some((taken, end))
            } else if data[from + 1] == 0x21 || data[from + 1] == 0x3f {
                text_from(data, end, taken)
            } else {
                None
            },
            _ => None,
        }
    } else if data[from] == 0x26 {
        match reference_end(data, from) {
            Some(j) => match referenced(data.subrange(from + 1, j)) {
                Some(b) => text_from(data, j + 1, taken + b),
                None => None,
            },
            None => None,
        }
    } else {
        text_from(data, from + 1, taken.push(data[from]))
    }
}

/// The text of the element whose opening tag ends at `end`, and the end of the element.
pub open spec fn element_text(data: Seq<u8>, end: int) -> Option<(Seq<u8>, int)> {
    if closes_itself(data, end) {
        Some((seq![], end))
    } else {
        text_from(data, end, seq![])
    }
}

fn value_of_digit(b: u8) -> (r: u32)
    ensures
        r == digit_value(b),
{
    if 0x30 <= b && b <= 0x39 {
        (b - 0x30) as u32
    } else if 0x61 <= b && b <= 0x66 {
        (b - 0x61 + 10) as u32
    } else if 0x41 <= b && b <= 0x46 {
        (b - 0x41 + 10) as u32
    } else {
        99
    }
}

/// The number that digits give, or one that stands for all that are too large.
fn small_number(text: &[u8], from: usize, base: u32) -> (r: Option<u32>)
    requires
        from <= text@.len(),
        base == 10 || base == 16,
    ensures
        match (r, number(text@, from as int, text@.len() as int, base as int)) {
            (Some(n), Some(code)) => n == code || (n > 0x10ffff && code > 0x10ffff),
            (None, None) => true,
            _ => false,
        },
{
    let total: usize = text.len();
    let mut n: u32 = 0;
    let mut i: usize = from;
    while i < total
        invariant
            from <= i <= total == text@.len(),
            base == 10 || base == 16,
            n <= 0x110000,
            number(text@, from as int, i as int, base as int) matches Some(code) && (n == code || (n
                > 0x10ffff && code > 0x10ffff)),
        decreases total - i,
    {
        let d: u32 = value_of_digit(text[i]);
        if d >= base {
            proof {
                lemma_bad_digit(text@, from as int, i as int, total as int, base as int);
            }
            return None;
        }
        n = n * base + d;
        if n > 0x110000 {
            n = 0x110000;
        }
        i += 1;
    }
    Some(n)
}

proof fn lemma_bad_digit(text: Seq<u8>, from: int, bad: int, to: int, base: int)
    requires
        from <= bad < to <= text.len(),
        digit_value(text[bad]) >= base,
    ensures
        number(text, from, to, base) is None,
    decreases to - bad,
{
    if bad + 1 < to {
        lemma_bad_digit(text, from, bad, to - 1, base);
    }
}

fn resolve(text: &[u8]) -> (r: Option<Vec<u8>>)
    ensures
        match (r, referenced(text@)) {
            (Some(v), Some(b)) => v@ == b,
            (None, None) => true,
            _ => false,
        },
{
    let n: usize = text.len();
    if n > 0 && text[0] == 0x23 {
        let hex: bool = n > 1 && text[1] == 0x78;
        let from: usize = if hex {
            2
        } else {
            1
        };
        if from >= n {
            return None;
        }
        return match small_number(text, from, if hex { 16 } else { 10 }) {
            Some(code) => if code == 0 || code > 0x10ffff || (0xd800 <= code && code < 0xe000) {
                None
            } else if code < 0x80 {
                let v: Vec<u8> = vec![code as u8];
                proof {
                    assert(v@ =~= seq![code as u8]);
                }
                Some(v)
            } else {
                let v: Vec<u8> = vec![0xffu8, 0xff];
                proof {
                    assert(v@ =~= seq![0xffu8, 0xff]);
                }
                Some(v)
            },
            None => None,
        };
    }
    let word_lt: Vec<u8> = vec![0x6cu8, 0x74];
    let word_gt: Vec<u8> = vec![0x67u8, 0x74];
    let word_amp: Vec<u8> = vec![0x61u8, 0x6d, 0x70];
    let word_apos: Vec<u8> = vec![0x61u8, 0x70, 0x6f, 0x73];
    let word_quot: Vec<u8> = vec![0x71u8, 0x75, 0x6f, 0x74];
    proof {
        assert(text@.subrange(0, n as int) =~= text@);
        assert(word_lt@ =~= seq![0x6cu8, 0x74]);
        assert(word_gt@ =~= seq![0x67u8, 0x74]);
        assert(word_amp@ =~= seq![0x61u8, 0x6d, 0x70]);
        assert(word_apos@ =~= seq![0x61u8, 0x70, 0x6f, 0x73]);
        assert(word_quot@ =~= seq![0x71u8, 0x75, 0x6f, 0x74]);
    }
    let mut v: Vec<u8> = Vec::new();
    if same_bytes(text, 0, n, &word_lt) {
        v.push(0x3c);
    } else if same_bytes(text, 0, n, &word_gt) {
        v.push(0x3e);
    } else if same_bytes(text, 0, n, &word_amp) {
        v.push(0x26);
    } else if same_bytes(text, 0, n, &word_apos) {
        v.push(0x27);
    } else if same_bytes(text, 0, n, &word_quot) {
        v.push(0x22);
    }
    proof {
        assert(v@ =~= referenced(text@)->0);
    }
    Some(v)
}

fn find_reference_end(data: &[u8], at: usize) -> (r: Option<usize>)
    requires
        at < data@.len(),
    ensures
        reference_end(data@, at as int) == as_index(r),
        r matches Some(j) ==> at < j < data@.len(),
{
    let n: usize = data.len();
    let stops: Vec<u8> = vec![0x3bu8, 0x26, 0x3c];
    proof {
        assert(stops@ =~= seq![0x3bu8, 0x26, 0x3c]);
    }
    let j: usize = find_next_of(data, at + 1, &stops);
    if j < n && data[j] == 0x3b {
        Some(j)
    } else {
        None
    }
}

/// A text and an index by their content.
pub open spec fn as_text(r: Option<(Vec<u8>, usize)>) -> Option<(Seq<u8>, int)> {
    match r {
        Some((text, next)) => Some((text@, next as int)),
        None => None,
    }
}

fn read_text(data: &[u8], from: usize) -> (r: Option<(Vec<u8>, usize)>)
    requires
        from <= data@.len(),
    ensures
        text_from(data@, from as int, seq![]) == as_text(r),
        r matches Some((_, next)) ==> from < next <= data@.len(),
{
    let n: usize = data.len();
    let mut text: Vec<u8> = Vec::new();
    let mut i: usize = from;
    proof {
        assert(text@ =~= seq![]);
    }
    while i < n
        invariant
            from <= i <= n == data@.len(),
            text_from(data@, from as int, seq![]) == text_from(data@, i as int, text@),
        decreases n - i,
    {
        if data[i] == 0x3c {
            match find_markup_end(data, i) {
                Some(end) => {
                    if data[i + 1] == 0x2f {
                        return Some((text, end));
                    } else if data[i + 1] == 0x21 || data[i + 1] == 0x3f {
                        i = end;
                    } else {
                        return None;
                    }
                },
                None => {
                    return None;
                },
            }
        } else if data[i] == 0x26 {
            match find_reference_end(data, i) {
                Some(j) => {
                    let name: &[u8] = vstd::slice::slice_subrange(data, i + 1, j);
                    match resolve(name) {
                        Some(b) => {
                            append_bytes(&mut text, &b);
                            i = j + 1;
                        },
                        None => {
                            return None;
                        },
                    }
                },
                None => {
                    return None;
                },
            }
        } else {
            text.push(data[i]);
            i += 1;
        }
    }
    None
}

fn append_bytes(v: &mut Vec<u8>, more: &Vec<u8>)
    ensures
        final(v)@ == old(v)@ + more@,
{
    let ghost before = v@;
    let mut i: usize = 0;
    while i < more.len()
        invariant
            i <= more@.len(),
            v@ == before + more@.take(i as int),
        decreases more@.len() - i,
    {
        v.push(more[i]);
        i += 1;
        proof {
            assert(v@ =~= before + more@.take(i as int));
        }
    }
    proof {
        assert(more@.take(more@.len() as int) =~= more@);
    }
}

// ---------------------------------------------------------------------------
// Dates
// ---------------------------------------------------------------------------

/// The last day that the reader supports, `9999-12-31`.
pub open spec fn last_day() -> Seq<u8> {
    seq![0x39u8, 0x39, 0x39, 0x39, 0x2d, 0x31, 0x32, 0x2d, 0x33, 0x31]
}

/// The first day that can be written, `0000-01-01`.
pub open spec fn first_day() -> Seq<u8> {
    seq![0x30u8, 0x30, 0x30, 0x30, 0x2d, 0x30, 0x31, 0x2d, 0x30, 0x31]
}

/// A decimal digit.
pub open spec fn decimal_digit(b: u8) -> bool {
    0x30 <= b <= 0x39
}

/// Two digits stand at `i`.
pub open spec fn two_digits(text: Seq<u8>, i: int) -> bool {
    decimal_digit(text[i]) && decimal_digit(text[i + 1])
}

/// The number that the two digits at `i` give.
pub open spec fn two_digit_number(text: Seq<u8>, i: int) -> int {
    (text[i] - 0x30) * 10 + (text[i + 1] - 0x30)
}

/// The index of the first byte at or after `from` that is no digit, or the length.
pub open spec fn digits_end(text: Seq<u8>, from: int) -> int
    decreases text.len() - from,
{
    if from >= text.len() || !decimal_digit(text[from]) {
        from
    } else {
        digits_end(text, from + 1)
    }
}

/// Where the offset stands: behind the seconds and their fraction.
pub open spec fn offset_at(text: Seq<u8>) -> int {
    if text[19] == 0x2e {
        digits_end(text, 20)
    } else {
        19
    }
}

/// Ten bytes of a day, one of any kind, and a time with an offset in hours and minutes.
pub open spec fn is_offset_time(text: Seq<u8>) -> bool {
    let z = offset_at(text);
    &&& text.len() >= 25
    &&& text[10] < 0x80
    &&& two_digits(text, 11) && two_digit_number(text, 11) <= 23
    &&& text[13] == 0x3a
    &&& two_digits(text, 14) && two_digit_number(text, 14) <= 59
    &&& text[16] == 0x3a
    &&& two_digits(text, 17) && two_digit_number(text, 17) <= 60
    &&& z != 20
    &&& text.len() == z + 6
    &&& text[z] == 0x2b || text[z] == 0x2d
    &&& two_digits(text, z + 1) && two_digit_number(text, z + 1) <= 23
    &&& text[z + 3] == 0x3a
    &&& two_digits(text, z + 4) && two_digit_number(text, z + 4) <= 59
}

/// The minute of the day.
pub open spec fn day_minute(text: Seq<u8>) -> int {
    two_digit_number(text, 11) * 60 + two_digit_number(text, 14)
}

/// The minutes of the offset, without its sign.
pub open spec fn offset_minutes(text: Seq<u8>) -> int {
    let z = offset_at(text);
    two_digit_number(text, z + 1) * 60 + two_digit_number(text, z + 4)
}

/// The date lies behind the last day once its offset is taken off. A leap second cannot lie there.
pub open spec fn is_late(text: Seq<u8>) -> bool {
    &&& is_offset_time(text)
    &&& text.take(10) == last_day()
    &&& text[offset_at(text)] == 0x2d
    &&& two_digit_number(text, 17) <= 59
    &&& day_minute(text) + offset_minutes(text) >= 1440
}

/// The date lies before the first day once its offset is taken off. A leap second is the last second
/// of the day before.
pub open spec fn is_early(text: Seq<u8>) -> bool {
    &&& is_offset_time(text)
    &&& text.take(10) == first_day()
    &&& text[offset_at(text)] == 0x2b
    &&& if two_digit_number(text, 17) <= 59 {
        day_minute(text) < offset_minutes(text)
    } else {
        day_minute(text) + 1 == offset_minutes(text)
    }
}

/// The text of a date can be read; with `rewritten`, the date can also be written again.
pub open spec fn date_fits(text: Seq<u8>, rewritten: bool) -> bool {
    !is_late(text) && (rewritten ==> !is_early(text))
}

fn is_digit_byte(b: u8) -> (r: bool)
    ensures
        r == decimal_digit(b),
{
    0x30 <= b && b <= 0x39
}

/// The number that the two digits at `i` give, where two digits stand there.
fn read_two(text: &Vec<u8>, i: usize) -> (r: Option<u32>)
    requires
        i + 1 < text@.len(),
    ensures
        match r {
            Some(n) => two_digits(text@, i as int) && n == two_digit_number(text@, i as int) && n
                <= 99,
            None => !two_digits(text@, i as int),
        },
{
    let n: usize = text.len();
    if n - i > 1 && is_digit_byte(text[i]) && is_digit_byte(text[i + 1]) {
        Some((text[i] - 0x30) as u32 * 10 + (text[i + 1] - 0x30) as u32)
    } else {
        None
    }
}

fn find_offset(text: &Vec<u8>) -> (r: usize)
    requires
        text@.len() >= 25,
    ensures
        r == offset_at(text@),
        19 <= r <= text@.len(),
{
    if text[19] != 0x2e {
        return 19;
    }
    let n: usize = text.len();
    let mut i: usize = 20;
    while i < n && is_digit_byte(text[i])
        invariant
            20 <= i <= n == text@.len(),
            digits_end(text@, 20) == digits_end(text@, i as int),
        decreases n - i,
    {
        i += 1;
    }
    i
}

/// What a time with an offset says: the minute of the day, the second, whether the offset lies
/// behind, and its minutes.
fn read_offset_time(text: &Vec<u8>) -> (r: Option<(u32, u32, bool, u32)>)
    ensures
        match r {
            Some((minute, second, behind, offset)) => {
                &&& is_offset_time(text@)
                &&& minute == day_minute(text@)
                &&& second == two_digit_number(text@, 17)
                &&& behind == (text@[offset_at(text@)] == 0x2d)
                &&& !behind == (text@[offset_at(text@)] == 0x2b)
                &&& offset == offset_minutes(text@)
                &&& minute < 1440 && offset < 1440
            },
            None => !is_offset_time(text@),
        },
{
    let n: usize = text.len();
    if n < 25 || text[10] >= 0x80 || text[13] != 0x3a || text[16] != 0x3a {
        return None;
    }
    let z: usize = find_offset(text);
    if z == 20 || n - z != 6 || text[z + 3] != 0x3a || !(text[z] == 0x2b || text[z] == 0x2d) {
        return None;
    }
    match (
        read_two(text, 11),
        read_two(text, 14),
        read_two(text, 17),
        read_two(text, z + 1),
        read_two(text, z + 4),
    ) {
        (Some(h), Some(m), Some(second), Some(oh), Some(om)) => {
            if h > 23 || m > 59 || second > 60 || oh > 23 || om > 59 {
                None
            } else {
                Some((h * 60 + m, second, text[z] == 0x2d, oh * 60 + om))
            }
        },
        _ => None,
    }
}

fn is_of_day(text: &Vec<u8>, day: &Vec<u8>) -> (r: bool)
    requires
        text@.len() >= 10,
        day@.len() == 10,
    ensures
        r == (text@.take(10) == day@),
{
    let mut i: usize = 0;
    while i < 10
        invariant
            i <= 10,
            text@.len() >= 10,
            day@.len() == 10,
            forall|j: int| 0 <= j < i ==> #[trigger] text@[j] == day@[j],
        decreases 10 - i,
    {
        if text[i] != day[i] {
            proof {
                assert(text@.take(10)[i as int] != day@[i as int]);
            }
            return false;
        }
        i += 1;
    }
    proof {
        assert(text@.take(10) =~= day@);
    }
    true
}

fn date_is_fit(text: &Vec<u8>, rewritten: bool) -> (r: bool)
    ensures
        r == date_fits(text@, rewritten),
{
    match read_offset_time(text) {
        None => true,
        Some((minute, second, behind, offset)) => {
            let last: Vec<u8> = vec![0x39u8, 0x39, 0x39, 0x39, 0x2d, 0x31, 0x32, 0x2d, 0x33, 0x31];
            let first: Vec<u8> = vec![0x30u8, 0x30, 0x30, 0x30, 0x2d, 0x30, 0x31, 0x2d, 0x30, 0x31];
            proof {
                assert(last@ =~= last_day());
                assert(first@ =~= first_day());
            }
            let late: bool = behind && second <= 59 && minute + offset >= 1440 && is_of_day(
                text,
                &last,
            );
            let early: bool = !behind && (if second <= 59 {
                minute < offset
            } else {
                minute + 1 == offset
            }) && is_of_day(text, &first);
            !late && !(rewritten && early)
        },
    }
}

// ---------------------------------------------------------------------------
// The whole list
// ---------------------------------------------------------------------------

/// White space of ASCII.
pub open spec fn ascii_space(b: u8) -> bool {
    0x09 <= b <= 0x0d || b == 0x20
}

/// Every date that the reader comes to from `at` on can be read; with `rewritten`, written again
/// too. The reader goes no further where it fails: at markup or a reference that does not end, at
/// text outside the elements that hold text, at an unknown element, and at an element inside a text.
pub open spec fn dates_fit_from(data: Seq<u8>, at: int, rewritten: bool) -> bool
    decreases data.len() - at,
{
    if at >= data.len() {
        true
    } else if data[at] == 0x26 {
        match reference_end(data, at) {
            Some(j) => dates_fit_from(data, j + 1, rewritten),
            None => true,
        }
    } else if data[at] != 0x3c {
        data[at] < 0x80 && !ascii_space(data[at]) || dates_fit_from(data, at + 1, rewritten)
    } else {
        match markup_end(data, at) {
            Some(end) if at < end <= data.len() => {
                let b = data[at + 1];
                let kind = element_kind(local_name(data, at, end));
                if b == 0x21 || b == 0x3f || b == 0x2f || kind == ElementKind::Structure {
                    dates_fit_from(data, end, rewritten)
                } else if kind == ElementKind::Unknown {
                    true
                } else {
                    match element_text(data, end) {
                        Some((text, next)) if at < next <= data.len() => {
                            &&& kind == ElementKind::Date ==> date_fits(text, rewritten)
                            &&& dates_fit_from(data, next, rewritten)
                        },
                        _ => true,
                    }
                }
            },
            _ => true,
        }
    }
}

/// Every date in an XML property list can be read; with `rewritten`, written again too.
pub open spec fn xml_dates_fit(data: Seq<u8>, rewritten: bool) -> bool {
    dates_fit_from(data, 0, rewritten)
}

/// Whether every date in an XML property list can be read; with `rewritten`, written again too.
pub fn xml_dates_are_fit(data: &[u8], rewritten: bool) -> (r: bool)
    ensures
        r == xml_dates_fit(data@, rewritten),
{
    let n: usize = data.len();
    let mut at: usize = 0;
    while at < n
        invariant
            at <= n == data@.len(),
            xml_dates_fit(data@, rewritten) == dates_fit_from(data@, at as int, rewritten),
        decreases n - at,
    {
        if data[at] == 0x26 {
            match find_reference_end(data, at) {
                Some(j) => {
                    at = j + 1;
                },
                None => {
                    return true;
                },
            }
        } else if data[at] != 0x3c {
            if data[at] < 0x80 && !(0x09 <= data[at] && data[at] <= 0x0d || data[at] == 0x20) {
                return true;
            }
            at += 1;
        } else {
            let end: usize = match find_markup_end(data, at) {
                Some(end) => end,
                None => {
                    return true;
                },
            };
            let b: u8 = data[at + 1];
            if b == 0x21 || b == 0x3f || b == 0x2f {
                at = end;
            } else {
                let kind: ElementKind = find_element_kind(data, at, end);
                if kind == ElementKind::Structure {
                    at = end;
                } else if kind == ElementKind::Unknown {
                    return true;
                } else if data[end - 2] == 0x2f {
                    let none: Vec<u8> = Vec::new();
                    proof {
                        assert(none@ =~= seq![]);
                    }
                    if kind == ElementKind::Date && !date_is_fit(&none, rewritten) {
                        return false;
                    }
                    at = end;
                } else {
                    match read_text(data, end) {
                        Some((text, next)) => {
                            if kind == ElementKind::Date && !date_is_fit(&text, rewritten) {
                                return false;
                            }
                            at = next;
                        },
                        None => {
                            return true;
                        },
                    }
                }
            }
        }
    }
    true
}

/// A date without an offset can be read and written again.
pub proof fn law_utc_dates_fit(text: Seq<u8>, rewritten: bool)
    requires
        text.len() > 0,
        text.last() == 0x5a || text.last() == 0x7a,
    ensures
        date_fits(text, rewritten),
{
}

/// What can be written again can be read.
pub proof fn law_rewritten_dates_are_read(data: Seq<u8>, at: int)
    requires
        dates_fit_from(data, at, true),
    ensures
        dates_fit_from(data, at, false),
    decreases data.len() - at,
{
    if at < data.len() {
        if data[at] == 0x26 {
            if let Some(j) = reference_end(data, at) {
                law_rewritten_dates_are_read(data, j + 1);
            }
        } else if data[at] != 0x3c {
            if !(data[at] < 0x80 && !ascii_space(data[at])) {
                law_rewritten_dates_are_read(data, at + 1);
            }
        } else if let Some(end) = markup_end(data, at) {
            if at < end <= data.len() {
                let b = data[at + 1];
                let kind = element_kind(local_name(data, at, end));
                if b == 0x21 || b == 0x3f || b == 0x2f || kind == ElementKind::Structure {
                    law_rewritten_dates_are_read(data, end);
                } else if kind != ElementKind::Unknown {
                    if let Some((text, next)) = element_text(data, end) {
                        if at < next <= data.len() {
                            law_rewritten_dates_are_read(data, next);
                        }
                    }
                }
            }
        }
    }
}

/// Bytes without an opening bracket hold no date in XML.
pub proof fn law_bytes_without_tags_fit(data: Seq<u8>, at: int, rewritten: bool)
    requires
        0 <= at,
        !data.contains(0x3c),
    ensures
        dates_fit_from(data, at, rewritten),
    decreases data.len() - at,
{
    if at < data.len() {
        assert(data[at] != 0x3c);
        if data[at] == 0x26 {
            if let Some(j) = reference_end(data, at) {
                law_bytes_without_tags_fit(data, j + 1, rewritten);
            }
        } else {
            law_bytes_without_tags_fit(data, at + 1, rewritten);
        }
    }
}

} // verus!
