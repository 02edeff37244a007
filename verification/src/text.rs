//! Text primitives: every function states its result over the characters of its arguments.
use vstd::prelude::*;

verus! {

/// `String::push`: appends one character at the end.
pub assume_specification[ String::push ](s: &mut String, ch: char)
    ensures
        final(s)@ == old(s)@.push(ch),
;

// ---------------------------------------------------------------------------
// Model
// ---------------------------------------------------------------------------

/// `p` stands in `s` at index `i`.
pub open spec fn occurs_at(s: Seq<char>, p: Seq<char>, i: int) -> bool {
    0 <= i && i + p.len() <= s.len() && s.subrange(i, i + p.len()) == p
}

/// `p` stands somewhere in `s`.
pub open spec fn has_text(s: Seq<char>, p: Seq<char>) -> bool {
    exists|i: int| occurs_at(s, p, i)
}

/// `i` is the least index at which `p` stands in `s`.
pub open spec fn first_at(s: Seq<char>, p: Seq<char>, i: int) -> bool {
    occurs_at(s, p, i) && forall|j: int| 0 <= j < i ==> !occurs_at(s, p, j)
}

pub open spec fn is_prefix(p: Seq<char>, s: Seq<char>) -> bool {
    p.len() <= s.len() && s.subrange(0, p.len() as int) == p
}

pub open spec fn is_suffix(p: Seq<char>, s: Seq<char>) -> bool {
    p.len() <= s.len() && s.subrange(s.len() - p.len(), s.len() as int) == p
}

/// The ASCII lower-case form of one character; other characters stay.
pub open spec fn lower_char(c: char) -> char {
    if 'A' <= c && c <= 'Z' {
        ((c as u8) + 32) as u8 as char
    } else {
        c
    }
}

/// The ASCII lower-case form of a text.
pub open spec fn lower(s: Seq<char>) -> Seq<char> {
    s.map_values(|c: char| lower_char(c))
}

/// Equal but for the case of ASCII letters.
pub open spec fn same_ignoring_case(a: Seq<char>, b: Seq<char>) -> bool {
    lower(a) == lower(b)
}

/// `s` without the run of `c` at its end.
pub open spec fn without_trailing(s: Seq<char>, c: char) -> Seq<char>
    decreases s.len(),
{
    if s.len() > 0 && s.last() == c {
        without_trailing(s.drop_last(), c)
    } else {
        s
    }
}

/// `s` with every occurrence of `from` replaced by `to`.
pub open spec fn with_char_replaced(s: Seq<char>, from: char, to: char) -> Seq<char> {
    s.map_values(|c: char| if c == from { to } else { c })
}

/// The least index of `c` in `s` at or after `i`, or the length of `s`.
pub open spec fn index_or_len(s: Seq<char>, c: char, i: int) -> int
    decreases s.len() - i,
{
    if i >= s.len() || s[i] == c {
        i
    } else {
        index_or_len(s, c, i + 1)
    }
}

pub open spec fn is_upper(c: char) -> bool {
    'A' <= c && c <= 'Z'
}

pub open spec fn is_lower(c: char) -> bool {
    'a' <= c && c <= 'z'
}

pub open spec fn is_digit(c: char) -> bool {
    '0' <= c && c <= '9'
}

/// An ASCII letter or digit.
pub open spec fn is_alnum(c: char) -> bool {
    is_upper(c) || is_lower(c) || is_digit(c)
}

/// An ASCII hexadecimal digit.
pub open spec fn is_hex(c: char) -> bool {
    is_digit(c) || ('a' <= c && c <= 'f') || ('A' <= c && c <= 'F')
}

/// The character of a decimal digit.
pub open spec fn digit_char(d: nat) -> char {
    ('0' as u8 + d) as u8 as char
}

/// The decimal digits of `n`, most significant first.
pub open spec fn decimal(n: nat) -> Seq<char>
    decreases n,
{
    if n < 10 {
        seq![digit_char(n)]
    } else {
        decimal(n / 10).push(digit_char(n % 10))
    }
}

/// The decimal text of a signed number.
pub open spec fn signed_decimal(n: int) -> Seq<char> {
    if n < 0 {
        seq!['-'] + decimal((-n) as nat)
    } else {
        decimal(n as nat)
    }
}

/// The order of texts by their characters, first difference first.
pub open spec fn text_le(a: Seq<char>, b: Seq<char>) -> bool
    decreases a.len(),
{
    if a.len() == 0 {
        true
    } else if b.len() == 0 {
        false
    } else if a[0] != b[0] {
        a[0] < b[0]
    } else {
        text_le(a.drop_first(), b.drop_first())
    }
}

/// The characters held by a list of strings.
pub open spec fn texts(v: Seq<String>) -> Seq<Seq<char>> {
    v.map_values(|s: String| s@)
}

/// The characters of an optional string.
pub open spec fn opt_text(o: Option<String>) -> Option<Seq<char>> {
    match o {
        Some(s) => Some(s@),
        None => None,
    }
}

// ---------------------------------------------------------------------------
// Conversions
// ---------------------------------------------------------------------------

/// The characters of `s`, in order.
pub fn chars_of(s: &str) -> (v: Vec<char>)
    ensures
        v@ == s@,
{
    let mut v: Vec<char> = Vec::new();
    for c in it: s.chars()
        invariant
            it.seq() == s@,
            v@ == s@.take(it.index()),
    {
        v.push(c);
        proof {
            assert(s@.take(it.index() + 1) =~= s@.take(it.index()).push(c));
        }
    }
    proof {
        assert(s@.take(s@.len() as int) =~= s@);
    }
    v
}

/// The string made of `chars[from..to]`.
pub fn string_of(chars: &Vec<char>, from: usize, to: usize) -> (s: String)
    requires
        from <= to <= chars@.len(),
    ensures
        s@ == chars@.subrange(from as int, to as int),
{
    let mut s: String = String::new();
    let mut i: usize = from;
    while i < to
        invariant
            from <= i <= to <= chars@.len(),
            s@ == chars@.subrange(from as int, i as int),
        decreases to - i,
    {
        s.push(chars[i]);
        proof {
            assert(chars@.subrange(from as int, i + 1) =~= chars@.subrange(from as int, i as int).push(chars@[i as int]));
        }
        i += 1;
    }
    s
}

/// The string made of all of `chars`.
pub fn whole_string(chars: &Vec<char>) -> (s: String)
    ensures
        s@ == chars@,
{
    let s: String = string_of(chars, 0, chars.len());
    proof {
        assert(chars@.subrange(0, chars@.len() as int) =~= chars@);
    }
    s
}

// ---------------------------------------------------------------------------
// Comparisons
// ---------------------------------------------------------------------------

pub fn same_chars(a: &Vec<char>, b: &Vec<char>) -> (r: bool)
    ensures
        r == (a@ == b@),
{
    if a.len() != b.len() {
        return false;
    }
    let mut i: usize = 0;
    while i < a.len()
        invariant
            i <= a@.len() == b@.len(),
            forall|j: int| 0 <= j < i ==> a@[j] == b@[j],
        decreases a@.len() - i,
    {
        if a[i] != b[i] {
            return false;
        }
        i += 1;
    }
    proof {
        assert(a@ =~= b@);
    }
    true
}

/// Whether two texts are equal.
pub fn same_text(a: &str, b: &str) -> (r: bool)
    ensures
        r == (a@ == b@),
{
    same_chars(&chars_of(a), &chars_of(b))
}

/// Whether two optional texts are equal.
pub fn same_opt(a: &Option<String>, b: &Option<String>) -> (r: bool)
    ensures
        r == (opt_text(*a) == opt_text(*b)),
{
    match (a, b) {
        (Some(x), Some(y)) => same_text(x.as_str(), y.as_str()),
        (None, None) => true,
        _ => false,
    }
}

pub fn lower_of(c: char) -> (r: char)
    ensures
        r == lower_char(c),
{
    if 'A' <= c && c <= 'Z' {
        (c as u8 + 32) as char
    } else {
        c
    }
}

pub fn lower_chars(s: &Vec<char>) -> (r: Vec<char>)
    ensures
        r@ == lower(s@),
{
    let mut r: Vec<char> = Vec::new();
    let mut i: usize = 0;
    while i < s.len()
        invariant
            i <= s@.len(),
            r@ == lower(s@.take(i as int)),
        decreases s@.len() - i,
    {
        r.push(lower_of(s[i]));
        proof {
            assert(lower(s@.take(i + 1)) =~= lower(s@.take(i as int)).push(lower_char(s@[i as int])));
        }
        i += 1;
    }
    proof {
        assert(s@.take(s@.len() as int) =~= s@);
    }
    r
}

/// The text with its ASCII letters in lower case.
pub fn ascii_lowercase(s: &str) -> (r: String)
    ensures
        r@ == lower(s@),
{
    whole_string(&lower_chars(&chars_of(s)))
}

/// Whether two texts are equal but for the case of ASCII letters.
pub fn eq_ignore_case(a: &str, b: &str) -> (r: bool)
    ensures
        r == same_ignoring_case(a@, b@),
{
    same_chars(&lower_chars(&chars_of(a)), &lower_chars(&chars_of(b)))
}

pub fn chars_at(s: &Vec<char>, p: &Vec<char>, at: usize) -> (r: bool)
    ensures
        r == occurs_at(s@, p@, at as int),
{
    let n: usize = s.len();
    if at > n || p.len() > n - at {
        return false;
    }
    let mut i: usize = 0;
    while i < p.len()
        invariant
            i <= p@.len(),
            n == s@.len(),
            at + p@.len() <= n,
            forall|j: int| 0 <= j < i ==> s@[at + j] == p@[j],
        decreases p@.len() - i,
    {
        if s[at + i] != p[i] {
            proof {
                assert(s@.subrange(at as int, at + p@.len())[i as int] != p@[i as int]);
            }
            return false;
        }
        i += 1;
    }
    proof {
        assert(s@.subrange(at as int, at + p@.len()) =~= p@);
    }
    true
}

/// Whether `s` begins with `p`.
pub fn starts_with(s: &str, p: &str) -> (r: bool)
    ensures
        r == is_prefix(p@, s@),
{
    chars_at(&chars_of(s), &chars_of(p), 0)
}

/// Whether `s` ends with `p`.
pub fn ends_with(s: &str, p: &str) -> (r: bool)
    ensures
        r == is_suffix(p@, s@),
{
    let sc: Vec<char> = chars_of(s);
    let pc: Vec<char> = chars_of(p);
    if pc.len() > sc.len() {
        return false;
    }
    chars_at(&sc, &pc, sc.len() - pc.len())
}

/// The least index at or after `from` at which `p` stands in `s`.
pub fn find_chars(s: &Vec<char>, p: &Vec<char>, from: usize) -> (r: Option<usize>)
    ensures
        match r {
            Some(i) => from <= i && occurs_at(s@, p@, i as int) && forall|j: int|
                from <= j < i ==> !occurs_at(s@, p@, j),
            None => forall|j: int| from <= j ==> !occurs_at(s@, p@, j),
        },
{
    let mut i: usize = from;
    while i <= s.len()
        invariant
            from <= i,
            forall|j: int| from <= j < i ==> !occurs_at(s@, p@, j),
        decreases s@.len() + 1 - i,
    {
        if chars_at(s, p, i) {
            return Some(i);
        }
        if i == s.len() {
            return None;
        }
        i += 1;
    }
    None
}

/// Whether `p` stands somewhere in `s`.
pub fn contains(s: &str, p: &str) -> (r: bool)
    ensures
        r == has_text(s@, p@),
{
    find_chars(&chars_of(s), &chars_of(p), 0).is_some()
}

/// Whether `c` is one of the characters of `s`.
pub fn contains_char(s: &str, c: char) -> (r: bool)
    ensures
        r == s@.contains(c),
{
    let v: Vec<char> = chars_of(s);
    let mut i: usize = 0;
    while i < v.len()
        invariant
            v@ == s@,
            i <= v@.len(),
            forall|j: int| 0 <= j < i ==> v@[j] != c,
        decreases v@.len() - i,
    {
        if v[i] == c {
            return true;
        }
        i += 1;
    }
    false
}

/// Whether `a` comes no later than `b` in the order of texts.
pub fn text_not_after(a: &str, b: &str) -> (r: bool)
    ensures
        r == text_le(a@, b@),
{
    let x: Vec<char> = chars_of(a);
    let y: Vec<char> = chars_of(b);
    let mut i: usize = 0;
    proof {
        assert(a@.skip(0) =~= a@);
        assert(b@.skip(0) =~= b@);
    }
    while i < x.len()
        invariant
            x@ == a@,
            y@ == b@,
            i <= x@.len(),
            i <= y@.len(),
            text_le(a@, b@) == text_le(a@.skip(i as int), b@.skip(i as int)),
        decreases x@.len() - i,
    {
        if i >= y.len() {
            return false;
        }
        if x[i] != y[i] {
            return x[i] < y[i];
        }
        proof {
            assert(a@.skip(i as int).drop_first() =~= a@.skip(i + 1));
            assert(b@.skip(i as int).drop_first() =~= b@.skip(i + 1));
        }
        i += 1;
    }
    true
}

/// The order of texts is total and two texts each not after the other are equal.
pub proof fn lemma_text_le_order(a: Seq<char>, b: Seq<char>)
    ensures
        text_le(a, b) || text_le(b, a),
        text_le(a, b) && text_le(b, a) ==> a == b,
        text_le(a, a),
    decreases a.len() + b.len(),
{
    if a.len() > 0 && b.len() > 0 && a[0] == b[0] {
        lemma_text_le_order(a.drop_first(), b.drop_first());
        if text_le(a, b) && text_le(b, a) {
            assert(a =~= seq![a[0]] + a.drop_first());
            assert(b =~= seq![b[0]] + b.drop_first());
        }
    }
    if a.len() == 0 && b.len() == 0 {
        assert(a =~= b);
    }
    lemma_text_le_reflexive(a);
}

pub proof fn lemma_text_le_reflexive(a: Seq<char>)
    ensures
        text_le(a, a),
    decreases a.len(),
{
    if a.len() > 0 {
        lemma_text_le_reflexive(a.drop_first());
    }
}

pub proof fn lemma_text_le_transitive(a: Seq<char>, b: Seq<char>, c: Seq<char>)
    requires
        text_le(a, b),
        text_le(b, c),
    ensures
        text_le(a, c),
    decreases a.len(),
{
    if a.len() > 0 && b.len() > 0 && c.len() > 0 && a[0] == b[0] && b[0] == c[0] {
        lemma_text_le_transitive(a.drop_first(), b.drop_first(), c.drop_first());
    }
}

// ---------------------------------------------------------------------------
// Building
// ---------------------------------------------------------------------------

/// `a` followed by `b`.
pub fn join2(a: &str, b: &str) -> (r: String)
    ensures
        r@ == a@ + b@,
{
    let mut r: String = a.to_string();
    r.append(b);
    r
}

/// `a`, `b` and `c`, one after the other.
pub fn join3(a: &str, b: &str, c: &str) -> (r: String)
    ensures
        r@ == a@ + b@ + c@,
{
    let mut r: String = a.to_string();
    r.append(b);
    r.append(c);
    r
}

/// `a`, `b`, `c` and `d`, one after the other.
pub fn join4(a: &str, b: &str, c: &str, d: &str) -> (r: String)
    ensures
        r@ == a@ + b@ + c@ + d@,
{
    let mut r: String = a.to_string();
    r.append(b);
    r.append(c);
    r.append(d);
    r
}

/// The decimal text of `n`.
pub fn decimal_text(n: u64) -> (r: String)
    ensures
        r@ == decimal(n as nat),
    decreases n,
{
    let digit: char = (48u8 + (n % 10) as u8) as char;
    if n < 10 {
        let mut r: String = String::new();
        r.push(digit);
        proof {
            assert(r@ =~= seq![digit_char(n as nat)]);
        }
        r
    } else {
        let mut r: String = decimal_text(n / 10);
        r.push(digit);
        r
    }
}

/// The decimal text of a signed number.
pub fn signed_text(n: i32) -> (r: String)
    ensures
        r@ == signed_decimal(n as int),
{
    if n < 0 {
        let magnitude: u64 = (-(n as i64)) as u64;
        let mut r: String = String::new();
        r.push('-');
        r.append(decimal_text(magnitude).as_str());
        proof {
            assert(r@ =~= signed_decimal(n as int));
        }
        r
    } else {
        decimal_text(n as u64)
    }
}

/// `s` without the run of `c` at its end.
pub fn trim_end_char(s: &str, c: char) -> (r: String)
    ensures
        r@ == without_trailing(s@, c),
{
    let v: Vec<char> = chars_of(s);
    let mut n: usize = v.len();
    proof {
        assert(s@.take(s@.len() as int) =~= s@);
    }
    while n > 0 && v[n - 1] == c
        invariant
            v@ == s@,
            n <= v@.len(),
            without_trailing(s@, c) == without_trailing(s@.take(n as int), c),
        decreases n,
    {
        proof {
            assert(s@.take(n as int).drop_last() =~= s@.take(n - 1));
        }
        n -= 1;
    }
    let r: String = string_of(&v, 0, n);
    proof {
        assert(s@.subrange(0, n as int) =~= s@.take(n as int));
    }
    r
}

/// `s` with every `from` replaced by `to`.
pub fn replace_char(s: &str, from: char, to: char) -> (r: String)
    ensures
        r@ == with_char_replaced(s@, from, to),
{
    let v: Vec<char> = chars_of(s);
    let mut r: String = String::new();
    let mut i: usize = 0;
    while i < v.len()
        invariant
            v@ == s@,
            i <= v@.len(),
            r@ == with_char_replaced(s@.take(i as int), from, to),
        decreases v@.len() - i,
    {
        r.push(if v[i] == from { to } else { v[i] });
        proof {
            assert(r@ =~= with_char_replaced(s@.take(i + 1), from, to));
        }
        i += 1;
    }
    proof {
        assert(s@.take(s@.len() as int) =~= s@);
    }
    r
}

// ---------------------------------------------------------------------------
// White space and upper case
// ---------------------------------------------------------------------------

/// A character has the Unicode property of white space.
pub open spec fn white_space(c: char) -> bool {
    ||| '\t' <= c && c <= '\r'
    ||| c == ' '
    ||| c == '\u{85}'
    ||| c == '\u{a0}'
    ||| c == '\u{1680}'
    ||| '\u{2000}' <= c && c <= '\u{200a}'
    ||| c == '\u{2028}'
    ||| c == '\u{2029}'
    ||| c == '\u{202f}'
    ||| c == '\u{205f}'
    ||| c == '\u{3000}'
}

/// A character ends a line: a line feed, a vertical tab, a form feed, a carriage return, the
/// next-line character, or the separator of lines or of paragraphs.
pub open spec fn ends_line(c: char) -> bool {
    ('\n' <= c && c <= '\r') || c == '\u{85}' || c == '\u{2028}' || c == '\u{2029}'
}

/// A text stands on one line.
pub open spec fn on_one_line(s: Seq<char>) -> bool {
    forall|i: int| 0 <= i < s.len() ==> !ends_line(#[trigger] s[i])
}

/// `char::is_whitespace`: whether a character has the Unicode property of white space, which is that
/// of the characters of [`white_space`].
pub assume_specification[ char::is_whitespace ](c: char) -> (r: bool)
    ensures
        r == white_space(c),
;

/// `s` without the white space at its start.
pub open spec fn trimmed_start(s: Seq<char>) -> Seq<char>
    decreases s.len(),
{
    if s.len() > 0 && white_space(s[0]) {
        trimmed_start(s.drop_first())
    } else {
        s
    }
}

/// `s` without the white space at its end.
pub open spec fn trimmed_end(s: Seq<char>) -> Seq<char>
    decreases s.len(),
{
    if s.len() > 0 && white_space(s.last()) {
        trimmed_end(s.drop_last())
    } else {
        s
    }
}

/// `s` without the white space at both ends.
pub open spec fn trimmed(s: Seq<char>) -> Seq<char> {
    trimmed_end(trimmed_start(s))
}

/// The text starts and ends with a printing character of ASCII.
pub open spec fn plain_ends(s: Seq<char>) -> bool {
    s.len() > 0 && '!' <= s[0] && s[0] <= '~' && '!' <= s.last() && s.last() <= '~'
}

/// The text without the white space at both ends.
pub fn trim(s: &str) -> (r: String)
    ensures
        r@ == trimmed(s@),
        plain_ends(s@) ==> trimmed(s@) == s@,
{
    let chars: Vec<char> = chars_of(s);
    let n: usize = chars.len();
    let mut from: usize = 0;
    proof {
        assert(s@.skip(0) =~= s@);
    }
    while from < n && chars[from].is_whitespace()
        invariant
            chars@ == s@,
            from <= n == chars@.len(),
            trimmed_start(s@) == trimmed_start(s@.skip(from as int)),
            plain_ends(s@) ==> from == 0,
        decreases n - from,
    {
        proof {
            assert(s@.skip(from as int).drop_first() =~= s@.skip(from + 1));
        }
        from += 1;
    }
    let mut to: usize = n;
    proof {
        assert(s@.subrange(from as int, n as int) =~= s@.skip(from as int));
    }
    while to > from && chars[to - 1].is_whitespace()
        invariant
            chars@ == s@,
            from <= to <= n == chars@.len(),
            trimmed(s@) == trimmed_end(s@.subrange(from as int, to as int)),
            plain_ends(s@) ==> from == 0 && to == n,
        decreases to - from,
    {
        proof {
            assert(s@.subrange(from as int, to as int).drop_last() =~= s@.subrange(
                from as int,
                to - 1,
            ));
        }
        to -= 1;
    }
    proof {
        assert(s@.subrange(0, n as int) =~= s@);
    }
    string_of(&chars, from, to)
}

/// The ASCII upper-case form of one character; other characters stay.
pub open spec fn upper_char(c: char) -> char {
    if 'a' <= c && c <= 'z' {
        ((c as u8) - 32) as u8 as char
    } else {
        c
    }
}

/// The ASCII upper-case form of a text.
pub open spec fn upper(s: Seq<char>) -> Seq<char> {
    s.map_values(|c: char| upper_char(c))
}

/// The text with its ASCII letters in upper case.
pub fn ascii_uppercase(s: &str) -> (r: String)
    ensures
        r@ == upper(s@),
{
    let chars: Vec<char> = chars_of(s);
    let mut r: String = String::new();
    let mut i: usize = 0;
    while i < chars.len()
        invariant
            chars@ == s@,
            i <= chars@.len(),
            r@ == upper(s@.take(i as int)),
        decreases chars@.len() - i,
    {
        let c: char = chars[i];
        r.push(
            if 'a' <= c && c <= 'z' {
                (c as u8 - 32) as char
            } else {
                c
            },
        );
        i += 1;
        proof {
            assert(r@ =~= upper(s@.take(i as int)));
        }
    }
    proof {
        assert(s@.take(s@.len() as int) =~= s@);
    }
    r
}

// ---------------------------------------------------------------------------
// Replacing
// ---------------------------------------------------------------------------

/// The least index at or after `from` at which `p` stands in `s`.
pub open spec fn find_index(s: Seq<char>, p: Seq<char>, from: int) -> Option<int>
    decreases s.len() - from,
{
    if from + p.len() > s.len() || from < 0 {
        None
    } else if occurs_at(s, p, from) {
        Some(from)
    } else if from >= s.len() {
        None
    } else {
        find_index(s, p, from + 1)
    }
}

/// The found index is the least one.
pub proof fn lemma_find_index(s: Seq<char>, p: Seq<char>, from: int)
    requires
        0 <= from,
    ensures
        match find_index(s, p, from) {
            Some(i) => from <= i && occurs_at(s, p, i) && forall|j: int|
                from <= j < i ==> !occurs_at(s, p, j),
            None => forall|j: int| from <= j ==> !occurs_at(s, p, j),
        },
    decreases s.len() - from,
{
    if from + p.len() <= s.len() && !occurs_at(s, p, from) && from < s.len() {
        lemma_find_index(s, p, from + 1);
    }
}

/// The least index at or after `from` at which `p` stands in `s`.
pub fn find_from(s: &Vec<char>, p: &Vec<char>, from: usize) -> (r: Option<usize>)
    ensures
        match r {
            Some(i) => find_index(s@, p@, from as int) == Some(i as int) && i + p@.len()
                <= s@.len(),
            None => find_index(s@, p@, from as int) is None,
        },
{
    proof {
        lemma_find_index(s@, p@, from as int);
    }
    let r: Option<usize> = find_chars(s, p, from);
    proof {
        if let Some(i) = r {
            if let Some(j) = find_index(s@, p@, from as int) {
                if i < j {
                    assert(!occurs_at(s@, p@, i as int));
                }
                if j < i {
                    assert(!occurs_at(s@, p@, j));
                }
            } else {
                assert(!occurs_at(s@, p@, i as int));
            }
        } else if let Some(j) = find_index(s@, p@, from as int) {
            assert(!occurs_at(s@, p@, j));
        }
    }
    r
}

/// `to` before every character of `s` and behind the last one.
pub open spec fn interleaved(s: Seq<char>, to: Seq<char>) -> Seq<char>
    decreases s.len(),
{
    if s.len() == 0 {
        to
    } else {
        interleaved(s.drop_last(), to) + seq![s.last()] + to
    }
}

/// `s` with every occurrence of `from` replaced by `to`, from the left. The empty text stands
/// between all characters and at both ends.
pub open spec fn replaced(s: Seq<char>, from: Seq<char>, to: Seq<char>) -> Seq<char>
    decreases s.len(),
{
    if from.len() == 0 {
        interleaved(s, to)
    } else {
        match find_index(s, from, 0) {
            Some(i) => if 0 <= i && i + from.len() <= s.len() {
                s.take(i) + to + replaced(s.skip(i + from.len()), from, to)
            } else {
                s
            },
            None => s,
        }
    }
}

/// The text with every occurrence of `from` replaced by `to`.
pub fn replace(s: &str, from: &str, to: &str) -> (r: String)
    ensures
        r@ == replaced(s@, from@, to@),
{
    let chars: Vec<char> = chars_of(s);
    let p: Vec<char> = chars_of(from);
    let mut r: String = String::new();
    let n: usize = chars.len();
    if p.len() == 0 {
        r.append(to);
        let mut i: usize = 0;
        proof {
            assert(r@ =~= interleaved(s@.take(0), to@));
        }
        while i < n
            invariant
                chars@ == s@,
                i <= n == chars@.len(),
                r@ == interleaved(s@.take(i as int), to@),
            decreases n - i,
        {
            r.push(chars[i]);
            r.append(to);
            proof {
                let next = s@.take(i + 1);
                assert(next.drop_last() =~= s@.take(i as int));
                assert(next.last() == s@[i as int]);
                assert(r@ =~= interleaved(next, to@));
            }
            i += 1;
        }
        proof {
            assert(s@.take(n as int) =~= s@);
        }
        return r;
    }
    let mut at: usize = 0;
    proof {
        assert(s@.skip(0) =~= s@);
        assert(r@ + replaced(s@, p@, to@) =~= replaced(s@, p@, to@));
    }
    loop
        invariant
            chars@ == s@,
            p@ == from@,
            p@.len() > 0,
            n == chars@.len(),
            at <= n,
            r@ + replaced(s@.skip(at as int), p@, to@) == replaced(s@, p@, to@),
        decreases n - at,
    {
        let ghost rest = s@.skip(at as int);
        let ghost before = r@;
        proof {
            lemma_find_skip(s@, p@, at as int, 0);
            lemma_find_index(s@, p@, at as int);
        }
        match find_from(&chars, &p, at) {
            None => {
                r.append(string_of(&chars, at, n).as_str());
                proof {
                    assert(rest =~= s@.subrange(at as int, n as int));
                }
                return r;
            },
            Some(i) => {
                r.append(string_of(&chars, at, i).as_str());
                r.append(to);
                proof {
                    assert(s@.subrange(at as int, i as int) =~= rest.take(i - at));
                    assert(rest.skip(i - at + p@.len()) =~= s@.skip(i + p@.len()));
                    assert(r@ + replaced(s@.skip(i + p@.len()), p@, to@) =~= before + (rest.take(
                        i - at,
                    ) + to@ + replaced(s@.skip(i + p@.len()), p@, to@)));
                }
                at = i + p.len();
            },
        }
    }
}

/// Looking in the rest of a text is looking in the text from there on.
pub proof fn lemma_find_skip(s: Seq<char>, p: Seq<char>, at: int, from: int)
    requires
        0 <= at <= s.len(),
        0 <= from,
    ensures
        find_index(s.skip(at), p, from) == match find_index(s, p, at + from) {
            Some(i) => Some(i - at),
            None => None,
        },
    decreases s.len() - at - from,
{
    let rest = s.skip(at);
    if at + from + p.len() <= s.len() {
        assert(rest.subrange(from, from + p.len()) =~= s.subrange(
            at + from,
            at + from + p.len(),
        ));
        if !occurs_at(rest, p, from) && from < rest.len() {
            lemma_find_skip(s, p, at, from + 1);
        }
    }
}

// ---------------------------------------------------------------------------
// Words
// ---------------------------------------------------------------------------

/// The words of the first `n` characters, with one space between them, and whether the last
/// character was white space or there was none.
pub open spec fn words_joined(s: Seq<char>, n: int) -> (Seq<char>, bool)
    decreases n,
{
    if n <= 0 {
        (seq![], true)
    } else {
        let before = words_joined(s, n - 1);
        let c = s[n - 1];
        if white_space(c) {
            (before.0, true)
        } else if before.1 && before.0.len() > 0 {
            (before.0.push(' ').push(c), false)
        } else {
            (before.0.push(c), false)
        }
    }
}

/// The words of a text with one space between them.
pub fn single_spaced(s: &str) -> (r: String)
    ensures
        r@ == words_joined(s@, s@.len() as int).0,
        on_one_line(r@),
{
    let chars: Vec<char> = chars_of(s);
    let mut r: String = String::new();
    let mut gap: bool = true;
    let mut any: bool = false;
    let mut i: usize = 0;
    proof {
        assert(r@ =~= seq![]);
    }
    while i < chars.len()
        invariant
            chars@ == s@,
            i <= chars@.len(),
            (r@, gap) == words_joined(s@, i as int),
            any == (r@.len() > 0),
            on_one_line(r@),
        decreases chars@.len() - i,
    {
        let c: char = chars[i];
        if c.is_whitespace() {
            gap = true;
        } else {
            if gap && any {
                r.push(' ');
            }
            r.push(c);
            gap = false;
            any = true;
        }
        i += 1;
    }
    r
}

/// The text in lower case, by the rules of Unicode.
pub uninterp spec fn unicode_lower(s: Seq<char>) -> Seq<char>;

/// `str::to_lowercase`: the text in lower case, by the rules of Unicode, which is
/// [`unicode_lower`].
#[verifier::external_body]
pub(crate) fn unicode_lowercase(s: &str) -> (r: String)
    ensures
        r@ == unicode_lower(s@),
{
    s.to_lowercase()
}

/// Different numbers have different decimal texts.
pub proof fn law_decimal_is_unique(a: nat, b: nat)
    requires
        decimal(a) == decimal(b),
    ensures
        a == b,
    decreases a,
{
    if a >= 10 && b >= 10 {
        let x = decimal(a);
        let y = decimal(b);
        assert(x.drop_last() =~= decimal(a / 10));
        assert(y.drop_last() =~= decimal(b / 10));
        law_decimal_is_unique(a / 10, b / 10);
        assert(x.last() == digit_char(a % 10) && y.last() == digit_char(b % 10));
        assert(a % 10 == b % 10);
    } else if a < 10 && b < 10 {
        assert(decimal(a)[0] == digit_char(a) && decimal(b)[0] == digit_char(b));
    } else if a < 10 {
        lemma_decimal_is_not_empty(b / 10);
        assert(decimal(b).len() == decimal(b / 10).len() + 1);
    } else {
        lemma_decimal_is_not_empty(a / 10);
        assert(decimal(a).len() == decimal(a / 10).len() + 1);
    }
}

proof fn lemma_decimal_is_not_empty(n: nat)
    ensures
        decimal(n).len() > 0,
    decreases n,
{
}

/// A decimal text holds digits alone, and gives the number back: ten times the number before its last
/// digit, and that digit.
pub proof fn law_decimal_has_digits(n: nat)
    ensures
        forall|i: int| 0 <= i < decimal(n).len() ==> is_digit(#[trigger] decimal(n)[i]),
        decimal(n).last() as int - '0' as int == n % 10,
        n >= 10 ==> decimal(n).drop_last() == decimal(n / 10),
        n < 10 ==> decimal(n).len() == 1,
    decreases n,
{
    if n >= 10 {
        law_decimal_has_digits(n / 10);
        assert(decimal(n).drop_last() =~= decimal(n / 10));
    }
}

/// Lower case changes the capital letters alone, each to the letter that stands as far behind `a` as
/// it stands behind `A`, and keeps the length.
pub proof fn law_lower_case(s: Seq<char>)
    ensures
        lower(s).len() == s.len(),
        forall|i: int|
            0 <= i < s.len() ==> {
                let (c, l) = (s[i], #[trigger] lower(s)[i]);
                if 'A' <= c && c <= 'Z' {
                    l as int - 'a' as int == c as int - 'A' as int
                } else {
                    l == c
                }
            },
        lower(lower(s)) == lower(s),
{
    assert(lower(lower(s)) =~= lower(s)) by {
        assert forall|i: int| 0 <= i < s.len() implies lower(lower(s))[i] == lower(s)[i] by {
            let c = s[i];
            assert(lower(s)[i] == lower_char(c));
        }
    }
}

/// What is joined to others on either side still stands in the whole.
pub proof fn law_joined_text_is_there(before: Seq<char>, middle: Seq<char>, after: Seq<char>)
    ensures
        has_text(before + middle + after, middle),
        has_text(before + middle, middle),
        has_text(middle + after, middle),
{
    let all = before + middle + after;
    assert(all.subrange(before.len() as int, before.len() as int + middle.len()) =~= middle);
    assert(occurs_at(all, middle, before.len() as int));
    let first = before + middle;
    assert(first.subrange(before.len() as int, before.len() as int + middle.len()) =~= middle);
    assert(occurs_at(first, middle, before.len() as int));
    let last = middle + after;
    assert(last.subrange(0, middle.len() as int) =~= middle);
    assert(occurs_at(last, middle, 0));
}

/// Trimming takes white space off both ends and nothing else, and leaves none there.
pub proof fn law_trimmed_text(s: Seq<char>)
    ensures
        trimmed(s).len() <= s.len(),
        trimmed(s).len() > 0 ==> !white_space(trimmed(s)[0]) && !white_space(trimmed(s).last()),
        s.len() > 0 && !white_space(s[0]) && !white_space(s.last()) ==> trimmed(s) == s,
        (forall|i: int| 0 <= i < s.len() ==> white_space(#[trigger] s[i])) ==> trimmed(s).len() == 0,
{
    lemma_trimmed_start(s);
    let t = trimmed_start(s);
    lemma_trimmed_end(t);
}

proof fn lemma_trimmed_start(s: Seq<char>)
    ensures
        trimmed_start(s).len() <= s.len(),
        trimmed_start(s) == s.skip(s.len() - trimmed_start(s).len()),
        trimmed_start(s).len() > 0 ==> !white_space(trimmed_start(s)[0]),
        s.len() > 0 && !white_space(s[0]) ==> trimmed_start(s) == s,
        (forall|i: int| 0 <= i < s.len() ==> white_space(#[trigger] s[i])) ==> trimmed_start(
            s,
        ).len() == 0,
    decreases s.len(),
{
    if s.len() > 0 && white_space(s[0]) {
        let rest = s.drop_first();
        lemma_trimmed_start(rest);
        assert(trimmed_start(s) =~= s.skip(s.len() - trimmed_start(s).len()));
        if forall|i: int| 0 <= i < s.len() ==> white_space(#[trigger] s[i]) {
            assert forall|i: int| 0 <= i < rest.len() implies white_space(#[trigger] rest[i]) by {
                assert(rest[i] == s[i + 1]);
            }
        }
    } else {
        assert(s.skip(0) =~= s);
        if s.len() > 0 {
            let c = s[0];
        }
    }
}

proof fn lemma_trimmed_end(s: Seq<char>)
    ensures
        trimmed_end(s).len() <= s.len(),
        trimmed_end(s) == s.take(trimmed_end(s).len() as int),
        trimmed_end(s).len() > 0 ==> !white_space(trimmed_end(s).last()),
        s.len() > 0 && !white_space(s.last()) ==> trimmed_end(s) == s,
    decreases s.len(),
{
    if s.len() > 0 && white_space(s.last()) {
        lemma_trimmed_end(s.drop_last());
        assert(trimmed_end(s) =~= s.take(trimmed_end(s).len() as int));
    } else {
        assert(s.take(s.len() as int) =~= s);
    }
}

/// A character that is taken off the end is there no more, and a text that does not end in it stays.
pub proof fn law_without_trailing(s: Seq<char>, c: char)
    ensures
        without_trailing(s, c).len() > 0 ==> without_trailing(s, c).last() != c,
        without_trailing(s, c).len() <= s.len(),
        without_trailing(s, c) == s.take(without_trailing(s, c).len() as int),
        without_trailing(s.push(c), c) == without_trailing(s, c),
        forall|i: int| without_trailing(s, c).len() <= i < s.len() ==> s[i] == c,
    decreases s.len(),
{
    assert(s.push(c).drop_last() =~= s);
    if s.len() > 0 && s.last() == c {
        law_without_trailing(s.drop_last(), c);
        assert(without_trailing(s, c) =~= s.take(without_trailing(s, c).len() as int));
        assert forall|i: int| without_trailing(s, c).len() <= i < s.len() implies s[i] == c by {
            if i < s.len() - 1 {
                assert(s.drop_last()[i] == s[i]);
            }
        }
    } else {
        assert(s.take(s.len() as int) =~= s);
    }
}

/// A character that is replaced is there no more, unless by itself, and all others stay in their
/// places.
pub proof fn law_char_is_replaced(s: Seq<char>, from: char, to: char)
    requires
        from != to,
    ensures
        with_char_replaced(s, from, to).len() == s.len(),
        !with_char_replaced(s, from, to).contains(from),
        forall|i: int|
            0 <= i < s.len() ==> #[trigger] with_char_replaced(s, from, to)[i] == if s[i] == from {
                to
            } else {
                s[i]
            },
{
}

/// Texts go by their first difference: one that another begins with comes before it.
pub proof fn law_text_order(a: Seq<char>, b: Seq<char>, c: char, d: char, x: Seq<char>, y: Seq<char>)
    requires
        c < d,
    ensures
        text_le(a, a + b),
        b.len() > 0 ==> !text_le(a + b, a),
        text_le(a + seq![c] + x, a + seq![d] + y),
        !text_le(a + seq![d] + y, a + seq![c] + x),
    decreases a.len(),
{
    if a.len() == 0 {
        assert(a + b =~= b);
        assert((a + seq![c] + x)[0] == c);
        assert((a + seq![d] + y)[0] == d);
    } else {
        let r = a.drop_first();
        law_text_order(r, b, c, d, x, y);
        assert((a + b).drop_first() =~= r + b);
        assert((a + b)[0] == a[0]);
        assert((a + seq![c] + x).drop_first() =~= r + seq![c] + x);
        assert((a + seq![d] + y).drop_first() =~= r + seq![d] + y);
        assert((a + seq![c] + x)[0] == a[0] && (a + seq![d] + y)[0] == a[0]);
    }
}

/// Upper case changes the small letters of ASCII alone, and makes no difference to lower case.
pub proof fn law_upper_case(s: Seq<char>)
    ensures
        upper(s).len() == s.len(),
        lower(upper(s)) == lower(s),
        upper(upper(s)) == upper(s),
        forall|i: int|
            0 <= i < s.len() ==> {
                let c = #[trigger] upper(s)[i];
                &&& !('a' <= c && c <= 'z')
                &&& !('a' <= s[i] && s[i] <= 'z') ==> c == s[i]
            },
{
    assert(lower(upper(s)) =~= lower(s));
    assert(upper(upper(s)) =~= upper(s));
}

/// A number below zero is written with a minus before its size, any other without one.
pub proof fn law_signed_decimal(n: int)
    ensures
        n < 0 ==> signed_decimal(n).len() > 0 && signed_decimal(n)[0] == '-' && signed_decimal(
            n,
        ).skip(1) == decimal((-n) as nat),
        n >= 0 ==> signed_decimal(n) == decimal(n as nat) && !signed_decimal(n).contains('-'),
{
    if n < 0 {
        assert(signed_decimal(n).skip(1) =~= decimal((-n) as nat));
    } else {
        law_decimal_has_digits(n as nat);
    }
}

/// Replacing changes nothing where the text does not occur, and else puts the other text in place of
/// its first occurrence and goes on behind it.
pub proof fn law_text_is_replaced(s: Seq<char>, from: Seq<char>, to: Seq<char>)
    requires
        from.len() > 0,
    ensures
        !has_text(s, from) ==> replaced(s, from, to) == s,
        forall|i: int|
            #[trigger] first_at(s, from, i) ==> replaced(s, from, to) == s.take(i) + to + replaced(
                s.skip(i + from.len()),
                from,
                to,
            ),
        has_text(s, from) ==> has_text(replaced(s, from, to), to),
{
    lemma_find_index(s, from, 0);
    match find_index(s, from, 0) {
        Some(k) => {
            assert(occurs_at(s, from, k));
            assert forall|i: int| #[trigger] first_at(s, from, i) implies i == k by {}
            law_joined_text_is_there(s.take(k), to, replaced(s.skip(k + from.len()), from, to));
        },
        None => {
            assert forall|i: int| !(#[trigger] occurs_at(s, from, i)) by {}
        },
    }
}

} // verus!
