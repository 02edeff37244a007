//! UTF-16 texts.
use crate::text::chars_of;
use vstd::prelude::*;

verus! {

/// `char::from_u32`: the character with the given number, where there is one. Every number up to
/// `0x10ffff` outside the surrogate range is that of a character.
pub assume_specification[ char::from_u32 ](i: u32) -> (r: Option<char>)
    ensures
        match r {
            Some(c) => c as u32 == i,
            None => (0xd800 <= i && i <= 0xdfff) || i > 0x10ffff,
        },
;

proof fn lemma_char(c: char)
    ensures
        c as int == c as u32,
        0 <= c as int <= 0x10ffff,
        !(0xd800 <= c as int <= 0xdfff),
        c as int == 0 ==> c == '\0',
{
    vstd::utf8::char_is_scalar(c);
}

/// The largest number of units that are read of one text.
pub const MAX_WIDE_CHARS: usize = 8192;

/// The UTF-16 units of one character.
pub open spec fn units_of(c: char) -> Seq<u16> {
    let n = c as u32;
    if n < 0x10000 {
        seq![n as u16]
    } else {
        seq![(0xd800 + (n - 0x10000) / 0x400) as u16, (0xdc00 + (n - 0x10000) % 0x400) as u16]
    }
}

/// The UTF-16 units of a text.
pub open spec fn utf16(s: Seq<char>) -> Seq<u16>
    decreases s.len(),
{
    if s.len() == 0 {
        seq![]
    } else {
        units_of(s[0]) + utf16(s.drop_first())
    }
}

/// The numbers of the characters of a text.
pub open spec fn points(s: Seq<char>) -> Seq<int> {
    s.map_values(|c: char| c as int)
}

pub open spec fn is_high(u: u16) -> bool {
    0xd800 <= u && u <= 0xdbff
}

pub open spec fn is_low(u: u16) -> bool {
    0xdc00 <= u && u <= 0xdfff
}

/// The numbers of the characters that UTF-16 units stand for: a surrogate without its partner
/// stands for the replacement character.
pub open spec fn decoded(units: Seq<u16>) -> Seq<int>
    decreases units.len(),
{
    if units.len() == 0 {
        seq![]
    } else if !is_high(units[0]) && !is_low(units[0]) {
        seq![units[0] as int] + decoded(units.drop_first())
    } else if is_high(units[0]) && units.len() > 1 && is_low(units[1]) {
        seq![0x10000 + (units[0] - 0xd800) * 0x400 + (units[1] - 0xdc00)] + decoded(
            units.skip(2),
        )
    } else {
        seq![0xfffd] + decoded(units.drop_first())
    }
}

/// The units before the first zero, and no more than are read of one text.
pub open spec fn until_zero(units: Seq<u16>, from: int) -> Seq<u16>
    decreases units.len() - from,
{
    if from >= units.len() || from >= MAX_WIDE_CHARS || units[from] == 0 {
        units.take(from)
    } else {
        until_zero(units, from + 1)
    }
}

/// The UTF-16 units of a text, with a zero behind them.
pub fn to_wide(s: &str) -> (r: Vec<u16>)
    ensures
        r@ == utf16(s@).push(0),
{
    let chars: Vec<char> = chars_of(s);
    let mut r: Vec<u16> = Vec::new();
    let mut i: usize = 0;
    proof {
        assert(s@.skip(0) =~= s@);
    }
    while i < chars.len()
        invariant
            chars@ == s@,
            i <= chars@.len(),
            r@ + utf16(s@.skip(i as int)) == utf16(s@),
        decreases chars@.len() - i,
    {
        let c: char = chars[i];
        proof {
            lemma_char(c);
        }
        let n: u32 = c as u32;
        let ghost before = r@;
        if n < 0x10000 {
            r.push(n as u16);
        } else {
            let offset: u32 = n - 0x10000;
            proof {
                assert(offset / 0x400 < 0x400);
            }
            r.push((0xd800 + offset / 0x400) as u16);
            r.push((0xdc00 + offset % 0x400) as u16);
        }
        proof {
            assert(r@ =~= before + units_of(c));
            assert(s@.skip(i as int)[0] == c);
            assert(s@.skip(i as int).drop_first() =~= s@.skip(i + 1));
            assert(r@ + utf16(s@.skip(i + 1)) =~= before + (units_of(c) + utf16(s@.skip(i + 1))));
        }
        i += 1;
    }
    proof {
        assert(s@.skip(i as int).len() == 0);
        assert(r@ + utf16(s@.skip(i as int)) =~= r@);
    }
    r.push(0);
    r
}

/// The text of UTF-16 units up to the first zero; empty where there are none at all.
pub fn wide_to_string(units: Option<&[u16]>) -> (r: String)
    ensures
        points(r@) == match units {
            Some(u) => decoded(until_zero(u@, 0)),
            None => seq![],
        },
{
    let mut r: String = String::new();
    proof {
        assert(points(r@) =~= seq![]);
    }
    let u: &[u16] = match units {
        Some(u) => u,
        None => {
            return r;
        },
    };
    let mut len: usize = 0;
    while len < u.len() && len < MAX_WIDE_CHARS && u[len] != 0
        invariant
            len <= u@.len(),
            len <= MAX_WIDE_CHARS,
            until_zero(u@, 0) == until_zero(u@, len as int),
        decreases u@.len() - len,
    {
        len += 1;
    }
    let ghost body = u@.take(len as int);
    let mut i: usize = 0;
    proof {
        assert(body.skip(0) =~= body);
        assert(points(r@) + decoded(body) =~= decoded(body));
    }
    while i < len
        invariant
            i <= len <= u@.len(),
            len <= MAX_WIDE_CHARS,
            body == u@.take(len as int),
            points(r@) + decoded(body.skip(i as int)) == decoded(body),
        decreases len - i,
    {
        let first: u16 = u[i];
        let ghost rest = body.skip(i as int);
        let ghost before = r@;
        let surrogate: bool = 0xd800 <= first && first <= 0xdfff;
        let mut value: u32 = 0xfffd;
        let mut used: usize = 1;
        if !surrogate {
            value = first as u32;
        } else if first <= 0xdbff && i + 1 < len && 0xdc00 <= u[i + 1] && u[i + 1] <= 0xdfff {
            value = 0x10000 + (first as u32 - 0xd800) * 0x400 + (u[i + 1] as u32 - 0xdc00);
            used = 2;
        }
        proof {
            assert(rest[0] == first);
            assert(rest.drop_first() =~= body.skip(i + 1));
            if i + 1 < len {
                assert(rest[1] == u@[i + 1]);
                assert(rest.skip(2) =~= body.skip(i + 2));
            }
            assert(decoded(rest) == seq![value as int] + decoded(body.skip(i + used)));
        }
        match char::from_u32(value) {
            Some(c) => {
                r.push(c);
                proof {
                    lemma_char(c);
                    assert(points(r@) =~= points(before).push(value as int));
                }
            },
            None => {},
        }
        proof {
            assert(points(r@) =~= points(before) + seq![value as int]);
            assert(points(r@) + decoded(body.skip(i + used)) =~= points(before) + (seq![
                value as int,
            ] + decoded(body.skip(i + used))));
        }
        i += used;
    }
    proof {
        assert(body.skip(i as int).len() == 0);
        assert(points(r@) + decoded(body.skip(i as int)) =~= points(r@));
    }
    r
}

proof fn lemma_decode_one(c: char, rest: Seq<u16>)
    ensures
        decoded(units_of(c) + rest) == seq![c as int] + decoded(rest),
{
    lemma_char(c);
    let n = c as u32;
    let all = units_of(c) + rest;
    if n < 0x10000 {
        assert(all[0] == n as u16);
        assert(all.drop_first() =~= rest);
    } else {
        let o = n - 0x10000;
        assert(all[0] == (0xd800 + o / 0x400) as u16);
        assert(all[1] == (0xdc00 + o % 0x400) as u16);
        assert(all.skip(2) =~= rest);
        assert(o == (o / 0x400) * 0x400 + o % 0x400);
    }
}

proof fn lemma_decode_utf16(s: Seq<char>)
    ensures
        decoded(utf16(s)) == points(s),
    decreases s.len(),
{
    if s.len() == 0 {
        assert(points(s) =~= seq![]);
    } else {
        lemma_decode_utf16(s.drop_first());
        lemma_decode_one(s[0], utf16(s.drop_first()));
        assert(points(s) =~= seq![s[0] as int] + points(s.drop_first()));
    }
}

proof fn lemma_no_zero_units(s: Seq<char>)
    requires
        !s.contains('\0'),
    ensures
        forall|i: int| 0 <= i < utf16(s).len() ==> utf16(s)[i] != 0,
    decreases s.len(),
{
    if s.len() > 0 {
        assert(!s.drop_first().contains('\0')) by {
            if s.drop_first().contains('\0') {
                let i = choose|i: int| 0 <= i < s.drop_first().len() && s.drop_first()[i] == '\0';
                assert(s[i + 1] == '\0');
            }
        }
        lemma_no_zero_units(s.drop_first());
        assert(s.contains(s[0]));
        lemma_char(s[0]);
        let head = units_of(s[0]);
        let tail = utf16(s.drop_first());
        assert forall|i: int| 0 <= i < head.len() implies head[i] != 0 by {}
        assert forall|i: int| 0 <= i < utf16(s).len() implies utf16(s)[i] != 0 by {
            if i < head.len() {
                assert(utf16(s)[i] == head[i]);
            } else {
                assert(utf16(s)[i] == tail[i - head.len()]);
            }
        }
    }
}

proof fn lemma_until_zero(units: Seq<u16>, n: int, from: int)
    requires
        0 <= from <= n < units.len(),
        n <= MAX_WIDE_CHARS,
        units[n] == 0,
        forall|i: int| 0 <= i < n ==> units[i] != 0,
    ensures
        until_zero(units, from) == units.take(n),
    decreases n - from,
{
    if from < n {
        lemma_until_zero(units, n, from + 1);
    }
}

/// A text without a zero character that is short enough comes back from its UTF-16 form unchanged.
pub proof fn law_wide_round_trip(s: Seq<char>)
    requires
        !s.contains('\0'),
        utf16(s).len() <= MAX_WIDE_CHARS,
    ensures
        decoded(until_zero(utf16(s).push(0), 0)) == points(s),
{
    let units = utf16(s).push(0);
    let n = utf16(s).len() as int;
    lemma_no_zero_units(s);
    lemma_until_zero(units, n, 0);
    assert(units.take(n) =~= utf16(s));
    lemma_decode_utf16(s);
}

} // verus!
