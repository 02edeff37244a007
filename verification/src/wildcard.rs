//! Patterns in which `*` stands for any run of characters.
use crate::text::{chars_at, chars_of, find_chars, first_at, occurs_at, same_text};
use vstd::prelude::*;

verus! {

/// `s` is `p` with each `*` replaced by some text.
pub open spec fn glob(p: Seq<char>, s: Seq<char>) -> bool
    decreases p.len(),
{
    if p.len() == 0 {
        s.len() == 0
    } else if p[0] == '*' {
        exists|k: int| 0 <= k <= s.len() && glob(p.drop_first(), #[trigger] s.skip(k))
    } else {
        s.len() > 0 && s[0] == p[0] && glob(p.drop_first(), s.drop_first())
    }
}

/// `p[from..to]` holds no `*`.
pub open spec fn star_free(p: Seq<char>, from: int, to: int) -> bool {
    forall|i: int| from <= i < to ==> p[i] != '*'
}

/// A star-free run at the start of a pattern stands for itself.
proof fn lemma_literal(p: Seq<char>, n: int, s: Seq<char>)
    requires
        0 <= n <= p.len(),
        star_free(p, 0, n),
    ensures
        glob(p, s) == (occurs_at(s, p.take(n), 0) && glob(p.skip(n), s.skip(n))),
    decreases n,
{
    if n == 0 {
        assert(p.skip(0) =~= p);
        assert(s.skip(0) =~= s);
        assert(s.subrange(0, 0) =~= p.take(0));
    } else {
        let p1 = p.drop_first();
        if s.len() > 0 && s[0] == p[0] {
            let s1 = s.drop_first();
            lemma_literal(p1, n - 1, s1);
            assert(p1.skip(n - 1) =~= p.skip(n));
            if n <= s.len() {
                assert(s1.skip(n - 1) =~= s.skip(n));
                assert(s.subrange(0, n) =~= seq![s[0]] + s1.subrange(0, n - 1));
                assert(p.take(n) =~= seq![p[0]] + p1.take(n - 1));
                assert(s.subrange(0, n).drop_first() =~= s1.subrange(0, n - 1));
                assert(p.take(n).drop_first() =~= p1.take(n - 1));
            }
        } else if s.len() > 0 && n <= s.len() {
            assert(s.subrange(0, n)[0] == s[0]);
            assert(p.take(n)[0] == p[0]);
        }
    }
}

/// A pattern that starts with `*` accepts a longer text wherever it accepts its tail.
proof fn lemma_star_absorbs(p: Seq<char>, s: Seq<char>, k: int)
    requires
        p.len() > 0,
        p[0] == '*',
        0 <= k <= s.len(),
        glob(p, s.skip(k)),
    ensures
        glob(p, s),
{
    let t = s.skip(k);
    let j = choose|j: int| 0 <= j <= t.len() && glob(p.drop_first(), #[trigger] t.skip(j));
    assert(t.skip(j) =~= s.skip(k + j));
    assert(glob(p.drop_first(), s.skip(k + j)));
}

/// After `*`, a last literal run must be the end of the text.
proof fn lemma_last_part(p: Seq<char>, s: Seq<char>)
    requires
        p.len() > 0,
        p[0] == '*',
        star_free(p, 1, p.len() as int),
    ensures
        glob(p, s) == occurs_at(s, p.drop_first(), s.len() - (p.len() - 1)),
{
    let q = p.drop_first();
    let n = q.len() as int;
    let at = s.len() - n;
    if glob(p, s) {
        let k = choose|k: int| 0 <= k <= s.len() && glob(q, #[trigger] s.skip(k));
        lemma_literal(q, n, s.skip(k));
        assert(q.skip(n).len() == 0);
        assert(k + n == s.len());
        assert(q.take(n) =~= q);
        assert(s.skip(k).subrange(0, n) =~= s.subrange(at, at + n));
    }
    if occurs_at(s, q, at) {
        let t = s.skip(at);
        lemma_literal(q, n, t);
        assert(t.subrange(0, n) =~= s.subrange(at, at + n));
        assert(q.take(n) =~= q);
        assert(glob(q.skip(n), t.skip(n)));
        assert(glob(q, s.skip(at)));
    }
}

/// After `*`, a literal run that is followed by another `*` may be taken where it first occurs.
proof fn lemma_middle_part(p: Seq<char>, n: int, s: Seq<char>, at: int)
    requires
        1 <= n < p.len(),
        p[0] == '*',
        p[n] == '*',
        star_free(p, 1, n),
        first_at(s, p.subrange(1, n), at),
    ensures
        glob(p, s) == glob(p.skip(n), s.skip(at + (n - 1))),
{
    let q = p.drop_first();
    let lit = p.subrange(1, n);
    assert(q.take(n - 1) =~= lit);
    assert(q.skip(n - 1) =~= p.skip(n));
    if glob(p, s) {
        let k = choose|k: int| 0 <= k <= s.len() && glob(q, #[trigger] s.skip(k));
        lemma_literal(q, n - 1, s.skip(k));
        assert(s.skip(k).subrange(0, n - 1) =~= s.subrange(k, k + (n - 1)));
        assert(occurs_at(s, lit, k));
        assert(at <= k);
        let t = s.skip(at + (n - 1));
        assert(s.skip(k).skip(n - 1) =~= t.skip(k - at));
        lemma_star_absorbs(p.skip(n), t, k - at);
    }
    if glob(p.skip(n), s.skip(at + (n - 1))) {
        lemma_literal(q, n - 1, s.skip(at));
        assert(s.skip(at).subrange(0, n - 1) =~= s.subrange(at, at + (n - 1)));
        assert(s.skip(at).skip(n - 1) =~= s.skip(at + (n - 1)));
        assert(glob(q, s.skip(at)));
    }
}

/// After `*`, a literal run that occurs nowhere fits nothing.
proof fn lemma_missing_part(p: Seq<char>, n: int, s: Seq<char>)
    requires
        1 <= n < p.len(),
        p[0] == '*',
        star_free(p, 1, n),
        forall|j: int| 0 <= j ==> !occurs_at(s, p.subrange(1, n), j),
    ensures
        !glob(p, s),
{
    let q = p.drop_first();
    let lit = p.subrange(1, n);
    assert(q.take(n - 1) =~= lit);
    if glob(p, s) {
        let k = choose|k: int| 0 <= k <= s.len() && glob(q, #[trigger] s.skip(k));
        lemma_literal(q, n - 1, s.skip(k));
        assert(s.skip(k).subrange(0, n - 1) =~= s.subrange(k, k + (n - 1)));
        assert(occurs_at(s, lit, k));
    }
}

/// A text that holds the pattern itself always fits: `*` stands for `*`.
pub proof fn law_pattern_matches_itself(p: Seq<char>)
    ensures
        glob(p, p),
    decreases p.len(),
{
    if p.len() > 0 {
        law_pattern_matches_itself(p.drop_first());
        assert(p.skip(1) =~= p.drop_first());
    }
}

/// A pattern without `*` fits itself alone.
pub proof fn law_literal_pattern(p: Seq<char>, s: Seq<char>)
    requires
        !p.contains('*'),
    ensures
        glob(p, s) == (p == s),
{
    let n = p.len() as int;
    assert(star_free(p, 0, n)) by {
        assert forall|i: int| 0 <= i < n implies p[i] != '*' by {
            assert(p.contains(p[i]));
        }
    }
    lemma_literal(p, n, s);
    assert(p.take(n) =~= p);
    assert(p.skip(n).len() == 0);
    if occurs_at(s, p, 0) && s.skip(n).len() == 0 {
        assert(s.subrange(0, n) =~= s);
    }
    if p == s {
        assert(s.subrange(0, n) =~= s);
        assert(s.skip(n).len() == 0);
    }
}

/// `*` fits every text.
pub proof fn law_lone_star(s: Seq<char>)
    ensures
        glob(seq!['*'], s),
{
    let p = seq!['*'];
    assert(s.skip(s.len() as int).len() == 0);
    assert(glob(p.drop_first(), s.skip(s.len() as int)));
}

/// The index of the first `*` at or after `from`, or the length.
fn next_star(p: &Vec<char>, from: usize) -> (r: usize)
    requires
        from <= p@.len(),
    ensures
        from <= r <= p@.len(),
        star_free(p@, from as int, r as int),
        r < p@.len() ==> p@[r as int] == '*',
{
    let mut i: usize = from;
    while i < p.len()
        invariant
            from <= i <= p@.len(),
            star_free(p@, from as int, i as int),
        decreases p@.len() - i,
    {
        if p[i] == '*' {
            return i;
        }
        i += 1;
    }
    i
}

fn slice_of(p: &Vec<char>, from: usize, to: usize) -> (r: Vec<char>)
    requires
        from <= to <= p@.len(),
    ensures
        r@ == p@.subrange(from as int, to as int),
{
    let mut r: Vec<char> = Vec::new();
    let mut i: usize = from;
    while i < to
        invariant
            from <= i <= to <= p@.len(),
            r@ == p@.subrange(from as int, i as int),
        decreases to - i,
    {
        r.push(p[i]);
        i += 1;
        proof {
            assert(r@ =~= p@.subrange(from as int, i as int));
        }
    }
    r
}

/// Whether the pattern `granted` covers `requested`.
pub fn wildcard_matches(granted: &str, requested: &str) -> (r: bool)
    ensures
        r == glob(granted@, requested@),
{
    let p: Vec<char> = chars_of(granted);
    let s: Vec<char> = chars_of(requested);
    let first: usize = next_star(&p, 0);
    if first == p.len() {
        proof {
            assert(!p@.contains('*')) by {
                if p@.contains('*') {
                    let i = choose|i: int| 0 <= i < p@.len() && p@[i] == '*';
                    assert(p@[i] != '*');
                }
            }
            law_literal_pattern(p@, s@);
        }
        return same_text(granted, requested);
    }
    let head: Vec<char> = slice_of(&p, 0, first);
    proof {
        lemma_literal(p@, first as int, s@);
        assert(p@.take(first as int) =~= head@);
    }
    if !chars_at(&s, &head, 0) {
        return false;
    }
    let mut star: usize = first;
    let mut at: usize = first;
    loop
        invariant
            p@ == granted@,
            s@ == requested@,
            star < p@.len(),
            p@[star as int] == '*',
            at <= s@.len(),
            glob(granted@, requested@) == glob(p@.skip(star as int), s@.skip(at as int)),
        decreases p@.len() - star,
    {
        let pattern_len: usize = p.len();
        let text_len: usize = s.len();
        let next: usize = next_star(&p, star + 1);
        let part: Vec<char> = slice_of(&p, star + 1, next);
        let ghost tail = p@.skip(star as int);
        let ghost rest = s@.skip(at as int);
        let ghost n = next - star;
        proof {
            assert(tail.subrange(1, n) =~= part@);
            assert(star_free(tail, 1, n));
        }
        if next == pattern_len {
            proof {
                lemma_last_part(tail, rest);
                assert(tail.drop_first() =~= part@);
            }
            if part.len() > text_len - at {
                return false;
            }
            let end: usize = text_len - part.len();
            proof {
                assert(rest.subrange(end - at, rest.len() as int) =~= s@.subrange(
                    end as int,
                    s@.len() as int,
                ));
            }
            return chars_at(&s, &part, end);
        }
        match find_chars(&s, &part, at) {
            None => {
                proof {
                    assert forall|j: int| 0 <= j implies !occurs_at(rest, part@, j) by {
                        if occurs_at(rest, part@, j) {
                            assert(rest.subrange(j, j + part@.len()) =~= s@.subrange(
                                at + j,
                                at + j + part@.len(),
                            ));
                            assert(occurs_at(s@, part@, at + j));
                        }
                    }
                    lemma_missing_part(tail, n, rest);
                }
                return false;
            },
            Some(found) => {
                proof {
                    let k = found - at;
                    assert(rest.subrange(k, k + part@.len()) =~= s@.subrange(
                        found as int,
                        found + part@.len(),
                    ));
                    assert forall|j: int| 0 <= j < k implies !occurs_at(rest, part@, j) by {
                        if occurs_at(rest, part@, j) {
                            assert(rest.subrange(j, j + part@.len()) =~= s@.subrange(
                                at + j,
                                at + j + part@.len(),
                            ));
                            assert(occurs_at(s@, part@, at + j));
                        }
                    }
                    lemma_middle_part(tail, n, rest, k);
                    assert(tail.skip(n) =~= p@.skip(next as int));
                    assert(rest.skip(k + (n - 1)) =~= s@.skip(found + part@.len()));
                }
                at = found + part.len();
                star = next;
            },
        }
    }
}

/// A pattern that ends in its only `*` fits exactly the texts that begin with what stands before it.
pub proof fn law_trailing_star(p: Seq<char>, s: Seq<char>)
    requires
        !p.contains('*'),
    ensures
        glob(p.push('*'), s) <==> p.len() <= s.len() && s.take(p.len() as int) == p,
    decreases p.len(),
{
    let all = p.push('*');
    if p.len() == 0 {
        assert(all.drop_first() =~= seq![]);
        assert(s.skip(s.len() as int).len() == 0);
        assert(glob(all.drop_first(), s.skip(s.len() as int)));
        assert(s.take(0) =~= p);
    } else {
        assert(p.contains(p[0]));
        let rest = p.drop_first();
        assert(all.drop_first() =~= rest.push('*'));
        assert forall|i: int| 0 <= i < rest.len() implies rest[i] != '*' by {
            assert(p.contains(p[i + 1]));
        }
        law_trailing_star(rest, s.drop_first());
        if s.len() > 0 {
            let tail = s.drop_first();
            if p.len() <= s.len() && s.take(p.len() as int) == p {
                assert(s.take(p.len() as int)[0] == s[0]);
                assert(tail.take(rest.len() as int) =~= rest) by {
                    assert forall|i: int| 0 <= i < rest.len() implies tail[i] == rest[i] by {
                        assert(s.take(p.len() as int)[i + 1] == p[i + 1]);
                    }
                }
            }
            if s[0] == p[0] && rest.len() <= tail.len() && tail.take(rest.len() as int) == rest {
                assert(s.take(p.len() as int) =~= p) by {
                    assert forall|i: int| 0 <= i < p.len() implies s[i] == p[i] by {
                        if i > 0 {
                            assert(tail.take(rest.len() as int)[i - 1] == rest[i - 1]);
                        }
                    }
                }
            }
        }
    }
}

/// A pattern with one `*` inside fits exactly the texts that begin with what stands before the star
/// and end, without overlap, with what stands behind it.
pub proof fn law_inner_star(head: Seq<char>, tail: Seq<char>, s: Seq<char>)
    requires
        !head.contains('*'),
        !tail.contains('*'),
    ensures
        glob(head.push('*') + tail, s) <==> {
            &&& head.len() + tail.len() <= s.len()
            &&& s.take(head.len() as int) == head
            &&& s.skip(s.len() - tail.len()) == tail
        },
{
    let p = head.push('*') + tail;
    let n = head.len() as int;
    assert(star_free(p, 0, n)) by {
        assert forall|i: int| 0 <= i < n implies p[i] != '*' by {
            assert(head.contains(head[i]));
        }
    }
    lemma_literal(p, n, s);
    assert(p.take(n) =~= head);
    let starred = p.skip(n);
    assert(starred.drop_first() =~= tail);
    assert(starred[0] == '*');
    if n <= s.len() {
        assert(s.subrange(0, n) =~= s.take(n));
        let t = s.skip(n);
        let m = t.len() - tail.len();
        if glob(starred, t) {
            let k = choose|k: int| 0 <= k <= t.len() && glob(starred.drop_first(), #[trigger] t.skip(k));
            law_literal_pattern(tail, t.skip(k));
            assert(k == m);
            assert(t.skip(m) =~= s.skip(s.len() - tail.len()));
        }
        if m >= 0 && s.skip(s.len() - tail.len()) == tail {
            assert(t.skip(m) =~= s.skip(s.len() - tail.len()));
            law_literal_pattern(tail, t.skip(m));
            assert(glob(starred.drop_first(), t.skip(m)));
        }
    }
}

} // verus!
