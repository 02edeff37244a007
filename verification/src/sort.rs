//! Sorting by keys.
use crate::text::text_le;
use vstd::multiset::Multiset;
use vstd::prelude::*;

verus! {

/// The order of number sequences, first difference first.
pub open spec fn ints_le(a: Seq<int>, b: Seq<int>) -> bool
    decreases a.len(),
{
    if a.len() == 0 {
        true
    } else if b.len() == 0 {
        false
    } else if a[0] != b[0] {
        a[0] < b[0]
    } else {
        ints_le(a.drop_first(), b.drop_first())
    }
}

/// The order of keys, first different part first.
pub open spec fn key_le(a: Seq<Seq<int>>, b: Seq<Seq<int>>) -> bool
    decreases a.len(),
{
    if a.len() == 0 {
        true
    } else if b.len() == 0 {
        false
    } else if a[0] != b[0] {
        ints_le(a[0], b[0])
    } else {
        key_le(a.drop_first(), b.drop_first())
    }
}

/// A text as a part of a key.
pub open spec fn text_key(s: Seq<char>) -> Seq<int> {
    s.map_values(|c: char| c as int)
}

proof fn lemma_ints_le(a: Seq<int>, b: Seq<int>)
    ensures
        ints_le(a, b) || ints_le(b, a),
        ints_le(a, b) && ints_le(b, a) ==> a == b,
    decreases a.len() + b.len(),
{
    if a.len() > 0 && b.len() > 0 && a[0] == b[0] {
        lemma_ints_le(a.drop_first(), b.drop_first());
        assert(a =~= seq![a[0]] + a.drop_first());
        assert(b =~= seq![b[0]] + b.drop_first());
    }
    if a.len() == 0 && b.len() == 0 {
        assert(a =~= b);
    }
}

proof fn lemma_ints_le_transitive(a: Seq<int>, b: Seq<int>, c: Seq<int>)
    requires
        ints_le(a, b),
        ints_le(b, c),
    ensures
        ints_le(a, c),
    decreases a.len(),
{
    if a.len() > 0 && b.len() > 0 && c.len() > 0 && a[0] == b[0] && b[0] == c[0] {
        lemma_ints_le_transitive(a.drop_first(), b.drop_first(), c.drop_first());
    }
}

/// The order of keys is total, and two keys each not after the other are equal.
pub proof fn lemma_key_le(a: Seq<Seq<int>>, b: Seq<Seq<int>>)
    ensures
        key_le(a, b) || key_le(b, a),
        key_le(a, b) && key_le(b, a) ==> a == b,
    decreases a.len() + b.len(),
{
    if a.len() > 0 && b.len() > 0 {
        if a[0] == b[0] {
            lemma_key_le(a.drop_first(), b.drop_first());
            assert(a =~= seq![a[0]] + a.drop_first());
            assert(b =~= seq![b[0]] + b.drop_first());
        } else {
            lemma_ints_le(a[0], b[0]);
        }
    }
    if a.len() == 0 && b.len() == 0 {
        assert(a =~= b);
    }
}

pub proof fn lemma_key_le_transitive(a: Seq<Seq<int>>, b: Seq<Seq<int>>, c: Seq<Seq<int>>)
    requires
        key_le(a, b),
        key_le(b, c),
    ensures
        key_le(a, c),
    decreases a.len(),
{
    if a.len() > 0 && b.len() > 0 && c.len() > 0 {
        if a[0] == b[0] && b[0] == c[0] {
            lemma_key_le_transitive(a.drop_first(), b.drop_first(), c.drop_first());
        } else if a[0] != b[0] && b[0] != c[0] {
            lemma_ints_le_transitive(a[0], b[0], c[0]);
            if a[0] == c[0] {
                lemma_ints_le(a[0], b[0]);
            }
        }
    }
}

/// The order of texts is that of their keys.
pub proof fn lemma_text_key(a: Seq<char>, b: Seq<char>)
    ensures
        text_le(a, b) == ints_le(text_key(a), text_key(b)),
        text_key(a) == text_key(b) ==> a == b,
    decreases a.len(),
{
    if a.len() > 0 && b.len() > 0 {
        lemma_text_key(a.drop_first(), b.drop_first());
        assert(text_key(a).drop_first() =~= text_key(a.drop_first()));
        assert(text_key(b).drop_first() =~= text_key(b.drop_first()));
    }
    if text_key(a) == text_key(b) {
        assert(a.len() == text_key(a).len());
        assert(b.len() == text_key(b).len());
        assert forall|i: int| 0 <= i < a.len() implies a[i] == b[i] by {
            assert(text_key(a)[i] == a[i] as int);
            assert(text_key(b)[i] == b[i] as int);
        }
        assert(a =~= b);
    }
}

/// The comparison of keys with two parts, by the comparison of the parts.
pub proof fn lemma_key_of_two(a0: Seq<int>, a1: Seq<int>, b0: Seq<int>, b1: Seq<int>)
    ensures
        key_le(seq![a0, a1], seq![b0, b1]) == if a0 != b0 {
            ints_le(a0, b0)
        } else {
            a1 == b1 || ints_le(a1, b1)
        },
{
    let a = seq![a0, a1];
    let b = seq![b0, b1];
    assert(a.drop_first() =~= seq![a1]);
    assert(b.drop_first() =~= seq![b1]);
    assert(a.drop_first().drop_first() =~= seq![]);
    assert(b.drop_first().drop_first() =~= seq![]);
    reveal_with_fuel(key_le, 3);
}

/// The comparison of keys with three parts, by the comparison of the parts.
pub proof fn lemma_key_of_three(
    a0: Seq<int>,
    a1: Seq<int>,
    a2: Seq<int>,
    b0: Seq<int>,
    b1: Seq<int>,
    b2: Seq<int>,
)
    ensures
        key_le(seq![a0, a1, a2], seq![b0, b1, b2]) == if a0 != b0 {
            ints_le(a0, b0)
        } else {
            key_le(seq![a1, a2], seq![b1, b2])
        },
{
    let a = seq![a0, a1, a2];
    let b = seq![b0, b1, b2];
    assert(a.drop_first() =~= seq![a1, a2]);
    assert(b.drop_first() =~= seq![b1, b2]);
}

/// The comparison of single numbers as parts of keys.
pub proof fn lemma_number_key(a: int, b: int)
    ensures
        ints_le(seq![a], seq![b]) == (a <= b),
        (seq![a] == seq![b]) == (a == b),
{
    assert(seq![a].drop_first() =~= seq![]);
    assert(seq![b].drop_first() =~= seq![]);
    reveal_with_fuel(ints_le, 2);
    assert(seq![a][0] == a);
    assert(seq![b][0] == b);
}

/// An order of items by a key.
pub trait KeyOrder<T> {
    spec fn key(&self, item: T) -> Seq<Seq<int>>;

    fn not_after(&self, a: &T, b: &T) -> (r: bool)
        ensures
            r == key_le(self.key(*a), self.key(*b)),
    ;
}

/// The keys of a list.
pub open spec fn keys_of<T, O: KeyOrder<T>>(order: O, items: Seq<T>) -> Seq<Seq<Seq<int>>> {
    items.map_values(|t: T| order.key(t))
}

/// Keys in order.
pub open spec fn in_order(keys: Seq<Seq<Seq<int>>>) -> bool {
    forall|i: int, j: int| 0 <= i < j < keys.len() ==> key_le(#[trigger] keys[i], #[trigger] keys[j])
}

/// The items in the order of their keys.
pub fn sort_items<T, O: KeyOrder<T>>(order: &O, items: Vec<T>) -> (r: Vec<T>)
    ensures
        r@.to_multiset() == items@.to_multiset(),
        in_order(keys_of(*order, r@)),
{
    broadcast use vstd::multiset::group_multiset_axioms;

    let ghost all = items@.to_multiset();
    let mut rest: Vec<T> = items;
    let mut r: Vec<T> = Vec::new();
    proof {
        r@.to_multiset_ensures();
        assert(r@.to_multiset() =~= Multiset::empty());
        assert(Multiset::<T>::empty().add(rest@.to_multiset()) =~= rest@.to_multiset());
    }
    while rest.len() > 0
        invariant
            r@.to_multiset().add(rest@.to_multiset()) == all,
            in_order(keys_of(*order, r@)),
            forall|i: int, j: int|
                0 <= i < r@.len() && 0 <= j < rest@.len() ==> key_le(
                    order.key(#[trigger] r@[i]),
                    order.key(#[trigger] rest@[j]),
                ),
        decreases rest@.len(),
    {
        let mut least: usize = 0;
        let mut k: usize = 1;
        proof {
            lemma_key_le(order.key(rest@[0]), order.key(rest@[0]));
        }
        while k < rest.len()
            invariant
                least < k <= rest@.len(),
                forall|j: int|
                    0 <= j < k ==> key_le(order.key(rest@[least as int]), order.key(#[trigger] rest@[j])),
            decreases rest@.len() - k,
        {
            if !order.not_after(&rest[least], &rest[k]) {
                proof {
                    let old_key = order.key(rest@[least as int]);
                    let new_key = order.key(rest@[k as int]);
                    lemma_key_le(old_key, new_key);
                    lemma_key_le(new_key, new_key);
                    assert forall|j: int| 0 <= j < k implies key_le(
                        new_key,
                        order.key(#[trigger] rest@[j]),
                    ) by {
                        lemma_key_le_transitive(new_key, old_key, order.key(rest@[j]));
                    }
                }
                least = k;
            }
            k += 1;
        }
        let ghost before = rest@;
        let ghost sorted = r@;
        let item: T = rest.remove(least);
        r.push(item);
        proof {
            assert(before.to_multiset() =~= rest@.to_multiset().insert(item)) by {
                assert(rest@ =~= before.remove(least as int));
                before.to_multiset_ensures();
                assert(before.to_multiset().contains(item)) by {
                    assert(before.contains(before[least as int]));
                }
                assert(before.to_multiset().remove(item).insert(item) =~= before.to_multiset());
            }
            assert(r@.to_multiset() =~= sorted.to_multiset().insert(item)) by {
                sorted.to_multiset_ensures();
            }
            assert(r@.to_multiset().add(rest@.to_multiset()) =~= all);
            assert forall|i: int, j: int| 0 <= i < j < keys_of(*order, r@).len() implies key_le(
                #[trigger] keys_of(*order, r@)[i],
                #[trigger] keys_of(*order, r@)[j],
            ) by {
                if j < sorted.len() {
                    assert(keys_of(*order, sorted)[i] == keys_of(*order, r@)[i]);
                    assert(keys_of(*order, sorted)[j] == keys_of(*order, r@)[j]);
                } else {
                    assert(r@[i] == sorted[i]);
                    assert(before[least as int] == item);
                }
            }
            assert forall|i: int, j: int| 0 <= i < r@.len() && 0 <= j < rest@.len() implies key_le(
                order.key(#[trigger] r@[i]),
                order.key(#[trigger] rest@[j]),
            ) by {
                let old_j = if j < least {
                    j
                } else {
                    j + 1
                };
                assert(rest@[j] == before[old_j]);
                if i < sorted.len() {
                    assert(r@[i] == sorted[i]);
                }
            }
        }
    }
    proof {
        assert(rest@.to_multiset() =~= Multiset::empty()) by {
            rest@.to_multiset_ensures();
        }
        assert(r@.to_multiset().add(Multiset::empty()) =~= r@.to_multiset());
    }
    r
}

/// Two lists of keys in order that hold the same keys, each equally often, are equal.
pub proof fn law_order_is_unique(a: Seq<Seq<Seq<int>>>, b: Seq<Seq<Seq<int>>>)
    requires
        in_order(a),
        in_order(b),
        a.to_multiset() == b.to_multiset(),
    ensures
        a == b,
{
    let leq = |x: Seq<Seq<int>>, y: Seq<Seq<int>>| key_le(x, y);
    assert(vstd::relations::reflexive(leq)) by {
        assert forall|x: Seq<Seq<int>>| #[trigger] leq(x, x) by {
            lemma_key_le(x, x);
        }
    }
    assert(vstd::relations::antisymmetric(leq)) by {
        assert forall|x: Seq<Seq<int>>, y: Seq<Seq<int>>| #[trigger] leq(x, y) && #[trigger] leq(
            y,
            x,
        ) implies x == y by {
            lemma_key_le(x, y);
        }
    }
    assert(vstd::relations::transitive(leq)) by {
        assert forall|x: Seq<Seq<int>>, y: Seq<Seq<int>>, z: Seq<Seq<int>>| #[trigger]
            leq(x, y) && #[trigger] leq(y, z) implies leq(x, z) by {
            lemma_key_le_transitive(x, y, z);
        }
    }
    assert(vstd::relations::strongly_connected(leq)) by {
        assert forall|x: Seq<Seq<int>>, y: Seq<Seq<int>>| #[trigger] leq(x, y) || #[trigger] leq(
            y,
            x,
        ) by {
            lemma_key_le(x, y);
        }
    }
    assert(vstd::relations::sorted_by(a, leq));
    assert(vstd::relations::sorted_by(b, leq));
    vstd::seq_lib::lemma_sorted_unique(a, b, leq);
}

/// Lists with the same items, each equally often, give lists with the same images.
pub proof fn lemma_mapped_multiset<A, B>(a: Seq<A>, b: Seq<A>, f: spec_fn(A) -> B)
    requires
        a.to_multiset() == b.to_multiset(),
    ensures
        a.map_values(f).to_multiset() == b.map_values(f).to_multiset(),
    decreases a.len(),
{
    broadcast use vstd::multiset::group_multiset_axioms;

    a.to_multiset_ensures();
    b.to_multiset_ensures();
    if a.len() == 0 {
        assert(a.map_values(f) =~= b.map_values(f));
    } else {
        let x = a.last();
        assert(a.contains(a[a.len() - 1]));
        assert(b.to_multiset().count(x) > 0);
        assert(b.contains(x));
        let i = choose|i: int| 0 <= i < b.len() && b[i] == x;
        let a1 = a.drop_last();
        let b1 = b.remove(i);
        assert(a =~= a1.push(x));
        a1.to_multiset_ensures();
        assert(a1.to_multiset() =~= a.to_multiset().remove(x));
        lemma_mapped_multiset(a1, b1, f);
        let ma = a1.map_values(f);
        let mb = b.map_values(f);
        ma.to_multiset_ensures();
        mb.to_multiset_ensures();
        assert(a.map_values(f) =~= ma.push(f(x)));
        assert(mb.remove(i) =~= b1.map_values(f));
        assert(mb.contains(mb[i]));
        assert(mb.to_multiset() =~= mb.remove(i).to_multiset().insert(f(x)));
    }
}

/// Texts are ordered by their characters: the order of their keys is the order of the texts.
pub proof fn law_keys_order_texts(a: Seq<char>, b: Seq<char>)
    ensures
        ints_le(text_key(a), text_key(b)) <==> crate::text::text_le(a, b),
    decreases a.len(),
{
    if a.len() > 0 && b.len() > 0 {
        assert(text_key(a).drop_first() =~= text_key(a.drop_first()));
        assert(text_key(b).drop_first() =~= text_key(b.drop_first()));
        assert(text_key(a)[0] == a[0] as int && text_key(b)[0] == b[0] as int);
        law_keys_order_texts(a.drop_first(), b.drop_first());
    }
}

/// Keys go by their first part, and by the next where the first parts are the same.
pub proof fn law_first_part_comes_first(a: Seq<int>, b: Seq<int>, x: Seq<Seq<int>>, y: Seq<Seq<int>>)
    ensures
        a != b ==> (key_le(seq![a] + x, seq![b] + y) <==> ints_le(a, b)),
        a == b ==> (key_le(seq![a] + x, seq![b] + y) <==> key_le(x, y)),
{
    assert((seq![a] + x).drop_first() =~= x);
    assert((seq![b] + y).drop_first() =~= y);
    assert((seq![a] + x)[0] == a && (seq![b] + y)[0] == b);
}

} // verus!
