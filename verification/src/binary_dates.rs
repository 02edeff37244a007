//! The dates in a binary property list.
//!
//! A list is a table of objects. The reader starts at the root and follows the references of each
//! collection; a date that no reference leads to is never read.
use vstd::prelude::*;

verus! {

// ---------------------------------------------------------------------------
// Objects
// ---------------------------------------------------------------------------

/// The number in `n` bytes from `at` on, the most significant first.
pub open spec fn big_endian(data: Seq<u8>, at: int, n: int) -> int
    decreases n,
{
    if n <= 0 {
        0
    } else {
        big_endian(data, at, n - 1) * 256 + data[at + n - 1]
    }
}

/// The bits of the number of seconds from the start of the year 2001 back to the start of the year
/// zero, as a number in floating point.
pub const YEAR_ZERO_BITS: u64 = 0x422d_6788_8900_0000;

/// The bits of the number of seconds back to the start of the year -9999. Dates before that are an
/// error.
pub const FIRST_YEAR_BITS: u64 = 0x4256_0ad2_9f40_0000;

/// The bits of a date do not stand for one before the year zero. The uppermost bit is the sign, and
/// the others grow with the distance.
pub open spec fn date_bits_fit(bits: int) -> bool {
    let distance = bits - 0x8000_0000_0000_0000;
    !(YEAR_ZERO_BITS < distance <= FIRST_YEAR_BITS)
}

/// What the trailer of 32 bytes tells: where it starts, the sizes of offsets and of references, the
/// number of objects, the root, and where the table of offsets starts.
#[derive(Debug, Clone, Copy)]
pub struct ObjectTable {
    pub trailer: usize,
    pub offset_size: usize,
    pub reference_size: usize,
    pub count: usize,
    pub root: u64,
    pub start: usize,
}

/// A size that a number in a table can have.
pub open spec fn is_size(n: int) -> bool {
    n == 1 || n == 2 || n == 3 || n == 4 || n == 8
}

impl ObjectTable {
    /// The table is that of a list: it lies before the trailer.
    pub open spec fn is_of(self, data: Seq<u8>) -> bool {
        &&& self.trailer == data.len() - 32
        &&& self.offset_size == data[self.trailer + 6] && is_size(self.offset_size as int)
        &&& self.reference_size == data[self.trailer + 7] && is_size(self.reference_size as int)
        &&& self.count == big_endian(data, self.trailer + 8, 8)
        &&& self.root == big_endian(data, self.trailer + 16, 8)
        &&& self.start == big_endian(data, self.trailer + 24, 8)
        &&& self.start + self.count * self.offset_size <= self.trailer
    }

    /// Where the object with the number `k` stands.
    pub open spec fn offset(self, data: Seq<u8>, k: int) -> int {
        big_endian(data, self.start + k * self.offset_size, self.offset_size as int)
    }

    /// The number of entries of the collection at `at`, and where its references start. A number that
    /// does not fit the first byte stands behind it, with its size.
    pub open spec fn entries(self, data: Seq<u8>, at: int) -> (int, int) {
        if data[at] % 16 == 15 {
            let size = power_of_two((data[at + 1] % 4) as int);
            (big_endian(data, at + 2, size), at + 2 + size)
        } else {
            ((data[at] % 16) as int, at + 1)
        }
    }

    /// The number of references that the object at `at` holds, and where they start. An array has
    /// one for each entry and a dictionary two; other objects, and collections that are too large,
    /// have none.
    pub open spec fn references(self, data: Seq<u8>, at: int) -> (int, int) {
        let (n, start) = self.entries(data, at);
        let m = if data[at] / 16 == 10 {
            n
        } else if data[at] / 16 == 13 {
            2 * n
        } else {
            0
        };
        if at + m * self.reference_size <= self.trailer {
            (m, start)
        } else {
            (0, start)
        }
    }

    /// The reference with the number `j` among those that start at `start`.
    pub open spec fn reference(self, data: Seq<u8>, start: int, j: int) -> int {
        big_endian(data, start + j * self.reference_size, self.reference_size as int)
    }

    /// The object `k` refers to the object `c`.
    pub open spec fn refers(self, data: Seq<u8>, k: int, c: int) -> bool {
        let at = self.offset(data, k);
        let (m, start) = self.references(data, at);
        at < self.trailer && exists|j: int|
            0 <= j < m && #[trigger] self.reference(data, start, j) == c
    }

    /// References lead from the root along the objects of `path`.
    pub open spec fn is_path(self, data: Seq<u8>, path: Seq<int>) -> bool {
        &&& path.len() > 0
        &&& path[0] == self.root
        &&& forall|i: int| 0 <= i < path.len() ==> 0 <= #[trigger] path[i] < self.count
        &&& forall|i: int|
            0 < i < path.len() ==> self.refers(data, path[i - 1], #[trigger] path[i])
    }

    /// The object `k` is no date before the year zero.
    pub open spec fn object_fits(self, data: Seq<u8>, k: int) -> bool {
        let at = self.offset(data, k);
        at < self.trailer && data[at] == 0x33 ==> date_bits_fit(big_endian(data, at + 1, 8))
    }

    /// Every date that references lead to can be read and written again.
    pub open spec fn fits(self, data: Seq<u8>) -> bool {
        forall|path: Seq<int>| #[trigger]
            self.is_path(data, path) ==> self.object_fits(data, path.last())
    }
}

/// One, two, four or eight.
pub open spec fn power_of_two(n: int) -> int {
    if n == 0 {
        1
    } else if n == 1 {
        2
    } else if n == 2 {
        4
    } else {
        8
    }
}

/// Every date in a binary property list can be read and written again. Without a proper table nothing
/// is read.
pub open spec fn binary_dates_fit(data: Seq<u8>) -> bool {
    forall|t: ObjectTable| #[trigger] t.is_of(data) ==> t.fits(data)
}

// ---------------------------------------------------------------------------
// Reading numbers
// ---------------------------------------------------------------------------

proof fn lemma_big_endian_range(data: Seq<u8>, at: int, n: int)
    requires
        0 <= n <= 8,
    ensures
        0 <= big_endian(data, at, n),
        n == 0 ==> big_endian(data, at, n) == 0,
        n == 1 ==> big_endian(data, at, n) < 0x100,
        n == 2 ==> big_endian(data, at, n) < 0x1_0000,
        n == 3 ==> big_endian(data, at, n) < 0x100_0000,
        n == 4 ==> big_endian(data, at, n) < 0x1_0000_0000,
        n == 5 ==> big_endian(data, at, n) < 0x100_0000_0000,
        n == 6 ==> big_endian(data, at, n) < 0x1_0000_0000_0000,
        n == 7 ==> big_endian(data, at, n) < 0x100_0000_0000_0000,
        n == 8 ==> big_endian(data, at, n) < 0x1_0000_0000_0000_0000,
    decreases n,
{
    if n > 0 {
        lemma_big_endian_range(data, at, n - 1);
    }
}

fn number_at(data: &[u8], at: usize, n: usize) -> (r: u64)
    requires
        at + n <= data@.len(),
        n <= 8,
    ensures
        r == big_endian(data@, at as int, n as int),
{
    let total: usize = data.len();
    let mut r: u64 = 0;
    let mut i: usize = 0;
    while i < n
        invariant
            at + n <= data@.len() == total,
            i <= n <= 8,
            r == big_endian(data@, at as int, i as int),
        decreases n - i,
    {
        proof {
            lemma_big_endian_range(data@, at as int, i as int);
            lemma_big_endian_range(data@, at as int, i + 1);
            assert(big_endian(data@, at as int, i + 1) == big_endian(data@, at as int, i as int)
                * 256 + data@[at + i]);
        }
        r = r * 256 + data[at + i] as u64;
        i += 1;
    }
    r
}

fn size_is_valid(n: usize) -> (r: bool)
    ensures
        r == is_size(n as int),
{
    n == 1 || n == 2 || n == 3 || n == 4 || n == 8
}

/// The table of a list, where it has one.
fn read_table(data: &[u8]) -> (r: Option<ObjectTable>)
    ensures
        match r {
            Some(t) => t.is_of(data@),
            None => forall|t: ObjectTable| !#[trigger] t.is_of(data@),
        },
{
    let n: usize = data.len();
    if n < 32 {
        return None;
    }
    let trailer: usize = n - 32;
    let offset_size: usize = data[trailer + 6] as usize;
    let reference_size: usize = data[trailer + 7] as usize;
    if !size_is_valid(offset_size) || !size_is_valid(reference_size) {
        return None;
    }
    let count: u64 = number_at(data, trailer + 8, 8);
    let root: u64 = number_at(data, trailer + 16, 8);
    let start: u64 = number_at(data, trailer + 24, 8);
    proof {
        assert(0 <= count * offset_size <= count * 8) by (nonlinear_arith)
            requires
                0 <= offset_size <= 8,
                0 <= count,
        ;
        assert(count <= count * offset_size) by (nonlinear_arith)
            requires
                1 <= offset_size,
                0 <= count,
        ;
    }
    if (start as u128) + (count as u128) * (offset_size as u128) > trailer as u128 {
        return None;
    }
    Some(
        ObjectTable {
            trailer,
            offset_size,
            reference_size,
            count: count as usize,
            root,
            start: start as usize,
        },
    )
}

// ---------------------------------------------------------------------------
// Following references
// ---------------------------------------------------------------------------

fn object_offset(data: &[u8], t: ObjectTable, k: usize) -> (r: u64)
    requires
        t.is_of(data@),
        k < t.count,
    ensures
        r == t.offset(data@, k as int),
{
    let n: usize = data.len();
    proof {
        assert(0 <= k * t.offset_size && k * t.offset_size + t.offset_size <= t.count
            * t.offset_size) by (nonlinear_arith)
            requires
                0 <= k,
                k + 1 <= t.count,
                0 <= t.offset_size,
        ;
    }
    number_at(data, t.start + k * t.offset_size, t.offset_size)
}

fn object_is_fit(data: &[u8], t: ObjectTable, k: usize) -> (r: bool)
    requires
        t.is_of(data@),
        k < t.count,
    ensures
        r == t.object_fits(data@, k as int),
{
    let at: u64 = object_offset(data, t, k);
    if at >= t.trailer as u64 || data[at as usize] != 0x33 {
        return true;
    }
    let bits: u64 = number_at(data, at as usize + 1, 8);
    if bits < 0x8000_0000_0000_0000 {
        return true;
    }
    let distance: u64 = bits - 0x8000_0000_0000_0000;
    !(YEAR_ZERO_BITS < distance && distance <= FIRST_YEAR_BITS)
}

fn read_references(data: &[u8], t: ObjectTable, at: usize) -> (r: (usize, usize))
    requires
        t.is_of(data@),
        at < t.trailer,
    ensures
        (r.0 as int, r.1 as int) == t.references(data@, at as int),
        r.1 + r.0 * t.reference_size <= data@.len(),
{
    let n: usize = data.len();
    let b: u8 = data[at];
    let (entries, start): (u64, usize) = if b % 16 == 15 {
        let p: u8 = data[at + 1] % 4;
        let size: usize = if p == 0 {
            1
        } else if p == 1 {
            2
        } else if p == 2 {
            4
        } else {
            8
        };
        (number_at(data, at + 2, size), at + 2 + size)
    } else {
        ((b % 16) as u64, at + 1)
    };
    let m: u128 = if b / 16 == 10 {
        entries as u128
    } else if b / 16 == 13 {
        2 * (entries as u128)
    } else {
        0
    };
    proof {
        assert(m <= m * t.reference_size <= m * 8) by (nonlinear_arith)
            requires
                1 <= t.reference_size <= 8,
                0 <= m,
        ;
    }
    if at as u128 + m * (t.reference_size as u128) <= t.trailer as u128 {
        (m as usize, start)
    } else {
        (0, start)
    }
}

/// How many of the marks are not set.
spec fn unset(marks: Seq<bool>) -> nat
    decreases marks.len(),
{
    if marks.len() == 0 {
        0
    } else {
        unset(marks.drop_last()) + if marks.last() {
            0nat
        } else {
            1nat
        }
    }
}

proof fn lemma_set_one(marks: Seq<bool>, k: int)
    requires
        0 <= k < marks.len(),
        !marks[k],
    ensures
        unset(marks.update(k, true)) + 1 == unset(marks),
    decreases marks.len(),
{
    let next = marks.update(k, true);
    if k == marks.len() - 1 {
        assert(next.drop_last() =~= marks.drop_last());
    } else {
        assert(next.drop_last() =~= marks.drop_last().update(k, true));
        lemma_set_one(marks.drop_last(), k);
    }
}

/// References lead from the root to the object `k`.
spec fn reached(t: ObjectTable, data: Seq<u8>, k: int) -> bool {
    exists|path: Seq<int>| #[trigger] t.is_path(data, path) && path.last() == k
}

/// Every marked object is reached, and the open ones are marked.
spec fn sound(t: ObjectTable, data: Seq<u8>, marks: Seq<bool>, open: Seq<usize>) -> bool {
    &&& marks.len() == t.count
    &&& forall|k: int|
        0 <= k < marks.len() && #[trigger] marks[k] ==> reached(t, data, k)
    &&& forall|i: int| 0 <= i < open.len() ==> #[trigger] open[i] < marks.len() && marks[open[i] as int]
}

/// All objects that `k` refers to are marked.
spec fn followed(t: ObjectTable, data: Seq<u8>, marks: Seq<bool>, k: int) -> bool {
    forall|c: int| 0 <= c < t.count && #[trigger] t.refers(data, k, c) ==> marks[c]
}

/// Each marked object is open or has been followed.
spec fn complete(
    t: ObjectTable,
    data: Seq<u8>,
    marks: Seq<bool>,
    open: Seq<usize>,
    but: int,
) -> bool {
    forall|k: int|
        0 <= k < marks.len() && #[trigger] marks[k] && k != but && !open.contains(k as usize)
            ==> followed(t, data, marks, k)
}

proof fn lemma_path_is_marked(t: ObjectTable, data: Seq<u8>, marks: Seq<bool>, path: Seq<int>)
    requires
        marks.len() == t.count,
        t.root < t.count ==> marks[t.root as int],
        complete(t, data, marks, seq![], -1),
        t.is_path(data, path),
    ensures
        marks[path.last()],
    decreases path.len(),
{
    let n = path.len() - 1;
    assert(0 <= path[n] < t.count);
    if n > 0 {
        let front = path.drop_last();
        assert(front[0] == path[0]);
        assert forall|i: int| 0 <= i < front.len() implies 0 <= #[trigger] front[i] < t.count by {
            assert(front[i] == path[i]);
        }
        assert forall|i: int| 0 < i < front.len() implies t.refers(
            data,
            front[i - 1],
            #[trigger] front[i],
        ) by {
            assert(front[i] == path[i]);
            assert(front[i - 1] == path[i - 1]);
        }
        lemma_path_is_marked(t, data, marks, front);
        assert(front.last() == path[n - 1]);
        assert(0 <= path[n - 1] < t.count);
        assert(followed(t, data, marks, path[n - 1]));
        assert(t.refers(data, path[n - 1], path[n]));
    } else {
        assert(path[0] == t.root);
    }
}

proof fn lemma_path_grows(t: ObjectTable, data: Seq<u8>, k: int, c: int)
    requires
        reached(t, data, k),
        t.refers(data, k, c),
        0 <= c < t.count,
    ensures
        reached(t, data, c),
{
    let path = choose|path: Seq<int>| #[trigger] t.is_path(data, path) && path.last() == k;
    let longer = path.push(c);
    assert(longer[0] == path[0]);
    assert forall|i: int| 0 <= i < longer.len() implies 0 <= #[trigger] longer[i] < t.count by {
        if i < path.len() {
            assert(longer[i] == path[i]);
        }
    }
    assert forall|i: int| 0 < i < longer.len() implies t.refers(
        data,
        longer[i - 1],
        #[trigger] longer[i],
    ) by {
        assert(longer[i - 1] == path[i - 1]);
        if i < path.len() {
            assert(longer[i] == path[i]);
        }
    }
    assert(t.is_path(data, longer));
    assert(longer.last() == c);
}

/// Marks what the object `k` refers to, and opens what was not marked before.
fn follow(data: &[u8], t: ObjectTable, k: usize, marks: &mut Vec<bool>, open: &mut Vec<usize>)
    requires
        t.is_of(data@),
        k < t.count,
        old(marks)@[k as int],
        sound(t, data@, old(marks)@, old(open)@),
        complete(t, data@, old(marks)@, old(open)@, k as int),
    ensures
        sound(t, data@, final(marks)@, final(open)@),
        complete(t, data@, final(marks)@, final(open)@, -1),
        2 * unset(final(marks)@) + final(open)@.len() <= 2 * unset(old(marks)@) + old(open)@.len(),
        forall|i: int| 0 <= i < t.count && old(marks)@[i] ==> #[trigger] final(marks)@[i],
{
    let at: u64 = object_offset(data, t, k);
    if at >= t.trailer as u64 {
        return;
    }
    let n: usize = data.len();
    let (m, start): (usize, usize) = read_references(data, t, at as usize);
    let ghost first = 2 * unset(marks@) + open@.len();
    let ghost before = marks@;
    let mut j: usize = 0;
    let mut p: usize = start;
    while j < m
        invariant
            t.is_of(data@),
            k < t.count,
            at == t.offset(data@, k as int),
            at < t.trailer,
            (m as int, start as int) == t.references(data@, at as int),
            start + m * t.reference_size <= data@.len() == n,
            j <= m,
            p == start + j * t.reference_size,
            marks@.len() == t.count,
            marks@[k as int],
            sound(t, data@, marks@, open@),
            complete(t, data@, marks@, open@, k as int),
            2 * unset(marks@) + open@.len() <= first,
            forall|i: int| 0 <= i < t.count && before[i] ==> #[trigger] marks@[i],
            forall|i: int|
                0 <= i < j ==> {
                    let c = #[trigger] t.reference(data@, start as int, i);
                    0 <= c < t.count ==> marks@[c]
                },
        decreases m - j,
    {
        proof {
            assert(j * t.reference_size + t.reference_size <= m * t.reference_size)
                by (nonlinear_arith)
                requires
                    j + 1 <= m,
                    0 <= t.reference_size,
            ;
            assert((j + 1) * t.reference_size == j * t.reference_size + t.reference_size)
                by (nonlinear_arith);
        }
        let c: u64 = number_at(data, p, t.reference_size);
        proof {
            assert(c == t.reference(data@, start as int, j as int));
        }
        if c < t.count as u64 && !marks[c as usize] {
            let ghost (marks0, open0) = (marks@, open@);
            marks.set(c as usize, true);
            open.push(c as usize);
            proof {
                lemma_set_one(marks0, c as int);
                assert(t.references(data@, at as int).0 == m);
                assert(t.references(data@, at as int).1 == start);
                assert(t.refers(data@, k as int, c as int));
                lemma_path_grows(t, data@, k as int, c as int);
                assert forall|i: int| 0 <= i < marks@.len() && #[trigger] marks@[i] implies reached(
                    t,
                    data@,
                    i,
                ) by {
                    if i != c {
                        assert(marks0[i]);
                    }
                }
                assert forall|i: int|
                    0 <= i < marks@.len() && #[trigger] marks@[i] && i != k && !open@.contains(
                        i as usize,
                    ) implies followed(t, data@, marks@, i) by {
                    assert(open@[open0.len() as int] == c);
                    if i == c {
                        assert(open@.contains(i as usize));
                    } else {
                        if open0.contains(i as usize) {
                            let q = choose|q: int| 0 <= q < open0.len() && open0[q] == i;
                            assert(open@[q] == i);
                        }
                        assert(marks0[i]);
                        assert(followed(t, data@, marks0, i));
                    }
                }
            }
        }
        p += t.reference_size;
        j += 1;
    }
    proof {
        assert(followed(t, data@, marks@, k as int)) by {
            assert forall|c: int| 0 <= c < t.count && #[trigger] t.refers(
                data@,
                k as int,
                c,
            ) implies marks@[c] by {
                let i = choose|i: int| 0 <= i < m && #[trigger] t.reference(
                    data@,
                    start as int,
                    i,
                ) == c;
                assert(t.reference(data@, start as int, i) == c);
            }
        }
    }
}

/// The marks of all objects that references lead to.
fn mark_reached(data: &[u8], t: ObjectTable) -> (r: Vec<bool>)
    requires
        t.is_of(data@),
    ensures
        r@.len() == t.count,
        forall|k: int|
            0 <= k < t.count ==> #[trigger] r@[k] == reached(t, data@, k),
{
    let mut marks: Vec<bool> = Vec::new();
    let mut i: usize = 0;
    while i < t.count
        invariant
            i <= t.count,
            marks@.len() == i,
            forall|k: int| 0 <= k < i ==> !#[trigger] marks@[k],
        decreases t.count - i,
    {
        marks.push(false);
        i += 1;
    }
    let mut open: Vec<usize> = Vec::new();
    if t.root < t.count as u64 {
        marks.set(t.root as usize, true);
        open.push(t.root as usize);
        proof {
            let path = seq![t.root as int];
            assert(t.is_path(data@, path));
            assert(path.last() == t.root);
            assert(open@[0] == t.root);
            assert forall|k: int|
                0 <= k < marks@.len() && #[trigger] marks@[k] && k != -1 && !open@.contains(
                    k as usize,
                ) implies followed(t, data@, marks@, k) by {
                assert(k == t.root);
                assert(open@.contains(k as usize));
            }
        }
    }
    while open.len() > 0
        invariant
            t.is_of(data@),
            sound(t, data@, marks@, open@),
            complete(t, data@, marks@, open@, -1),
            t.root < t.count ==> marks@[t.root as int],
        decreases 2 * unset(marks@) + open@.len(),
    {
        let ghost open0 = open@;
        let last: usize = open.len() - 1;
        let k: usize = open[last];
        let _ = open.pop();
        proof {
            assert(marks@[open0[last as int] as int]);
            assert forall|i: int|
                0 <= i < marks@.len() && #[trigger] marks@[i] && i != k && !open@.contains(
                    i as usize,
                ) implies followed(t, data@, marks@, i) by {
                if open0.contains(i as usize) {
                    let q = choose|q: int| 0 <= q < open0.len() && open0[q] == i;
                    assert(q < last);
                    assert(open@[q] == i);
                }
            }
            assert forall|i: int| 0 <= i < open@.len() implies #[trigger] open@[i] < marks@.len()
                && marks@[open@[i] as int] by {
                assert(open@[i] == open0[i]);
            }
        }
        follow(data, t, k, &mut marks, &mut open);
    }
    proof {
        assert(open@ =~= seq![]);
        assert forall|k: int| 0 <= k < t.count implies #[trigger] marks@[k] == reached(t, data@, k) by {
            if reached(t, data@, k) {
                let path = choose|path: Seq<int>| #[trigger]
                    t.is_path(data@, path) && path.last() == k;
                lemma_path_is_marked(t, data@, marks@, path);
            }
        }
    }
    marks
}

/// Whether every date in a binary property list can be read and written again.
pub fn binary_dates_are_fit(data: &[u8]) -> (r: bool)
    ensures
        r == binary_dates_fit(data@),
{
    let t: ObjectTable = match read_table(data) {
        Some(t) => t,
        None => {
            return true;
        },
    };
    let marks: Vec<bool> = mark_reached(data, t);
    let mut k: usize = 0;
    while k < t.count
        invariant
            t.is_of(data@),
            k <= t.count == marks@.len(),
            forall|i: int|
                0 <= i < t.count ==> #[trigger] marks@[i] == reached(t, data@, i),
            forall|i: int| 0 <= i < k && #[trigger] marks@[i] ==> t.object_fits(data@, i),
        decreases t.count - k,
    {
        if marks[k] && !object_is_fit(data, t, k) {
            proof {
                let path = choose|path: Seq<int>| #[trigger]
                    t.is_path(data@, path) && path.last() == k;
                assert(t.is_path(data@, path));
                assert(!t.fits(data@));
            }
            return false;
        }
        k += 1;
    }
    proof {
        assert forall|path: Seq<int>| #[trigger] t.is_path(data@, path) implies t.object_fits(
            data@,
            path.last(),
        ) by {
            assert(0 <= path[path.len() - 1] < t.count);
            assert(reached(t, data@, path.last()));
            assert(marks@[path.last()]);
        }
        assert forall|u: ObjectTable| #[trigger] u.is_of(data@) implies u.fits(data@) by {
            assert(u == t);
        }
    }
    true
}

} // verus!
