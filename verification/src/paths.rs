//! Slash-separated paths as texts.
use crate::text::{chars_of, join2, join3, same_text, string_of, texts};
use vstd::prelude::*;

verus! {

/// `name` below `dir`; an absolute `name` stands alone.
pub open spec fn path_join(dir: Seq<char>, name: Seq<char>) -> Seq<char> {
    if dir.len() == 0 || (name.len() > 0 && name[0] == '/') {
        name
    } else if dir.last() == '/' {
        dir + name
    } else {
        dir + "/"@ + name
    }
}

/// `name` below `dir`; an absolute `name` stands alone.
pub fn join_path(dir: &str, name: &str) -> (r: String)
    ensures
        r@ == path_join(dir@, name@),
{
    let d: Vec<char> = chars_of(dir);
    let n: Vec<char> = chars_of(name);
    if d.len() == 0 || (n.len() > 0 && n[0] == '/') {
        name.to_string()
    } else if d[d.len() - 1] == '/' {
        join2(dir, name)
    } else {
        join3(dir, "/", name)
    }
}

/// The components of a path: what stands between its slashes, without empty parts and without `.`
/// anywhere but at the start.
pub open spec fn components(path: Seq<char>) -> Seq<Seq<char>>
    decreases path.len(),
{
    if path.len() == 0 {
        seq![]
    } else {
        let cut = last_slash(path, path.len() as int);
        let part = path.skip(cut);
        let before = if 0 < cut <= path.len() {
            path.take(cut - 1)
        } else {
            Seq::<char>::empty()
        };
        let head = components(before);
        if part.len() == 0 || (part == seq!['.'] && cut > 0) {
            head
        } else {
            head.push(part)
        }
    }
}

/// The index behind the last slash before `end`, or zero.
pub open spec fn last_slash(path: Seq<char>, end: int) -> int
    decreases end,
{
    if end <= 0 {
        0
    } else if path[end - 1] == '/' {
        end
    } else {
        last_slash(path, end - 1)
    }
}

/// The last component, unless it is `.` or `..`.
pub open spec fn file_name_of(path: Seq<char>) -> Option<Seq<char>> {
    let parts = components(path);
    if parts.len() == 0 || parts.last() == seq!['.'] || parts.last() == seq!['.', '.'] {
        None
    } else {
        Some(parts.last())
    }
}

/// The index of the last dot of a file name that separates an extension: none where there is no dot
/// behind the first character.
pub open spec fn extension_dot(name: Seq<char>, end: int) -> Option<int>
    decreases end,
{
    if end <= 1 {
        None
    } else if name[end - 1] == '.' {
        Some(end - 1)
    } else {
        extension_dot(name, end - 1)
    }
}

/// The part of a file name behind its last dot.
pub open spec fn extension_of(name: Seq<char>) -> Option<Seq<char>> {
    match extension_dot(name, name.len() as int) {
        Some(dot) => Some(name.skip(dot + 1)),
        None => None,
    }
}

/// The part of a file name before its last dot.
pub open spec fn stem_of(name: Seq<char>) -> Seq<char> {
    match extension_dot(name, name.len() as int) {
        Some(dot) => name.take(dot),
        None => name,
    }
}

/// The last component of a path.
pub fn file_name(path: &str) -> (r: Option<String>)
    ensures
        crate::text::opt_text(r) == file_name_of(path@),
{
    let chars: Vec<char> = chars_of(path);
    let mut end: usize = chars.len();
    proof {
        assert(chars@.take(chars@.len() as int) =~= chars@);
    }
    loop
        invariant
            chars@ == path@,
            end <= chars@.len(),
            file_name_of(path@) == file_name_of(path@.take(end as int)),
        decreases end,
    {
        if end == 0 {
            return None;
        }
        let ghost here = path@.take(end as int);
        let mut cut: usize = end;
        while cut > 0 && chars[cut - 1] != '/'
            invariant
                here == path@.take(end as int),
                chars@ == path@,
                cut <= end <= chars@.len(),
                last_slash(here, end as int) == last_slash(here, cut as int),
            decreases cut,
        {
            cut -= 1;
        }
        let part: String = string_of(&chars, cut, end);
        proof {
            assert(last_slash(here, end as int) == cut);
            assert(here.skip(cut as int) =~= part@);
            assert(here.len() == end);
        }
        let single: bool = end - cut == 1 && chars[cut] == '.';
        proof {
            assert(single == (part@ == seq!['.'])) by {
                if single {
                    assert(part@ =~= seq!['.']);
                }
                if part@ == seq!['.'] {
                    assert(part@[0] == '.');
                }
            }
        }
        if cut == end || (single && cut > 0) {
            proof {
                assert(cut > 0);
                assert(here.take(cut - 1) =~= path@.take(cut - 1));
                assert(components(here) == components(path@.take(cut - 1)));
            }
            end = cut - 1;
        } else {
            let double: bool = end - cut == 2 && chars[cut] == '.' && chars[cut + 1] == '.';
            proof {
                assert(double == (part@ == seq!['.', '.'])) by {
                    if double {
                        assert(part@ =~= seq!['.', '.']);
                    }
                    if part@ == seq!['.', '.'] {
                        assert(part@[0] == '.' && part@[1] == '.');
                    }
                }
                assert(components(here).last() == part@);
            }
            if single || double {
                return None;
            }
            return Some(part);
        }
    }
}

/// The index of the dot before the extension of a file name.
fn find_extension_dot(name: &Vec<char>) -> (r: Option<usize>)
    ensures
        match r {
            Some(i) => extension_dot(name@, name@.len() as int) == Some(i as int) && i < name@.len(),
            None => extension_dot(name@, name@.len() as int) is None,
        },
{
    let mut end: usize = name.len();
    while end > 1
        invariant
            end <= name@.len(),
            extension_dot(name@, name@.len() as int) == extension_dot(name@, end as int),
        decreases end,
    {
        if name[end - 1] == '.' {
            return Some(end - 1);
        }
        end -= 1;
    }
    None
}

/// The part of a file name behind its last dot.
pub fn extension(name: &str) -> (r: Option<String>)
    ensures
        crate::text::opt_text(r) == extension_of(name@),
{
    let chars: Vec<char> = chars_of(name);
    match find_extension_dot(&chars) {
        Some(dot) => {
            let n: usize = chars.len();
            let r: String = string_of(&chars, dot + 1, n);
            proof {
                assert(r@ =~= name@.skip(dot + 1));
            }
            Some(r)
        },
        None => None,
    }
}

/// The part of a file name before its last dot.
pub fn stem(name: &str) -> (r: String)
    ensures
        r@ == stem_of(name@),
{
    let chars: Vec<char> = chars_of(name);
    match find_extension_dot(&chars) {
        Some(dot) => {
            let r: String = string_of(&chars, 0, dot);
            proof {
                assert(r@ =~= name@.take(dot as int));
            }
            r
        },
        None => name.to_string(),
    }
}

fn components_before(chars: &Vec<char>, end: usize) -> (r: Vec<String>)
    requires
        end <= chars@.len(),
    ensures
        texts(r@) == components(chars@.take(end as int)),
    decreases end,
{
    let ghost here = chars@.take(end as int);
    if end == 0 {
        let r: Vec<String> = Vec::new();
        proof {
            assert(texts(r@) =~= components(here));
        }
        return r;
    }
    let mut cut: usize = end;
    while cut > 0 && chars[cut - 1] != '/'
        invariant
            here == chars@.take(end as int),
            cut <= end <= chars@.len(),
            last_slash(here, end as int) == last_slash(here, cut as int),
        decreases cut,
    {
        cut -= 1;
    }
    let part: String = string_of(chars, cut, end);
    let single: bool = end - cut == 1 && chars[cut] == '.';
    proof {
        assert(last_slash(here, end as int) == cut);
        assert(here.len() == end);
        assert(here.skip(cut as int) =~= part@);
        assert(single == (part@ == seq!['.'])) by {
            if single {
                assert(part@ =~= seq!['.']);
            }
            if part@ == seq!['.'] {
                assert(part@[0] == '.');
            }
        }
        if cut > 0 {
            assert(here.take(cut - 1) =~= chars@.take(cut - 1));
        } else {
            assert(chars@.take(0) =~= Seq::<char>::empty());
        }
    }
    let mut r: Vec<String> = components_before(
        chars,
        if cut > 0 {
            cut - 1
        } else {
            0
        },
    );
    if cut == end || (single && cut > 0) {
        return r;
    }
    let ghost before = r@;
    let ghost shown = part@;
    r.push(part);
    proof {
        assert(texts(r@) =~= texts(before).push(shown));
    }
    r
}

/// The components of a path.
pub fn components_of(path: &str) -> (r: Vec<String>)
    ensures
        texts(r@) == components(path@),
{
    let chars: Vec<char> = chars_of(path);
    let n: usize = chars.len();
    proof {
        assert(chars@.take(n as int) =~= chars@);
    }
    components_before(&chars, n)
}

/// A path starts at the root.
pub open spec fn is_rooted(path: Seq<char>) -> bool {
    path.len() > 0 && path[0] == '/'
}

/// Two texts are the same path: they have the same components and start at the same place.
pub open spec fn same_path(a: Seq<char>, b: Seq<char>) -> bool {
    components(a) == components(b) && is_rooted(a) == is_rooted(b)
}

fn rooted(path: &str) -> (r: bool)
    ensures
        r == is_rooted(path@),
{
    let chars: Vec<char> = chars_of(path);
    chars.len() > 0 && chars[0] == '/'
}

/// Whether two texts are the same path.
pub fn paths_equal(a: &str, b: &str) -> (r: bool)
    ensures
        r == same_path(a@, b@),
{
    let x: Vec<String> = components_of(a);
    let y: Vec<String> = components_of(b);
    proof {
        assert(components(a@).len() == x@.len());
        assert(components(b@).len() == y@.len());
    }
    if rooted(a) != rooted(b) || x.len() != y.len() {
        return false;
    }
    let mut i: usize = 0;
    while i < x.len()
        invariant
            i <= x@.len() == y@.len(),
            texts(x@) == components(a@),
            texts(y@) == components(b@),
            forall|j: int| 0 <= j < i ==> components(a@)[j] == components(b@)[j],
        decreases x@.len() - i,
    {
        proof {
            assert(components(a@)[i as int] == x@[i as int]@);
            assert(components(b@)[i as int] == y@[i as int]@);
        }
        if !same_text(x[i].as_str(), y[i].as_str()) {
            return false;
        }
        i += 1;
    }
    proof {
        assert(components(a@) =~= components(b@));
    }
    true
}

/// The components among the first `n` that are no `.` and no `..`.
pub open spec fn normal_parts(parts: Seq<Seq<char>>, n: int) -> Seq<Seq<char>>
    decreases n,
{
    if n <= 0 {
        seq![]
    } else {
        let head = normal_parts(parts, n - 1);
        if parts[n - 1] == seq!['.'] || parts[n - 1] == seq!['.', '.'] {
            head
        } else {
            head.push(parts[n - 1])
        }
    }
}

/// The directories that a path names before its last component.
pub open spec fn parent_parts(path: Seq<char>) -> Seq<Seq<char>> {
    normal_parts(components(path), components(path).len() - 1)
}

/// The directories that a path names before its last component.
pub fn parent_components(path: &str) -> (r: Vec<String>)
    ensures
        texts(r@) == parent_parts(path@),
{
    let parts: Vec<String> = components_of(path);
    let ghost shown = components(path@);
    let mut r: Vec<String> = Vec::new();
    let n: usize = parts.len();
    let mut i: usize = 0;
    proof {
        assert(shown.len() == n);
        assert(texts(r@) =~= normal_parts(shown, 0));
    }
    while n > 0 && i < n - 1
        invariant
            n == parts@.len(),
            shown == texts(parts@),
            i == 0 || i <= n - 1,
            texts(r@) == normal_parts(shown, i as int),
        decreases n - i,
    {
        let ghost before = r@;
        proof {
            assert(shown[i as int] == parts@[i as int]@);
            reveal_strlit(".");
            reveal_strlit("..");
            assert("."@ =~= seq!['.']);
            assert(".."@ =~= seq!['.', '.']);
        }
        if !same_text(parts[i].as_str(), ".") && !same_text(parts[i].as_str(), "..") {
            r.push(parts[i].clone());
            proof {
                assert(texts(r@) =~= texts(before).push(shown[i as int]));
            }
        }
        i += 1;
    }
    r
}

/// `name` is the last component of a path that ends in it.
pub proof fn law_joined_file_name(dir: Seq<char>, name: Seq<char>)
    requires
        name.len() > 0,
        !name.contains('/'),
        name != seq!['.'],
        name != seq!['.', '.'],
    ensures
        file_name_of(path_join(dir, name)) == Some(name),
{
    let path = path_join(dir, name);
    assert(name[0] != '/') by {
        assert(name.contains(name[0]));
    }
    reveal_strlit("/");
    let cut = path.len() - name.len();
    assert(cut > 0 ==> path[cut - 1] == '/');
    assert forall|i: int| cut <= i < path.len() implies path[i] != '/' by {
        assert(path[i] == name[i - cut]);
        assert(name.contains(name[i - cut]));
    }
    lemma_last_slash_is(path, path.len() as int, cut);
    assert(path.skip(cut) =~= name);
}

proof fn lemma_last_slash_is(path: Seq<char>, end: int, cut: int)
    requires
        0 <= cut <= end <= path.len(),
        cut > 0 ==> path[cut - 1] == '/',
        forall|i: int| cut <= i < end ==> path[i] != '/',
    ensures
        last_slash(path, end) == cut,
    decreases end - cut,
{
    if end > cut {
        lemma_last_slash_is(path, end - 1, cut);
    }
}

/// A file name of a stem without a dot and an extension without a dot splits into these two.
pub proof fn law_extension_splits(stem: Seq<char>, ext: Seq<char>)
    requires
        stem.len() > 0,
        !ext.contains('.'),
    ensures
        extension_of(stem + seq!['.'] + ext) == Some(ext),
        stem_of(stem + seq!['.'] + ext) == stem,
{
    let name = stem + seq!['.'] + ext;
    let dot = stem.len() as int;
    assert(name[dot] == '.');
    assert forall|i: int| dot < i < name.len() implies name[i] != '.' by {
        assert(name[i] == ext[i - dot - 1]);
        assert(ext.contains(ext[i - dot - 1]));
    }
    lemma_extension_dot_is(name, name.len() as int, dot);
    assert(name.skip(dot + 1) =~= ext);
    assert(name.take(dot) =~= stem);
}

proof fn lemma_extension_dot_is(name: Seq<char>, end: int, dot: int)
    requires
        0 < dot < end <= name.len(),
        name[dot] == '.',
        forall|i: int| dot < i < end ==> name[i] != '.',
    ensures
        extension_dot(name, end) == Some(dot),
    decreases end,
{
    if end - 1 > dot {
        lemma_extension_dot_is(name, end - 1, dot);
    }
}

/// A name that stands at the root replaces the directory; any other stands behind it, and in it.
pub proof fn law_joined_path(dir: Seq<char>, name: Seq<char>)
    ensures
        is_rooted(name) ==> path_join(dir, name) == name,
        dir.len() == 0 ==> path_join(dir, name) == name,
        ({
            let joined = path_join(dir, name);
            joined.len() >= name.len() && joined.skip(joined.len() - name.len()) == name
        }),
        dir.len() > 0 && !is_rooted(name) ==> {
            let joined = path_join(dir, name);
            &&& joined.len() > dir.len() || name.len() == 0
            &&& joined.take(dir.len() as int) == dir
            &&& is_rooted(joined) == is_rooted(dir)
            &&& dir.last() != '/' ==> joined[dir.len() as int] == '/'
        },
{
    reveal_strlit("/");
    let joined = path_join(dir, name);
    assert(joined.skip(joined.len() - name.len()) =~= name);
    if dir.len() > 0 && !is_rooted(name) {
        assert(joined.take(dir.len() as int) =~= dir);
    }
}

/// A slash at the end of a path changes nothing, and neither does one that is doubled there.
pub proof fn law_trailing_slash_is_nothing(path: Seq<char>)
    requires
        path.len() > 0,
    ensures
        same_path(path, path.push('/')),
        same_path(path, path),
{
    let longer = path.push('/');
    assert(last_slash(longer, longer.len() as int) == longer.len());
    assert(longer.take(longer.len() - 1) =~= path);
    assert(longer.skip(longer.len() as int).len() == 0);
}

/// A path without a slash has itself as its only part.
pub proof fn law_plain_name_is_one_part(name: Seq<char>)
    requires
        name.len() > 0,
        !name.contains('/'),
    ensures
        components(name) == seq![name],
        !is_rooted(name),
{
    lemma_no_slash_at_all(name, name.len() as int);
    assert(name.skip(0) =~= name);
    assert(components(Seq::<char>::empty()) =~= seq![]);
    assert(seq![].push(name) =~= seq![name]);
}

proof fn lemma_no_slash_at_all(name: Seq<char>, end: int)
    requires
        0 <= end <= name.len(),
        !name.contains('/'),
    ensures
        last_slash(name, end) == 0,
    decreases end,
{
    if end > 0 {
        assert(name.contains(name[end - 1]));
        lemma_no_slash_at_all(name, end - 1);
    }
}

/// The parts of a path that name something are all of them but those that stand for a directory itself
/// or for the one above.
pub proof fn law_parts_that_name_something(parts: Seq<Seq<char>>, n: int, part: Seq<char>)
    requires
        0 <= n <= parts.len(),
    ensures
        normal_parts(parts, n).len() <= n,
        normal_parts(parts, n).contains(part) <==> part != seq!['.'] && part != seq!['.', '.']
            && exists|i: int| 0 <= i < n && #[trigger] parts[i] == part,
    decreases n,
{
    if n > 0 {
        law_parts_that_name_something(parts, n - 1, part);
        let head = normal_parts(parts, n - 1);
        let all = normal_parts(parts, n);
        if head.contains(part) {
            let k = choose|k: int| 0 <= k < head.len() && head[k] == part;
            assert(all[k] == part);
        }
        if all.contains(part) {
            let k = choose|k: int| 0 <= k < all.len() && all[k] == part;
            if k < head.len() {
                assert(head[k] == part);
            } else {
                assert(parts[n - 1] == part);
            }
        }
        if parts[n - 1] == part && part != seq!['.'] && part != seq!['.', '.'] {
            assert(all[head.len() as int] == part);
        }
    }
}

} // verus!
