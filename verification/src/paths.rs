//! Paths as text. A path is read as a list of components: a mark for the
//! root where the path begins with `/`, then the segments between the
//! slashes, without the empty ones and without `.`. Joining, taking the
//! last component and taking the parent are stated over that list.

use vstd::prelude::*;
use crate::text::{
    find_char, first_index_of, from_chars, lemma_first_index, lemma_first_index_absent,
    lemma_first_index_extend, sub_string, to_chars,
};

verus! {

/// A segment that counts as a component: not empty and not `.`.
pub open spec fn is_named(seg: Seq<char>) -> bool {
    seg.len() > 0 && seg != seq!['.']
}

/// The named segments of `s` from index `i` on, a segment being the text
/// between two slashes.
pub open spec fn named_segments(s: Seq<char>, i: int) -> Seq<Seq<char>>
    decreases s.len() - i,
{
    if i < 0 || i > s.len() {
        seq![]
    } else {
        let e = first_index_of(s, '/', i);
        let seg = s.subrange(i, e);
        let head = if is_named(seg) {
            seq![seg]
        } else {
            seq![]
        };
        if i <= e < s.len() {
            head + named_segments(s, e + 1)
        } else {
            head
        }
    }
}

/// The component that stands for the root.
pub open spec fn root_mark() -> Seq<char> {
    seq!['/']
}

/// Whether the path begins at the root.
pub open spec fn is_absolute(path: Seq<char>) -> bool {
    path.len() > 0 && path[0] == '/'
}

/// The components of a path.
pub open spec fn components_of(path: Seq<char>) -> Seq<Seq<char>> {
    (if is_absolute(path) {
        seq![root_mark()]
    } else {
        seq![]
    }) + named_segments(path, 0)
}

/// A component that names an entry: neither the root nor `..`.
pub open spec fn is_normal(c: Seq<char>) -> bool {
    c != root_mark() && c != seq!['.', '.']
}

/// The name of the entry that the path leads to: its last component, where
/// that names an entry.
pub open spec fn file_name_of(path: Seq<char>) -> Option<Seq<char>> {
    let cs = components_of(path);
    if cs.len() > 0 && is_normal(cs.last()) {
        Some(cs.last())
    } else {
        None
    }
}

/// `dir` with `name` below it. An absolute `name` stands for itself.
pub open spec fn join_spec(dir: Seq<char>, name: Seq<char>) -> Seq<char> {
    if is_absolute(name) {
        name
    } else if dir.len() == 0 || dir.last() == '/' {
        dir + name
    } else {
        dir + seq!['/'] + name
    }
}

/// The path that a list of components spells.
pub open spec fn render(cs: Seq<Seq<char>>) -> Seq<char>
    decreases cs.len(),
{
    if cs.len() == 0 {
        seq![]
    } else {
        join_spec(render(cs.drop_last()), cs.last())
    }
}

/// The path without its last component; `None` for the root and for the
/// empty path.
pub open spec fn parent_of(path: Seq<char>) -> Option<Seq<char>> {
    let cs = components_of(path);
    if cs.len() > 0 && cs.last() != root_mark() {
        Some(render(cs.drop_last()))
    } else {
        None
    }
}

/// Whether `base` leads to `path` or to a directory above it: the components
/// of `base` are the first components of `path`.
pub open spec fn starts_with_spec(path: Seq<char>, base: Seq<char>) -> bool {
    components_of(base).is_prefix_of(components_of(path))
}

/// The extension of a file name: what follows its last `.`, unless that is
/// the first character of the name.
pub open spec fn extension_of(name: Seq<char>) -> Option<Seq<char>> {
    let i = last_dot(name, name.len() as int);
    if i > 0 {
        Some(name.subrange(i + 1, name.len() as int))
    } else {
        None
    }
}

/// The index of the last `.` before index `j`; -1 where there is none.
pub open spec fn last_dot(s: Seq<char>, j: int) -> int
    decreases j,
{
    if j <= 0 || j > s.len() {
        -1
    } else if s[j - 1] == '.' {
        j - 1
    } else {
        last_dot(s, j - 1)
    }
}

/// A name that can stand below a directory: a named segment without a slash.
pub open spec fn is_entry_name(name: Seq<char>) -> bool {
    is_named(name) && !name.contains('/')
}

proof fn lemma_segments_join_slash(d: Seq<char>, n: Seq<char>, i: int)
    requires
        is_entry_name(n),
        0 <= i <= d.len(),
    ensures
        named_segments(d + seq!['/'] + n, i) == named_segments(d, i) + seq![n],
    decreases d.len() - i,
{
    let t = d + seq!['/'] + n;
    assert(d =~= t.subrange(0, d.len() as int));
    assert(t[d.len() as int] == '/');
    lemma_first_index(d, '/', i);
    lemma_first_index_extend(d, t, '/', i);
    let e = first_index_of(d, '/', i);
    assert(t.subrange(i, e) =~= d.subrange(i, e));
    if e < d.len() {
        lemma_segments_join_slash(d, n, e + 1);
    } else {
        let k: int = d.len() as int + 1;
        assert forall|j: int| k <= j < t.len() implies t[j] != '/' by {
            assert(t[j] == n[j - k]);
            assert(n.contains(n[j - k]));
        }
        lemma_first_index_absent(t, '/', k);
        assert(t.subrange(k, t.len() as int) =~= n);
        assert(named_segments(t, k) =~= seq![n]);
    }
}

proof fn lemma_segments_join_plain(d: Seq<char>, n: Seq<char>, i: int)
    requires
        is_entry_name(n),
        0 <= i <= d.len(),
        d.len() > 0,
        d.last() == '/',
    ensures
        named_segments(d + n, i) == named_segments(d, i) + seq![n],
    decreases d.len() - i,
{
    let t = d + n;
    assert(d =~= t.subrange(0, d.len() as int));
    if i < d.len() {
        lemma_first_index(d, '/', i);
        let e = first_index_of(d, '/', i);
        if e == d.len() {
            assert(d[d.len() - 1] != '/');
        }
        lemma_first_index_extend(d, t, '/', i);
        assert(t.subrange(i, e) =~= d.subrange(i, e));
        lemma_segments_join_plain(d, n, e + 1);
    } else {
        assert forall|j: int| i <= j < t.len() implies t[j] != '/' by {
            assert(t[j] == n[j - i]);
            assert(n.contains(n[j - i]));
        }
        lemma_first_index_absent(t, '/', i);
        lemma_first_index_absent(d, '/', i);
        assert(t.subrange(i, t.len() as int) =~= n);
        assert(d.subrange(i, i) =~= Seq::<char>::empty());
        assert(named_segments(t, i) =~= seq![n]);
        assert(named_segments(d, i) =~= Seq::<Seq<char>>::empty());
    }
}

/// Joining a name to a directory adds one component: the name.
pub proof fn lemma_components_join(dir: Seq<char>, name: Seq<char>)
    requires
        is_entry_name(name),
    ensures
        components_of(join_spec(dir, name)) == components_of(dir).push(name),
{
    assert(name[0] != '/') by {
        assert(name.contains(name[0]));
    }
    let t = join_spec(dir, name);
    if dir.len() == 0 {
        assert(t =~= name);
        assert forall|j: int| 0 <= j < t.len() implies t[j] != '/' by {
            assert(name.contains(name[j]));
        }
        lemma_first_index_absent(t, '/', 0);
        assert(t.subrange(0, t.len() as int) =~= name);
        lemma_first_index_absent(dir, '/', 0);
        assert(dir.subrange(0, 0) =~= Seq::<char>::empty());
        assert(components_of(t) =~= components_of(dir).push(name));
    } else if dir.last() == '/' {
        lemma_segments_join_plain(dir, name, 0);
        assert(t[0] == dir[0]);
        assert(components_of(t) =~= components_of(dir).push(name));
    } else {
        lemma_segments_join_slash(dir, name, 0);
        assert(t[0] == dir[0]);
        assert(components_of(t) =~= components_of(dir).push(name));
    }
}

/// The entry `name` below a directory has `name` for its file name.
pub proof fn lemma_file_name_join(dir: Seq<char>, name: Seq<char>)
    requires
        is_entry_name(name),
        name != seq!['.', '.'],
    ensures
        file_name_of(join_spec(dir, name)) == Some(name),
{
    lemma_components_join(dir, name);
    assert(name != root_mark()) by {
        if name == root_mark() {
            assert(name[0] == '/');
            assert(name.contains(name[0]));
        }
    }
}

/// The entry `name` below a directory lies below that directory: the
/// directory's path, as its components spell it, is the parent, and the
/// entry's path starts with the directory's.
pub proof fn lemma_parent_join(dir: Seq<char>, name: Seq<char>)
    requires
        is_entry_name(name),
    ensures
        parent_of(join_spec(dir, name)) == Some(render(components_of(dir))),
        starts_with_spec(join_spec(dir, name), dir),
{
    lemma_components_join(dir, name);
    let cs = components_of(join_spec(dir, name));
    assert(cs.drop_last() =~= components_of(dir));
    assert(name != root_mark()) by {
        if name == root_mark() {
            assert(name[0] == '/');
            assert(name.contains(name[0]));
        }
    }
    assert(components_of(dir) =~= cs.subrange(0, components_of(dir).len() as int));
}

/// Components as a path has them: the root's mark at most in front, and
/// every other component a name that can stand below a directory.
pub open spec fn well_formed(cs: Seq<Seq<char>>) -> bool {
    forall|i: int|
        0 <= i < cs.len() ==> (#[trigger] cs[i] == root_mark() && i == 0) || is_entry_name(cs[i])
}

proof fn lemma_segments_are_names(s: Seq<char>, i: int)
    requires
        0 <= i <= s.len(),
    ensures
        forall|k: int|
            0 <= k < named_segments(s, i).len() ==> is_entry_name(
                #[trigger] named_segments(s, i)[k],
            ),
    decreases s.len() - i,
{
    lemma_first_index(s, '/', i);
    let e = first_index_of(s, '/', i);
    let seg = s.subrange(i, e);
    assert(!seg.contains('/')) by {
        if seg.contains('/') {
            let j = choose|j: int| 0 <= j < seg.len() && seg[j] == '/';
            assert(s[i + j] == '/');
        }
    }
    let tail = if e < s.len() {
        named_segments(s, e + 1)
    } else {
        Seq::<Seq<char>>::empty()
    };
    if e < s.len() {
        lemma_segments_are_names(s, e + 1);
    }
    let all = named_segments(s, i);
    assert forall|k: int| 0 <= k < all.len() implies is_entry_name(#[trigger] all[k]) by {
        if is_named(seg) {
            assert(all =~= seq![seg] + tail);
            if k > 0 {
                assert(all[k] == tail[k - 1]);
            }
        } else {
            assert(all =~= tail);
        }
    }
}

/// The components of any path are well formed.
pub proof fn lemma_components_well_formed(path: Seq<char>)
    ensures
        well_formed(components_of(path)),
{
    lemma_segments_are_names(path, 0);
    let cs = components_of(path);
    assert forall|i: int| 0 <= i < cs.len() implies (#[trigger] cs[i] == root_mark() && i == 0)
        || is_entry_name(cs[i]) by {
        if is_absolute(path) {
            if i > 0 {
                assert(cs[i] == named_segments(path, 0)[i - 1]);
            }
        } else {
            assert(cs[i] == named_segments(path, 0)[i]);
        }
    }
}

/// A path that is spelled from well-formed components has those components.
pub proof fn lemma_render_components(cs: Seq<Seq<char>>)
    requires
        well_formed(cs),
    ensures
        components_of(render(cs)) == cs,
    decreases cs.len(),
{
    if cs.len() == 0 {
        let e = Seq::<char>::empty();
        lemma_first_index_absent(e, '/', 0);
        assert(e.subrange(0, 0) =~= e);
        assert(components_of(e) =~= cs);
    } else {
        let front = cs.drop_last();
        let last = cs.last();
        assert forall|i: int| 0 <= i < front.len() implies (#[trigger] front[i] == root_mark() && i
            == 0) || is_entry_name(front[i]) by {
            assert(front[i] == cs[i]);
        }
        lemma_render_components(front);
        if is_entry_name(last) {
            lemma_components_join(render(front), last);
            assert(components_of(render(cs)) =~= cs);
        } else {
            assert(cs.len() == 1);
            assert(last == root_mark());
            assert(front =~= Seq::<Seq<char>>::empty());
            let r = root_mark();
            assert(render(cs) == r);
            assert(first_index_of(r, '/', 0) == 0);
            assert(r.subrange(0, 0) =~= Seq::<char>::empty());
            lemma_first_index_absent(r, '/', 1);
            assert(r.subrange(1, 1) =~= Seq::<char>::empty());
            assert(named_segments(r, 1) =~= Seq::<Seq<char>>::empty());
            assert(named_segments(r, 0) =~= Seq::<Seq<char>>::empty());
            assert(components_of(r) =~= cs);
        }
    }
}

/// The parent of a path is spelled from components, so taking its
/// components and spelling them again gives the same path.
pub proof fn lemma_parent_is_spelled(path: Seq<char>)
    requires
        parent_of(path) is Some,
    ensures
        render(components_of(parent_of(path)->0)) == parent_of(path)->0,
{
    lemma_components_well_formed(path);
    let cs = components_of(path);
    let front = cs.drop_last();
    assert forall|i: int| 0 <= i < front.len() implies (#[trigger] front[i] == root_mark() && i
        == 0) || is_entry_name(front[i]) by {
        assert(front[i] == cs[i]);
    }
    lemma_render_components(front);
}


fn components_chars(v: &Vec<char>) -> (r: Vec<String>)
    ensures
        r.deep_view() == components_of(v@),
{
    let n = v.len();
    let mut acc: Vec<String> = Vec::new();
    if n > 0 && v[0] == '/' {
        let mut root: Vec<char> = Vec::new();
        root.push('/');
        let s = from_chars(&root);
        assert(s@ == root_mark());
        acc.push(s);
    }
    let ghost base = acc.deep_view();
    assert(base =~= if is_absolute(v@) {
        seq![root_mark()]
    } else {
        seq![]
    });
    let mut i: usize = 0;
    let mut done = false;
    while !done
        invariant
            i <= n,
            n == v.len(),
            base + named_segments(v@, 0) == acc.deep_view() + (if done {
                Seq::<Seq<char>>::empty()
            } else {
                named_segments(v@, i as int)
            }),
        decreases
                n - i + (if done {
                    0int
                } else {
                    1int
                }),
    {
        let e = find_char(v, '/', i);
        let ghost before = acc.deep_view();
        let named = e > i && !(e == i + 1 && v[i] == '.');
        proof {
            let seg = v@.subrange(i as int, e as int);
            if e == i + 1 && v@[i as int] == '.' {
                assert(seg =~= seq!['.']);
            }
            if named && seg == seq!['.'] {
                assert(seg.len() == 1);
                assert(seg[0] == '.');
            }
            assert(named == is_named(seg));
        }
        if named {
            let s = sub_string(v, i, e);
            acc.push(s);
            assert(acc.deep_view() =~= before + seq![v@.subrange(i as int, e as int)]);
        }
        if e < n {
            i = e + 1;
        } else {
            done = true;
        }
    }
    assert(acc.deep_view() =~= components_of(v@));
    acc
}

/// The components of a path.
pub fn components(path: &str) -> (r: Vec<String>)
    ensures
        r.deep_view() == components_of(path@),
{
    let v = to_chars(path);
    components_chars(&v)
}

fn is_root_mark(c: &Vec<char>) -> (r: bool)
    ensures
        r == (c@ == root_mark()),
{
    let r = c.len() == 1 && c[0] == '/';
    proof {
        if r {
            assert(c@ =~= root_mark());
        }
        if c@ == root_mark() {
            assert(c@.len() == 1 && c@[0] == '/');
        }
    }
    r
}

fn is_dot_dot(c: &Vec<char>) -> (r: bool)
    ensures
        r == (c@ == seq!['.', '.']),
{
    let r = c.len() == 2 && c[0] == '.' && c[1] == '.';
    proof {
        if r {
            assert(c@ =~= seq!['.', '.']);
        }
        if c@ == seq!['.', '.'] {
            assert(c@.len() == 2 && c@[0] == '.' && c@[1] == '.');
        }
    }
    r
}

/// The name of the entry that the path leads to; `None` where the path ends
/// in the root or in `..`, or is empty.
pub fn file_name(path: &str) -> (r: Option<String>)
    ensures
        r.deep_view() == file_name_of(path@),
{
    let mut cs = components(path);
    match cs.pop() {
        None => None,
        Some(last) => {
            assert(last@ == components_of(path@).last());
            let c = to_chars(last.as_str());
            if is_root_mark(&c) || is_dot_dot(&c) {
                None
            } else {
                Some(last)
            }
        },
    }
}

fn join_chars(dir: &Vec<char>, name: &Vec<char>) -> (r: Vec<char>)
    ensures
        r@ == join_spec(dir@, name@),
{
    let mut out: Vec<char> = Vec::new();
    if name.len() > 0 && name[0] == '/' {
        crate::text::push_range(&mut out, name, 0, name.len());
        assert(out@ =~= name@);
        return out;
    }
    crate::text::push_range(&mut out, dir, 0, dir.len());
    assert(out@ =~= dir@);
    if dir.len() > 0 && dir[dir.len() - 1] != '/' {
        out.push('/');
    }
    crate::text::push_range(&mut out, name, 0, name.len());
    assert(out@ =~= join_spec(dir@, name@));
    out
}

/// The path of `name` below `dir`: the two with one slash between them.
/// An absolute `name` stands for itself.
pub fn join_path(dir: &str, name: &str) -> (r: String)
    ensures
        r@ == join_spec(dir@, name@),
{
    let d = to_chars(dir);
    let n = to_chars(name);
    let out = join_chars(&d, &n);
    from_chars(&out)
}

fn render_components(cs: &Vec<String>, upto: usize) -> (r: Vec<char>)
    requires
        upto <= cs.len(),
    ensures
        r@ == render(cs.deep_view().take(upto as int)),
{
    let ghost all = cs.deep_view();
    let mut out: Vec<char> = Vec::new();
    let mut i: usize = 0;
    assert(all.take(0) =~= Seq::<Seq<char>>::empty());
    while i < upto
        invariant
            i <= upto <= cs.len(),
            all == cs.deep_view(),
            out@ == render(all.take(i as int)),
        decreases upto - i,
    {
        let c = to_chars(cs[i].as_str());
        proof {
            let t = all.take(i + 1);
            assert(t.drop_last() =~= all.take(i as int));
            assert(t.last() == c@);
        }
        out = join_chars(&out, &c);
        i += 1;
    }
    out
}

/// The path without its last component; `None` for the root and for the
/// empty path.
pub fn parent_dir(path: &str) -> (r: Option<String>)
    ensures
        r.deep_view() == parent_of(path@),
{
    let cs = components(path);
    if cs.len() == 0 {
        return None;
    }
    let last = to_chars(cs[cs.len() - 1].as_str());
    assert(last@ == components_of(path@).last());
    if is_root_mark(&last) {
        return None;
    }
    let out = render_components(&cs, cs.len() - 1);
    assert(cs.deep_view().take(cs.len() - 1) =~= components_of(path@).drop_last());
    Some(from_chars(&out))
}

/// The extension of a file name.
pub fn extension(name: &str) -> (r: Option<String>)
    ensures
        r.deep_view() == extension_of(name@),
{
    let v = to_chars(name);
    let mut j: usize = v.len();
    while j > 0 && v[j - 1] != '.'
        invariant
            j <= v.len(),
            last_dot(v@, v.len() as int) == last_dot(v@, j as int),
        decreases j,
    {
        j -= 1;
    }
    if j > 1 {
        Some(sub_string(&v, j, v.len()))
    } else {
        None
    }
}

/// Whether `base` leads to `path` or to a directory above it.
pub fn path_starts_with(path: &str, base: &str) -> (r: bool)
    ensures
        r == starts_with_spec(path@, base@),
{
    let p = components(path);
    let b = components(base);
    if b.len() > p.len() {
        return false;
    }
    let ghost ps = p.deep_view();
    let ghost bs = b.deep_view();
    let mut i: usize = 0;
    while i < b.len()
        invariant
            i <= b.len() <= p.len(),
            ps == p.deep_view(),
            bs == b.deep_view(),
            ps == components_of(path@),
            bs == components_of(base@),
            forall|k: int| 0 <= k < i ==> bs[k] == ps[k],
        decreases b.len() - i,
    {
        if !(b[i] == p[i]) {
            assert(b.deep_view()[i as int] == b@[i as int]@);
            assert(p.deep_view()[i as int] == p@[i as int]@);
            assert(!bs.is_prefix_of(ps)) by {
                if bs.is_prefix_of(ps) {
                    assert(bs[i as int] == ps.subrange(0, bs.len() as int)[i as int]);
                }
            }
            return false;
        }
        assert(b.deep_view()[i as int] == b@[i as int]@);
        assert(p.deep_view()[i as int] == p@[i as int]@);
        i += 1;
    }
    assert(bs =~= ps.subrange(0, bs.len() as int));
    true
}

} // verus!
