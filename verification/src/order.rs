//! The order of the entries of a directory: by path, character by
//! character. Entries are put in order by inserting them one by one, each
//! behind those that do not come after it.

use vstd::prelude::*;
use crate::model::{views_of, Node, NodeView};
use crate::text::{chars_lt, lex_le, lex_lt, to_chars};

verus! {

/// `s` with `x` put behind the last element that does not come after `x`,
/// provided `s` is in order.
pub open spec fn insert_by<T>(s: Seq<T>, x: T, le: spec_fn(T, T) -> bool) -> Seq<T>
    decreases s.len(),
{
    if s.len() == 0 {
        seq![x]
    } else if le(s.last(), x) {
        s.push(x)
    } else {
        insert_by(s.drop_last(), x, le).push(s.last())
    }
}

/// The elements of `s` in order; elements that count as equal keep the
/// order that they had.
pub open spec fn sort_by<T>(s: Seq<T>, le: spec_fn(T, T) -> bool) -> Seq<T>
    decreases s.len(),
{
    if s.len() == 0 {
        seq![]
    } else {
        insert_by(sort_by(s.drop_last(), le), s.last(), le)
    }
}

/// No element comes before one that is smaller.
pub open spec fn sorted_by<T>(s: Seq<T>, le: spec_fn(T, T) -> bool) -> bool {
    forall|i: int, j: int| 0 <= i < j < s.len() ==> #[trigger] le(s[i], s[j])
}

/// Any two elements can be compared, and the comparison is transitive.
pub open spec fn is_total_order<T>(le: spec_fn(T, T) -> bool) -> bool {
    &&& forall|a: T, b: T| #[trigger] le(a, b) || le(b, a)
    &&& forall|a: T, b: T, c: T| #[trigger] le(a, b) && #[trigger] le(b, c) ==> le(a, c)
}

/// The order of nodes by their paths.
pub open spec fn path_le() -> spec_fn(NodeView, NodeView) -> bool {
    |a: NodeView, b: NodeView| lex_le(a.path, b.path)
}

/// `s` with the node `x` put behind the last node whose path does not come
/// after the path of `x`.
pub open spec fn insert_by_path(s: Seq<NodeView>, x: NodeView) -> Seq<NodeView> {
    insert_by(s, x, path_le())
}

/// The nodes of `ns` in the order of their paths; nodes with one path keep
/// the order that they had.
pub open spec fn sort_by_path(ns: Seq<NodeView>) -> Seq<NodeView> {
    sort_by(ns, path_le())
}

/// No node comes before one whose path is smaller.
pub open spec fn sorted_by_path(s: Seq<NodeView>) -> bool {
    sorted_by(s, path_le())
}

/// Of two texts at most one comes strictly before the other.
pub proof fn lemma_lex_asymmetric(a: Seq<char>, b: Seq<char>)
    ensures
        !(lex_lt(a, b) && lex_lt(b, a)),
    decreases a.len(),
{
    if a.len() > 0 && b.len() > 0 && a[0] == b[0] {
        lemma_lex_asymmetric(a.drop_first(), b.drop_first());
    }
}

/// A text that comes before another comes before any third text, or the
/// third comes before the other.
pub proof fn lemma_lex_between(x: Seq<char>, y: Seq<char>, l: Seq<char>)
    requires
        lex_lt(x, y),
    ensures
        lex_lt(x, l) || lex_lt(l, y),
    decreases x.len(),
{
    if l.len() == 0 {
    } else if x.len() == 0 {
    } else if x[0] != y[0] {
    } else if l[0] != x[0] {
    } else {
        lemma_lex_between(x.drop_first(), y.drop_first(), l.drop_first());
    }
}

/// Two texts of which neither comes before the other are the same text.
pub proof fn lemma_lex_total(a: Seq<char>, b: Seq<char>)
    requires
        !lex_lt(a, b),
        !lex_lt(b, a),
    ensures
        a == b,
    decreases a.len(),
{
    if a.len() == 0 || b.len() == 0 {
        assert(a =~= b);
    } else {
        lemma_lex_total(a.drop_first(), b.drop_first());
        assert(a =~= seq![a[0]] + a.drop_first());
        assert(b =~= seq![b[0]] + b.drop_first());
    }
}

/// Coming strictly before is transitive.
pub proof fn lemma_lex_lt_transitive(a: Seq<char>, b: Seq<char>, c: Seq<char>)
    requires
        lex_lt(a, b),
        lex_lt(b, c),
    ensures
        lex_lt(a, c),
{
    lemma_lex_between(a, b, c);
    lemma_lex_asymmetric(b, c);
}

/// The order is transitive.
pub proof fn lemma_lex_le_transitive(a: Seq<char>, b: Seq<char>, c: Seq<char>)
    requires
        lex_le(a, b),
        lex_le(b, c),
    ensures
        lex_le(a, c),
{
    if lex_lt(c, a) {
        lemma_lex_between(c, a, b);
    }
}

/// Inserting keeps every element and adds the new one.
pub proof fn lemma_insert_multiset<T>(s: Seq<T>, x: T, le: spec_fn(T, T) -> bool)
    ensures
        insert_by(s, x, le).to_multiset() == s.to_multiset().insert(x),
        insert_by(s, x, le).len() == s.len() + 1,
    decreases s.len(),
{
    broadcast use vstd::seq_lib::group_to_multiset_ensures;

    if s.len() == 0 {
        assert(s =~= Seq::empty());
    } else if le(s.last(), x) {
    } else {
        lemma_insert_multiset(s.drop_last(), x, le);
        assert(s.drop_last().push(s.last()) =~= s);
        assert(insert_by(s, x, le).to_multiset() =~= s.to_multiset().insert(x));
    }
}

/// Sorting brings in no element that was not there.
pub proof fn lemma_sort_elements<T>(s: Seq<T>, le: spec_fn(T, T) -> bool)
    ensures
        forall|k: int| 0 <= k < sort_by(s, le).len() ==> s.contains(#[trigger] sort_by(s, le)[k]),
    decreases s.len(),
{
    if s.len() > 0 {
        let front = s.drop_last();
        lemma_sort_elements(front, le);
        lemma_insert_elements(sort_by(front, le), s.last(), le);
        let r = sort_by(s, le);
        assert forall|k: int| 0 <= k < r.len() implies s.contains(#[trigger] r[k]) by {
            if r[k] == s.last() {
                assert(s[s.len() - 1] == r[k]);
            } else {
                assert(sort_by(front, le).contains(r[k]));
                let m = choose|m: int|
                    0 <= m < sort_by(front, le).len() && sort_by(front, le)[m] == r[k];
                assert(front.contains(sort_by(front, le)[m]));
                let q = choose|q: int| 0 <= q < front.len() && front[q] == r[k];
                assert(s[q] == r[k]);
            }
        }
    }
}

/// Every element after an insertion is the new one or was there before.
pub proof fn lemma_insert_elements<T>(s: Seq<T>, x: T, le: spec_fn(T, T) -> bool)
    ensures
        forall|k: int|
            0 <= k < insert_by(s, x, le).len() ==> insert_by(s, x, le)[k] == x || s.contains(
                #[trigger] insert_by(s, x, le)[k],
            ),
    decreases s.len(),
{
    let r = insert_by(s, x, le);
    if s.len() == 0 {
    } else if le(s.last(), x) {
        assert forall|k: int| 0 <= k < r.len() implies r[k] == x || s.contains(#[trigger] r[k]) by {
            if k < s.len() {
                assert(s[k] == r[k]);
            }
        }
    } else {
        let front = s.drop_last();
        lemma_insert_elements(front, x, le);
        let f = insert_by(front, x, le);
        assert forall|k: int| 0 <= k < r.len() implies r[k] == x || s.contains(#[trigger] r[k]) by {
            if k < f.len() {
                assert(r[k] == f[k]);
                if f[k] != x {
                    let m = choose|m: int| 0 <= m < front.len() && front[m] == f[k];
                    assert(s[m] == f[k]);
                }
            } else {
                assert(r[k] == s[s.len() - 1]);
            }
        }
    }
}

/// Inserting into elements that are in order leaves them in order.
pub proof fn lemma_insert_sorted<T>(s: Seq<T>, x: T, le: spec_fn(T, T) -> bool)
    requires
        sorted_by(s, le),
        is_total_order(le),
    ensures
        sorted_by(insert_by(s, x, le), le),
        insert_by(s, x, le).len() == s.len() + 1,
        forall|k: int|
            0 <= k < insert_by(s, x, le).len() ==> insert_by(s, x, le)[k] == x || s.contains(
                #[trigger] insert_by(s, x, le)[k],
            ),
    decreases s.len(),
{
    let r = insert_by(s, x, le);
    if s.len() == 0 {
    } else if le(s.last(), x) {
        assert forall|i: int, j: int| 0 <= i < j < r.len() implies #[trigger] le(r[i], r[j]) by {
            if j == s.len() {
                if i < s.len() - 1 {
                    assert(le(s[i], s[s.len() - 1]));
                    assert(le(s[i], s.last()) && le(s.last(), x));
                }
            } else {
                assert(le(s[i], s[j]));
            }
        }
        assert forall|k: int| 0 <= k < r.len() implies r[k] == x || s.contains(#[trigger] r[k]) by {
            if k < s.len() {
                assert(s[k] == r[k]);
            }
        }
    } else {
        let front = s.drop_last();
        let last = s.last();
        assert(sorted_by(front, le)) by {
            assert forall|i: int, j: int| 0 <= i < j < front.len() implies #[trigger] le(
                front[i],
                front[j],
            ) by {
                assert(le(s[i], s[j]));
            }
        }
        lemma_insert_sorted(front, x, le);
        let f = insert_by(front, x, le);
        assert(le(last, x) || le(x, last));
        assert forall|i: int, j: int| 0 <= i < j < r.len() implies #[trigger] le(r[i], r[j]) by {
            if j == f.len() {
                assert(r[i] == f[i]);
                if f[i] != x {
                    assert(front.contains(f[i]));
                    let m = choose|m: int| 0 <= m < front.len() && front[m] == f[i];
                    assert(le(s[m], s[s.len() - 1]));
                }
            } else {
                assert(r[i] == f[i] && r[j] == f[j]);
                assert(le(f[i], f[j]));
            }
        }
        assert forall|k: int| 0 <= k < r.len() implies r[k] == x || s.contains(#[trigger] r[k]) by {
            if k < f.len() {
                assert(r[k] == f[k]);
                if f[k] != x {
                    let m = choose|m: int| 0 <= m < front.len() && front[m] == f[k];
                    assert(s[m] == f[k]);
                }
            } else {
                assert(r[k] == s[s.len() - 1]);
            }
        }
    }
}

/// Sorting puts the elements in order and neither adds nor loses one.
pub proof fn lemma_sort_by<T>(s: Seq<T>, le: spec_fn(T, T) -> bool)
    requires
        is_total_order(le),
    ensures
        sorted_by(sort_by(s, le), le),
        sort_by(s, le).to_multiset() == s.to_multiset(),
        sort_by(s, le).len() == s.len(),
    decreases s.len(),
{
    broadcast use vstd::seq_lib::group_to_multiset_ensures;

    if s.len() == 0 {
        assert(s =~= Seq::empty());
    } else {
        lemma_sort_by(s.drop_last(), le);
        lemma_insert_sorted(sort_by(s.drop_last(), le), s.last(), le);
        lemma_insert_multiset(sort_by(s.drop_last(), le), s.last(), le);
        assert(s.drop_last().push(s.last()) =~= s);
    }
}

/// The order of nodes by their paths compares any two nodes and is
/// transitive.
pub proof fn lemma_path_order()
    ensures
        is_total_order(path_le()),
{
    let le = path_le();
    assert forall|a: NodeView, b: NodeView| #[trigger] le(a, b) || le(b, a) by {
        lemma_lex_asymmetric(a.path, b.path);
    }
    assert forall|a: NodeView, b: NodeView, c: NodeView| #[trigger] le(a, b) && #[trigger] le(
        b,
        c,
    ) implies le(a, c) by {
        lemma_lex_le_transitive(a.path, b.path, c.path);
    }
}

/// The children of a scanned directory stand in the order of their paths,
/// and are the nodes that were found, each once.
pub proof fn lemma_sort_by_path(ns: Seq<NodeView>)
    ensures
        sorted_by_path(sort_by_path(ns)),
        sort_by_path(ns).to_multiset() == ns.to_multiset(),
        sort_by_path(ns).len() == ns.len(),
{
    lemma_path_order();
    lemma_sort_by(ns, path_le());
}

/// Where the new element goes: behind the elements before index `i`, if it
/// comes before all from `i` on and not before the one before `i`.
pub proof fn lemma_insert_at<T>(s: Seq<T>, x: T, i: int, le: spec_fn(T, T) -> bool)
    requires
        0 <= i <= s.len(),
        forall|k: int| i <= k < s.len() ==> !#[trigger] le(s[k], x),
        i > 0 ==> le(s[i - 1], x),
    ensures
        insert_by(s, x, le) == s.insert(i, x),
    decreases s.len() - i,
{
    if s.len() == 0 {
        assert(s.insert(i, x) =~= seq![x]);
    } else if i == s.len() {
        assert(s.insert(i, x) =~= s.push(x));
    } else {
        assert(!le(s[s.len() - 1], x));
        let front = s.drop_last();
        assert forall|k: int| i <= k < front.len() implies !#[trigger] le(front[k], x) by {
            assert(front[k] == s[k]);
        }
        lemma_insert_at(front, x, i, le);
        assert(front.insert(i, x).push(s.last()) =~= s.insert(i, x));
    }
}

/// Puts `x` among nodes that are in the order of their paths.
pub fn insert_node(out: &mut Vec<Node>, x: Node)
    ensures
        views_of(final(out)@) == insert_by_path(views_of(old(out)@), x@),
{
    let key = to_chars(x.path.as_str());
    let ghost s = views_of(out@);
    let mut i: usize = out.len();
    while i > 0
        invariant
            i <= out.len(),
            out@ == old(out)@,
            s == views_of(out@),
            key@ == x@.path,
            forall|k: int| i <= k < s.len() ==> lex_lt(x@.path, #[trigger] s[k].path),
        ensures
            i > 0 ==> lex_le(s[i - 1].path, x@.path),
        decreases i,
    {
        let other = to_chars(out[i - 1].path.as_str());
        assert(s[i - 1].path == other@);
        if !chars_lt(&key, &other) {
            break;
        }
        i -= 1;
    }
    proof {
        if i > 0 {
            assert(s[i - 1] == out@[i - 1]@);
        }
        assert forall|k: int| i <= k < s.len() implies !#[trigger] path_le()(s[k], x@) by {
            assert(lex_lt(x@.path, s[k].path));
        }
        lemma_insert_at(s, x@, i as int, path_le());
    }
    out.insert(i, x);
    assert(views_of(out@) =~= s.insert(i as int, x@));
}

} // verus!
