//! From a listing of the filesystem to the tree. Reading the filesystem is
//! the caller's part: it hands over what it found, entry by entry, and the
//! scan decides what takes part in the tree and in which order.
//!
//! Sibling codes are not checked here: two entries of one directory that
//! carry the same code both enter the tree.
//! [`validate_unique_codes_among_siblings`](crate::query::validate_unique_codes_among_siblings)
//! tells them apart from a directory without such a pair.

use vstd::prelude::*;
use crate::content::{
    location_of, parse_location_from_file, parse_url_file, parse_webloc_url,
    url_file_url, webloc_url,
};
use crate::identity::{make_id, make_id_spec, IdentitySource, IdentityView};
use crate::ignore::{ignored_path_spec, is_ignored_path};
use crate::model::{
    is_dir_like, lemma_children_view, views_of, Node, NodeType, NodeView, Tree,
};
use crate::naming::{
    classify, classify_spec, is_coded, is_coded_name, lemma_template_priority, parse_item,
    parse_item_spec,
};
use crate::order::{
    insert_by_path, insert_node, lemma_sort_by_path, lemma_sort_elements, path_le, sort_by_path,
    sorted_by_path,
};
use crate::paths::{file_name, file_name_of, join_path, join_spec};
use crate::text::{lex_le, str_eq};

verus! {

/// One entry of the filesystem as it was found.
#[derive(Debug, PartialEq, Eq)]
pub struct RawEntry {
    /// The entry's file name; for a root, its canonical path.
    pub name: String,
    /// Whether the entry is a directory.
    pub is_dir: bool,
    /// What tells the entry from all others.
    pub identity: IdentitySource,
    /// The bytes of a file; `None` where it was not read.
    pub content: Option<Vec<u8>>,
    /// The entries of a directory, in any order.
    pub children: Vec<RawEntry>,
}

/// The mathematical value of a [`RawEntry`].
pub struct RawEntryView {
    pub name: Seq<char>,
    pub is_dir: bool,
    pub identity: IdentityView,
    pub content: Option<Seq<u8>>,
    pub children: Seq<RawEntryView>,
}

/// The value of an entry: its own fields and the values of its children.
pub open spec fn raw_view(e: RawEntry) -> RawEntryView
    decreases e,
{
    RawEntryView {
        name: e.name@,
        is_dir: e.is_dir,
        identity: e.identity@,
        content: match e.content {
            Some(b) => Some(b@),
            None => None,
        },
        children: Seq::new(
            e.children@.len(),
            |i: int|
                if 0 <= i < e.children@.len() {
                    raw_view(e.children@[i])
                } else {
                    arbitrary()
                },
        ),
    }
}

/// The values of a list of entries, in order.
pub open spec fn raw_views(es: Seq<RawEntry>) -> Seq<RawEntryView> {
    Seq::new(es.len(), |i: int| raw_view(es[i]))
}

impl View for RawEntry {
    type V = RawEntryView;

    open spec fn view(&self) -> RawEntryView {
        raw_view(*self)
    }
}

/// The children of an entry's value are the values of its children.
pub proof fn lemma_raw_children(e: RawEntry)
    ensures
        e@.children == raw_views(e.children@),
{
    assert(e@.children =~= raw_views(e.children@));
}

/// The name by which an entry is classified: the file name of its path, and
/// the path itself where it has none.
pub open spec fn display_name(path: Seq<char>) -> Seq<char> {
    match file_name_of(path) {
        Some(n) => n,
        None => path,
    }
}

/// The node of a file at `path` whose name is `name`. Only a file with an
/// item name has one. By its extension it is a link, whose address is read
/// from its content, or a file, whose content may name a place.
pub open spec fn file_node(path: Seq<char>, name: Seq<char>, e: RawEntryView) -> Option<NodeView> {
    match parse_item_spec(name) {
        None => None,
        Some((code, title, ext)) => Some(
            if ext == Some("webloc"@) {
                NodeView {
                    id: make_id_spec(e.identity),
                    code: Some(code),
                    title,
                    path,
                    node_type: NodeType::Link,
                    location: None,
                    url: webloc_url(e.content),
                    children: seq![],
                }
            } else if ext == Some("url"@) {
                NodeView {
                    id: make_id_spec(e.identity),
                    code: Some(code),
                    title,
                    path,
                    node_type: NodeType::Link,
                    location: None,
                    url: url_file_url(e.content),
                    children: seq![],
                }
            } else {
                NodeView {
                    id: make_id_spec(e.identity),
                    code: Some(code),
                    title,
                    path,
                    node_type: NodeType::File,
                    location: location_of(e.content),
                    url: None,
                    children: seq![],
                }
            },
        ),
    }
}

/// The node of the entry at `path`, with all that the scan keeps below it.
/// Its code, title and kind are those of its name. Its children are the
/// nodes of the entries that the scan keeps, in the order of their paths.
pub open spec fn scan_entry(path: Seq<char>, e: RawEntryView) -> NodeView
    decreases e, 0int,
{
    let c = classify_spec(display_name(path));
    NodeView {
        id: make_id_spec(e.identity),
        code: c.0,
        title: c.1,
        path,
        node_type: c.2,
        location: None,
        url: None,
        children: if e.is_dir {
            sort_by_path(scan_list(path, e.children))
        } else {
            seq![]
        },
    }
}

/// The nodes of the entries of the directory `dir` that the scan keeps, in
/// the order of the listing.
pub open spec fn scan_list(dir: Seq<char>, es: Seq<RawEntryView>) -> Seq<NodeView>
    decreases es, 0int,
{
    if es.len() == 0 {
        seq![]
    } else {
        scan_list(dir, es.drop_last()) + scan_child(dir, es.last())
    }
}

/// The node of one entry of the directory `dir`, or nothing: an entry that
/// the ignore policy passes over is left out, a directory is kept if its
/// name carries a code, a file if its name is an item name.
pub open spec fn scan_child(dir: Seq<char>, e: RawEntryView) -> Seq<NodeView>
    decreases e, 1int,
{
    let path = join_spec(dir, e.name);
    let name = display_name(path);
    if ignored_path_spec(path, e.is_dir) {
        seq![]
    } else if e.is_dir {
        if is_coded_name(name) {
            seq![scan_entry(path, e)]
        } else {
            seq![]
        }
    } else {
        match file_node(path, name, e) {
            Some(n) => seq![n],
            None => seq![],
        }
    }
}

/// The tree of the roots: one node for each, in their order.
pub open spec fn scan_roots_spec(roots: Seq<RawEntryView>) -> Seq<NodeView> {
    Seq::new(roots.len(), |i: int| scan_entry(roots[i].name, roots[i]))
}

/// The node says of itself what its path says of it: a directory has the
/// code, the title and the kind of its name, a file or a link the code and
/// the title of its name.
pub open spec fn named_by_path(n: NodeView) -> bool {
    let name = display_name(n.path);
    if is_dir_like(n.node_type) {
        classify_spec(name) == (n.code, n.title, n.node_type)
    } else {
        match parse_item_spec(name) {
            Some(p) => n.code == Some(p.0) && n.title == p.1,
            None => false,
        }
    }
}

/// What holds of every node of a scanned tree and of all below it: it is
/// named by its path; a file or a link has no children; the children stand
/// in the order of their paths; and every child carries a code.
pub open spec fn well_scanned(n: NodeView) -> bool
    decreases n,
{
    &&& named_by_path(n)
    &&& !is_dir_like(n.node_type) ==> n.children.len() == 0
    &&& sorted_by_path(n.children)
    &&& forall|i: int|
        0 <= i < n.children.len() ==> well_scanned(#[trigger] n.children[i]) && n.children[i].code
            is Some
}

proof fn lemma_scan_entry_well(path: Seq<char>, e: RawEntryView)
    ensures
        well_scanned(scan_entry(path, e)),
    decreases e, 1int,
{
    let n = scan_entry(path, e);
    lemma_template_priority(display_name(path));
    if e.is_dir {
        let found = scan_list(path, e.children);
        lemma_scan_list_well(path, e.children);
        lemma_sort_by_path(found);
        lemma_sort_elements(found, path_le());
        assert forall|i: int| 0 <= i < n.children.len() implies well_scanned(
            #[trigger] n.children[i],
        ) && n.children[i].code is Some by {
            assert(found.contains(n.children[i]));
            let m = choose|m: int| 0 <= m < found.len() && found[m] == n.children[i];
            assert(well_scanned(found[m]));
        }
    } else {
        assert(sorted_by_path(n.children));
    }
}

proof fn lemma_scan_list_well(dir: Seq<char>, es: Seq<RawEntryView>)
    ensures
        forall|i: int|
            0 <= i < scan_list(dir, es).len() ==> well_scanned(#[trigger] scan_list(dir, es)[i])
                && scan_list(dir, es)[i].code is Some,
    decreases es, 0int,
{
    if es.len() > 0 {
        let front = scan_list(dir, es.drop_last());
        lemma_scan_list_well(dir, es.drop_last());
        let e = es.last();
        let path = join_spec(dir, e.name);
        let name = display_name(path);
        let tail = scan_child(dir, e);
        if !ignored_path_spec(path, e.is_dir) {
            if e.is_dir {
                if is_coded_name(name) {
                    lemma_scan_entry_well(path, e);
                    lemma_template_priority(name);
                }
            } else if file_node(path, name, e) is Some {
                let n = file_node(path, name, e)->0;
                assert(sorted_by_path(n.children));
                assert(well_scanned(n));
            }
        }
        let all = scan_list(dir, es);
        assert forall|i: int| 0 <= i < all.len() implies well_scanned(#[trigger] all[i])
            && all[i].code is Some by {
            if i < front.len() {
                assert(all[i] == front[i]);
            } else {
                assert(all[i] == tail[i - front.len()]);
            }
        }
    }
}

/// Every node of a scanned tree is named by its path, only directories hold
/// other nodes, the children of a directory stand in the order of their
/// paths, and below a root every node carries a code.
pub proof fn lemma_scan_is_well_formed(roots: Seq<RawEntryView>)
    ensures
        forall|i: int|
            0 <= i < roots.len() ==> well_scanned(#[trigger] scan_roots_spec(roots)[i]),
{
    assert forall|i: int| 0 <= i < roots.len() implies well_scanned(
        #[trigger] scan_roots_spec(roots)[i],
    ) by {
        lemma_scan_entry_well(roots[i].name, roots[i]);
    }
}

/// Two listings show the same files: the same names, kinds and contents, in
/// the same order. The identities in `kept` are those that are known to
/// have stayed: an entry that had one of them has it still.
pub open spec fn same_files(a: RawEntryView, b: RawEntryView, kept: Set<IdentityView>) -> bool
    decreases a,
{
    &&& a.name == b.name
    &&& a.is_dir == b.is_dir
    &&& a.content == b.content
    &&& kept.contains(a.identity) ==> b.identity == a.identity
    &&& a.children.len() == b.children.len()
    &&& forall|i: int|
        0 <= i < a.children.len() ==> same_files(#[trigger] a.children[i], b.children[i], kept)
}

/// The id can only be that of an entry whose identity stayed: every
/// identity that gives this id is in `kept`.
pub open spec fn id_is_kept(id: Seq<char>, kept: Set<IdentityView>) -> bool {
    forall|s: IdentityView| #[trigger] make_id_spec(s) == id ==> kept.contains(s)
}

/// Two nodes are the same: the same code, title, path, kind, place and
/// address; the same id, if it is that of an entry whose identity stayed;
/// and children that are pairwise the same in this sense.
pub open spec fn same_nodes(x: NodeView, y: NodeView, kept: Set<IdentityView>) -> bool
    decreases x,
{
    &&& x.code == y.code
    &&& x.title == y.title
    &&& x.path == y.path
    &&& x.node_type == y.node_type
    &&& x.location == y.location
    &&& x.url == y.url
    &&& id_is_kept(x.id, kept) ==> y.id == x.id
    &&& all_same_nodes(x.children, y.children, kept)
}

/// Two lists of nodes are pairwise the same.
pub open spec fn all_same_nodes(xs: Seq<NodeView>, ys: Seq<NodeView>, kept: Set<IdentityView>) -> bool
    decreases xs,
{
    &&& xs.len() == ys.len()
    &&& forall|i: int| 0 <= i < xs.len() ==> same_nodes(#[trigger] xs[i], ys[i], kept)
}

proof fn lemma_insert_same(
    s1: Seq<NodeView>,
    s2: Seq<NodeView>,
    x1: NodeView,
    x2: NodeView,
    kept: Set<IdentityView>,
)
    requires
        all_same_nodes(s1, s2, kept),
        same_nodes(x1, x2, kept),
    ensures
        all_same_nodes(insert_by_path(s1, x1), insert_by_path(s2, x2), kept),
    decreases s1.len(),
{
    if s1.len() == 0 {
    } else {
        assert(same_nodes(s1[s1.len() - 1], s2[s2.len() - 1], kept));
        if lex_le(s1.last().path, x1.path) {
            let r1 = s1.push(x1);
            let r2 = s2.push(x2);
            assert forall|i: int| 0 <= i < r1.len() implies same_nodes(
                #[trigger] r1[i],
                r2[i],
                kept,
            ) by {
                if i < s1.len() {
                    assert(same_nodes(s1[i], s2[i], kept));
                }
            }
        } else {
            let f1 = s1.drop_last();
            let f2 = s2.drop_last();
            assert forall|i: int| 0 <= i < f1.len() implies same_nodes(
                #[trigger] f1[i],
                f2[i],
                kept,
            ) by {
                assert(same_nodes(s1[i], s2[i], kept));
            }
            lemma_insert_same(f1, f2, x1, x2, kept);
            let g1 = insert_by_path(f1, x1);
            let g2 = insert_by_path(f2, x2);
            let r1 = g1.push(s1.last());
            let r2 = g2.push(s2.last());
            assert forall|i: int| 0 <= i < r1.len() implies same_nodes(
                #[trigger] r1[i],
                r2[i],
                kept,
            ) by {
                if i < g1.len() {
                    assert(same_nodes(g1[i], g2[i], kept));
                }
            }
        }
    }
}

proof fn lemma_sort_same(xs: Seq<NodeView>, ys: Seq<NodeView>, kept: Set<IdentityView>)
    requires
        all_same_nodes(xs, ys, kept),
    ensures
        all_same_nodes(sort_by_path(xs), sort_by_path(ys), kept),
    decreases xs.len(),
{
    if xs.len() > 0 {
        let f1 = xs.drop_last();
        let f2 = ys.drop_last();
        assert forall|i: int| 0 <= i < f1.len() implies same_nodes(#[trigger] f1[i], f2[i], kept) by {
            assert(same_nodes(xs[i], ys[i], kept));
        }
        lemma_sort_same(f1, f2, kept);
        assert(same_nodes(xs[xs.len() - 1], ys[ys.len() - 1], kept));
        lemma_insert_same(sort_by_path(f1), sort_by_path(f2), xs.last(), ys.last(), kept);
    }
}

proof fn lemma_scan_entry_same(
    path: Seq<char>,
    a: RawEntryView,
    b: RawEntryView,
    kept: Set<IdentityView>,
)
    requires
        same_files(a, b, kept),
    ensures
        same_nodes(scan_entry(path, a), scan_entry(path, b), kept),
    decreases a, 1int,
{
    assert(make_id_spec(a.identity) == scan_entry(path, a).id);
    if a.is_dir {
        lemma_scan_list_same(path, a.children, b.children, kept);
        lemma_sort_same(scan_list(path, a.children), scan_list(path, b.children), kept);
    }
}

proof fn lemma_scan_list_same(
    dir: Seq<char>,
    xs: Seq<RawEntryView>,
    ys: Seq<RawEntryView>,
    kept: Set<IdentityView>,
)
    requires
        xs.len() == ys.len(),
        forall|i: int| 0 <= i < xs.len() ==> same_files(#[trigger] xs[i], ys[i], kept),
    ensures
        all_same_nodes(scan_list(dir, xs), scan_list(dir, ys), kept),
    decreases xs, 0int,
{
    if xs.len() > 0 {
        let f1 = xs.drop_last();
        let f2 = ys.drop_last();
        assert forall|i: int| 0 <= i < f1.len() implies same_files(#[trigger] f1[i], f2[i], kept) by {
            assert(same_files(xs[i], ys[i], kept));
        }
        lemma_scan_list_same(dir, f1, f2, kept);
        let a = xs.last();
        let b = ys.last();
        assert(same_files(xs[xs.len() - 1], ys[ys.len() - 1], kept));
        let path = join_spec(dir, a.name);
        if !ignored_path_spec(path, a.is_dir) && a.is_dir && is_coded_name(display_name(path)) {
            lemma_scan_entry_same(path, a, b, kept);
        }
        let h1 = scan_list(dir, f1);
        let h2 = scan_list(dir, f2);
        let t1 = scan_child(dir, a);
        let t2 = scan_child(dir, b);
        assert(t1.len() == t2.len());
        if t1.len() > 0 {
            assert(make_id_spec(a.identity) == t1[0].id);
            assert(same_nodes(t1[0], t2[0], kept));
        }
        let r1 = h1 + t1;
        let r2 = h2 + t2;
        assert forall|i: int| 0 <= i < r1.len() implies same_nodes(#[trigger] r1[i], r2[i], kept) by {
            if i < h1.len() {
                assert(same_nodes(h1[i], h2[i], kept));
            } else {
                assert(r1[i] == t1[i - h1.len()]);
                assert(r2[i] == t2[i - h2.len()]);
            }
        }
    }
}

/// A second scan of files that did not change gives the same tree: every
/// node has the code, the title, the path and the kind that it had, in the
/// same place, whatever became of the identities; and a node whose entry
/// kept its identity has the id that it had.
pub proof fn lemma_rescan_same(
    a: Seq<RawEntryView>,
    b: Seq<RawEntryView>,
    kept: Set<IdentityView>,
)
    requires
        a.len() == b.len(),
        forall|i: int| 0 <= i < a.len() ==> same_files(#[trigger] a[i], b[i], kept),
    ensures
        all_same_nodes(scan_roots_spec(a), scan_roots_spec(b), kept),
{
    let x = scan_roots_spec(a);
    let y = scan_roots_spec(b);
    assert forall|i: int| 0 <= i < x.len() implies same_nodes(#[trigger] x[i], y[i], kept) by {
        assert(same_files(a[i], b[i], kept));
        lemma_scan_entry_same(a[i].name, a[i], b[i], kept);
    }
}

/// A second scan of a listing that did not change at all, identities
/// included, gives the same tree with the same ids.
pub proof fn lemma_rescan_identical(a: Seq<RawEntryView>, b: Seq<RawEntryView>)
    requires
        a == b,
    ensures
        scan_roots_spec(a) == scan_roots_spec(b),
{
}

/// The name by which an entry is classified.
pub fn name_of_path(path: &str) -> (r: String)
    ensures
        r@ == display_name(path@),
{
    match file_name(path) {
        Some(n) => n,
        None => path.to_owned(),
    }
}

fn opt_str_is(s: &Option<String>, lit: &str) -> (r: bool)
    ensures
        r == (s.deep_view() == Some(lit@)),
{
    match s {
        Some(x) => str_eq(x.as_str(), lit),
        None => false,
    }
}

/// The node of a file, if its name is an item name.
pub fn scan_file(path: &str, entry: &RawEntry) -> (r: Option<Node>)
    ensures
        match r {
            Some(n) => file_node(path@, display_name(path@), entry@) == Some(n@),
            None => file_node(path@, display_name(path@), entry@) is None,
        },
{
    let name = name_of_path(path);
    match parse_item(name.as_str()) {
        None => None,
        Some((code, title, ext)) => {
            let id = make_id(&entry.identity);
            let (node_type, url, location) = if opt_str_is(&ext, "webloc") {
                (NodeType::Link, parse_webloc_url(entry.content.as_ref()), None)
            } else if opt_str_is(&ext, "url") {
                (NodeType::Link, parse_url_file(entry.content.as_ref()), None)
            } else {
                (NodeType::File, None, parse_location_from_file(entry.content.as_ref()))
            };
            let n = Node {
                id,
                code: Some(code),
                title,
                path: path.to_owned(),
                node_type,
                location,
                url,
                children: Vec::new(),
            };
            proof {
                lemma_children_view(n);
                assert(n@.children =~= seq![]);
            }
            Some(n)
        },
    }
}

/// The node of the entry at `path`, with all that the scan keeps below it.
pub fn scan_dir(path: &str, entry: &RawEntry) -> (r: Node)
    ensures
        r@ == scan_entry(path@, entry@),
    decreases entry, 1int,
{
    let name = name_of_path(path);
    let (code, title, node_type) = classify(name.as_str());
    let children = if entry.is_dir {
        scan_children(path, entry)
    } else {
        Vec::new()
    };
    let n = Node {
        id: make_id(&entry.identity),
        code,
        title,
        path: path.to_owned(),
        node_type,
        location: None,
        url: None,
        children,
    };
    proof {
        lemma_children_view(n);
        if !entry.is_dir {
            assert(n@.children =~= seq![]);
        }
    }
    n
}

fn scan_children(dir: &str, entry: &RawEntry) -> (r: Vec<Node>)
    ensures
        views_of(r@) == sort_by_path(scan_list(dir@, entry@.children)),
    decreases entry, 0int,
{
    let mut out: Vec<Node> = Vec::new();
    let ghost es = entry@.children;
    proof {
        lemma_raw_children(*entry);
        assert(es.take(0) =~= Seq::<RawEntryView>::empty());
        assert(views_of(out@) =~= Seq::<NodeView>::empty());
    }
    let mut i: usize = 0;
    while i < entry.children.len()
        invariant
            i <= entry.children.len(),
            es == entry@.children,
            es == raw_views(entry.children@),
            views_of(out@) == sort_by_path(scan_list(dir@, es.take(i as int))),
        decreases entry.children.len() - i,
    {
        let child = &entry.children[i];
        let ghost before = scan_list(dir@, es.take(i as int));
        proof {
            let t = es.take(i + 1);
            assert(t.drop_last() =~= es.take(i as int));
            assert(t.last() == child@);
            assert(scan_list(dir@, t) == before + scan_child(dir@, child@));
        }
        let path = join_path(dir, child.name.as_str());
        let mut found: Option<Node> = None;
        if !is_ignored_path(path.as_str(), child.is_dir) {
            if child.is_dir {
                let name = name_of_path(path.as_str());
                if is_coded(name.as_str()) {
                    found = Some(scan_dir(path.as_str(), child));
                }
            } else {
                found = scan_file(path.as_str(), child);
            }
        }
        match found {
            Some(n) => {
                assert(scan_child(dir@, child@) == seq![n@]);
                assert((before + seq![n@]).drop_last() =~= before);
                insert_node(&mut out, n);
            },
            None => {
                assert(scan_child(dir@, child@) =~= Seq::<NodeView>::empty());
                assert(before + Seq::<NodeView>::empty() =~= before);
            },
        }
        i += 1;
    }
    assert(es.take(entry.children.len() as int) =~= es);
    out
}

/// The tree of the roots. Each root is handed over with its canonical path
/// for its name.
pub fn scan_roots(roots: &Vec<RawEntry>) -> (tree: Tree)
    ensures
        tree@.roots == scan_roots_spec(raw_views(roots@)),
{
    let mut out: Vec<Node> = Vec::new();
    let mut i: usize = 0;
    while i < roots.len()
        invariant
            i <= roots.len(),
            out@.len() == i,
            forall|k: int|
                0 <= k < i ==> out@[k]@ == scan_entry(roots@[k]@.name, roots@[k]@),
        decreases roots.len() - i,
    {
        let n = scan_dir(roots[i].name.as_str(), &roots[i]);
        out.push(n);
        i += 1;
    }
    let tree = Tree { roots: out };
    assert(tree@.roots =~= scan_roots_spec(raw_views(roots@)));
    tree
}

} // verus!
