//! Looking things up in a tree. Every search walks the tree as it is
//! written down: a node before its children, the children in their order.

use vstd::prelude::*;
use crate::error::JdError;
use crate::model::{lemma_children_view, views_of, Node, NodeView, Tree};

verus! {

/// The codes of a node and of all below it, the node's own code first.
pub open spec fn codes_of(n: NodeView) -> Seq<Seq<char>>
    decreases n,
{
    (match n.code {
        Some(c) => seq![c],
        None => seq![],
    }) + codes_of_all(n.children)
}

/// The codes of a list of nodes and of all below them.
pub open spec fn codes_of_all(ns: Seq<NodeView>) -> Seq<Seq<char>>
    decreases ns,
{
    if ns.len() == 0 {
        seq![]
    } else {
        codes_of_all(ns.drop_last()) + codes_of(ns.last())
    }
}

/// The first node, `n` itself or one below it, of which `pred` holds.
pub open spec fn find_in(n: NodeView, pred: spec_fn(NodeView) -> bool) -> Option<NodeView>
    decreases n,
{
    if pred(n) {
        Some(n)
    } else {
        find_in_all(n.children, pred)
    }
}

/// The first node, in the list or below it, of which `pred` holds.
pub open spec fn find_in_all(ns: Seq<NodeView>, pred: spec_fn(NodeView) -> bool) -> Option<
    NodeView,
>
    decreases ns,
{
    if ns.len() == 0 {
        None
    } else {
        match find_in(ns.first(), pred) {
            Some(x) => Some(x),
            None => find_in_all(ns.drop_first(), pred),
        }
    }
}

/// The node carries the id.
pub open spec fn has_id(id: Seq<char>) -> spec_fn(NodeView) -> bool {
    |n: NodeView| n.id == id
}

/// The node carries the code.
pub open spec fn has_code(code: Seq<char>) -> spec_fn(NodeView) -> bool {
    |n: NodeView| n.code == Some(code)
}

/// The path of the first node that carries the id.
pub open spec fn path_of_id(roots: Seq<NodeView>, id: Seq<char>) -> Option<Seq<char>> {
    match find_in_all(roots, has_id(id)) {
        Some(n) => Some(n.path),
        None => None,
    }
}

/// The path of the first node that carries the code.
pub open spec fn path_of_code(roots: Seq<NodeView>, code: Seq<char>) -> Option<Seq<char>> {
    match find_in_all(roots, has_code(code)) {
        Some(n) => Some(n.path),
        None => None,
    }
}

/// The search for the parent of the node with the id, at `n`, whose own
/// parent is `parent`: the answer is `parent` where `n` carries the id, else
/// what the search finds below `n`.
pub open spec fn parent_of_in(parent: Option<Seq<char>>, n: NodeView, id: Seq<char>) -> Option<
    Seq<char>,
>
    decreases n,
{
    if n.id == id {
        parent
    } else {
        parent_of_in_all(Some(n.id), n.children, id)
    }
}

/// The first answer that the search gives in a list of nodes with one parent.
pub open spec fn parent_of_in_all(
    parent: Option<Seq<char>>,
    ns: Seq<NodeView>,
    id: Seq<char>,
) -> Option<Seq<char>>
    decreases ns,
{
    if ns.len() == 0 {
        None
    } else {
        match parent_of_in(parent, ns.first(), id) {
            Some(x) => Some(x),
            None => parent_of_in_all(parent, ns.drop_first(), id),
        }
    }
}

/// No two nodes of the list carry the same code; nodes without a code count
/// for nothing.
pub open spec fn unique_codes(ns: Seq<NodeView>) -> bool {
    forall|i: int, j: int|
        0 <= i < j < ns.len() && ns[i].code is Some ==> ns[i].code != ns[j].code
}

fn walk_codes(node: &Node, acc: &mut Vec<String>)
    ensures
        final(acc).deep_view() == old(acc).deep_view() + codes_of(node@),
    decreases node,
{
    if let Some(c) = &node.code {
        acc.push(c.clone());
    }
    let ghost mid = acc.deep_view();
    assert(mid =~= old(acc).deep_view() + (match node@.code {
        Some(c) => seq![c],
        None => seq![],
    }));
    walk_codes_all(&node.children, acc);
    proof {
        lemma_children_view(*node);
    }
}

fn walk_codes_all(nodes: &Vec<Node>, acc: &mut Vec<String>)
    ensures
        final(acc).deep_view() == old(acc).deep_view() + codes_of_all(views_of(nodes@)),
    decreases nodes,
{
    let ghost ns = views_of(nodes@);
    let mut i: usize = 0;
    assert(ns.take(0) =~= Seq::<NodeView>::empty());
    while i < nodes.len()
        invariant
            i <= nodes.len(),
            ns == views_of(nodes@),
            acc.deep_view() == old(acc).deep_view() + codes_of_all(ns.take(i as int)),
        decreases nodes.len() - i,
    {
        walk_codes(&nodes[i], acc);
        proof {
            let t = ns.take(i + 1);
            assert(t.drop_last() =~= ns.take(i as int));
            assert(t.last() == nodes@[i as int]@);
        }
        i += 1;
    }
    assert(ns.take(nodes.len() as int) =~= ns);
}

/// Every code of the tree, a node's code before those of its children.
pub fn all_codes(tree: &Tree) -> (r: Vec<String>)
    ensures
        r.deep_view() == codes_of_all(tree@.roots),
{
    let mut v: Vec<String> = Vec::new();
    assert(v.deep_view() =~= Seq::<Seq<char>>::empty());
    walk_codes_all(&tree.roots, &mut v);
    v
}

fn find_id_in<'a>(node: &'a Node, id: &String) -> (r: Option<&'a Node>)
    ensures
        match r {
            Some(n) => find_in(node@, has_id(id@)) == Some(n@),
            None => find_in(node@, has_id(id@)) is None,
        },
    decreases node,
{
    proof {
        lemma_children_view(*node);
    }
    if node.id == *id {
        Some(node)
    } else {
        find_id_in_all(&node.children, id)
    }
}

fn find_id_in_all<'a>(nodes: &'a Vec<Node>, id: &String) -> (r: Option<&'a Node>)
    ensures
        match r {
            Some(n) => find_in_all(views_of(nodes@), has_id(id@)) == Some(n@),
            None => find_in_all(views_of(nodes@), has_id(id@)) is None,
        },
    decreases nodes,
{
    let ghost ns = views_of(nodes@);
    let mut i: usize = 0;
    assert(ns.skip(0) =~= ns);
    while i < nodes.len()
        invariant
            i <= nodes.len(),
            ns == views_of(nodes@),
            find_in_all(ns, has_id(id@)) == find_in_all(ns.skip(i as int), has_id(id@)),
        decreases nodes.len() - i,
    {
        let found = find_id_in(&nodes[i], id);
        proof {
            let t = ns.skip(i as int);
            assert(t.first() == nodes@[i as int]@);
            assert(t.drop_first() =~= ns.skip(i + 1));
        }
        if found.is_some() {
            return found;
        }
        i += 1;
    }
    None
}

fn find_code_in<'a>(node: &'a Node, code: &String) -> (r: Option<&'a Node>)
    ensures
        match r {
            Some(n) => find_in(node@, has_code(code@)) == Some(n@),
            None => find_in(node@, has_code(code@)) is None,
        },
    decreases node,
{
    proof {
        lemma_children_view(*node);
    }
    let hit = match &node.code {
        Some(c) => *c == *code,
        None => false,
    };
    if hit {
        Some(node)
    } else {
        find_code_in_all(&node.children, code)
    }
}

fn find_code_in_all<'a>(nodes: &'a Vec<Node>, code: &String) -> (r: Option<&'a Node>)
    ensures
        match r {
            Some(n) => find_in_all(views_of(nodes@), has_code(code@)) == Some(n@),
            None => find_in_all(views_of(nodes@), has_code(code@)) is None,
        },
    decreases nodes,
{
    let ghost ns = views_of(nodes@);
    let mut i: usize = 0;
    assert(ns.skip(0) =~= ns);
    while i < nodes.len()
        invariant
            i <= nodes.len(),
            ns == views_of(nodes@),
            find_in_all(ns, has_code(code@)) == find_in_all(ns.skip(i as int), has_code(code@)),
        decreases nodes.len() - i,
    {
        let found = find_code_in(&nodes[i], code);
        proof {
            let t = ns.skip(i as int);
            assert(t.first() == nodes@[i as int]@);
            assert(t.drop_first() =~= ns.skip(i + 1));
        }
        if found.is_some() {
            return found;
        }
        i += 1;
    }
    None
}

/// The first node of the tree that carries the id.
pub fn find_by_id<'a>(tree: &'a Tree, id: &str) -> (r: Option<&'a Node>)
    ensures
        match r {
            Some(n) => find_in_all(tree@.roots, has_id(id@)) == Some(n@),
            None => find_in_all(tree@.roots, has_id(id@)) is None,
        },
{
    let id = id.to_owned();
    find_id_in_all(&tree.roots, &id)
}

/// The first node of the tree that carries the code.
pub fn find_by_code<'a>(tree: &'a Tree, code: &str) -> (r: Option<&'a Node>)
    ensures
        match r {
            Some(n) => find_in_all(tree@.roots, has_code(code@)) == Some(n@),
            None => find_in_all(tree@.roots, has_code(code@)) is None,
        },
{
    let code = code.to_owned();
    find_code_in_all(&tree.roots, &code)
}

/// The path of the first node that carries the id; `None` where no node does.
pub fn id_to_path(tree: &Tree, id: &str) -> (r: Option<String>)
    ensures
        r.deep_view() == path_of_id(tree@.roots, id@),
{
    match find_by_id(tree, id) {
        Some(n) => Some(n.path.clone()),
        None => None,
    }
}

/// The path of the first node that carries the code; `NotFound` where no
/// node does.
pub fn resolve_code_to_path(tree: &Tree, code: &str) -> (r: Result<String, JdError>)
    ensures
        match path_of_code(tree@.roots, code@) {
            Some(p) => r is Ok && r->Ok_0@ == p,
            None => r == Err::<String, JdError>(JdError::NotFound),
        },
{
    match find_by_code(tree, code) {
        Some(n) => Ok(n.path.clone()),
        None => Err(JdError::NotFound),
    }
}

fn parent_id_in(parent: Option<&String>, node: &Node, id: &String) -> (r: Option<String>)
    ensures
        r.deep_view() == parent_of_in(parent.deep_view(), node@, id@),
    decreases node,
{
    proof {
        lemma_children_view(*node);
    }
    if node.id == *id {
        match parent {
            Some(p) => Some(p.clone()),
            None => None,
        }
    } else {
        parent_id_in_all(Some(&node.id), &node.children, id)
    }
}

fn parent_id_in_all(parent: Option<&String>, nodes: &Vec<Node>, id: &String) -> (r: Option<String>)
    ensures
        r.deep_view() == parent_of_in_all(parent.deep_view(), views_of(nodes@), id@),
    decreases nodes,
{
    let ghost ns = views_of(nodes@);
    let ghost p = parent.deep_view();
    let mut i: usize = 0;
    assert(ns.skip(0) =~= ns);
    while i < nodes.len()
        invariant
            i <= nodes.len(),
            ns == views_of(nodes@),
            p == parent.deep_view(),
            parent_of_in_all(p, ns, id@) == parent_of_in_all(p, ns.skip(i as int), id@),
        decreases nodes.len() - i,
    {
        let found = parent_id_in(parent, &nodes[i], id);
        proof {
            let t = ns.skip(i as int);
            assert(t.first() == nodes@[i as int]@);
            assert(t.drop_first() =~= ns.skip(i + 1));
        }
        if found.is_some() {
            return found;
        }
        i += 1;
    }
    None
}

/// The id of the node above the first node that carries `id`. A root has no
/// node above it: where a root carries the id, the search goes on in the
/// roots after it.
pub fn find_parent_id(tree: &Tree, id: &str) -> (r: Option<String>)
    ensures
        r.deep_view() == parent_of_in_all(None, tree@.roots, id@),
{
    let id = id.to_owned();
    parent_id_in_all(None, &tree.roots, &id)
}

/// Whether the code of `nodes[j]` is also the code of a node before it.
fn repeats_earlier(nodes: &[Node], j: usize) -> (r: bool)
    requires
        j < nodes.len(),
    ensures
        r == exists|i: int|
            0 <= i < j && nodes@[i]@.code is Some && nodes@[i]@.code == nodes@[j as int]@.code,
{
    match &nodes[j].code {
        None => false,
        Some(c) => {
            let mut i: usize = 0;
            while i < j
                invariant
                    i <= j < nodes.len(),
                    nodes@[j as int]@.code == Some(c@),
                    forall|k: int|
                        0 <= k < i ==> !(nodes@[k]@.code is Some && nodes@[k]@.code
                            == nodes@[j as int]@.code),
                decreases j - i,
            {
                let same = match &nodes[i].code {
                    Some(d) => *d == *c,
                    None => false,
                };
                if same {
                    return true;
                }
                i += 1;
            }
            false
        },
    }
}

/// Checks that no two of the nodes carry the same code: `DuplicateCode`
/// where two do.
pub fn validate_unique_codes_among_siblings(children: &[Node]) -> (r: Result<(), JdError>)
    ensures
        unique_codes(views_of(children@)) ==> r is Ok,
        !unique_codes(views_of(children@)) ==> r == Err::<(), JdError>(JdError::DuplicateCode),
{
    let ghost ns = views_of(children@);
    let mut j: usize = 0;
    while j < children.len()
        invariant
            j <= children.len(),
            ns == views_of(children@),
            forall|a: int, b: int| 0 <= a < b < j && ns[a].code is Some ==> ns[a].code != ns[b].code,
        decreases children.len() - j,
    {
        if repeats_earlier(children, j) {
            proof {
                let i = choose|i: int|
                    0 <= i < j && children@[i]@.code is Some && children@[i]@.code
                        == children@[j as int]@.code;
                assert(ns[i].code == ns[j as int].code);
            }
            return Err(JdError::DuplicateCode);
        }
        assert forall|a: int, b: int| 0 <= a < b < j + 1 && ns[a].code is Some implies ns[a].code
            != ns[b].code by {
            if b == j {
                assert(ns[a] == children@[a]@);
            }
        }
        j += 1;
    }
    Ok(())
}

} // verus!
