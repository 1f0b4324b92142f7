//! The tree: one node for each filesystem entry that takes part in the
//! numbered hierarchy.

use vstd::prelude::*;
use crate::text::opt_view;

verus! {

/// The kind of a filesystem entry in the numbered hierarchy.
#[derive(Debug, Clone, Copy, PartialEq, Eq, Structural)]
pub enum NodeType {
    Range,
    Category,
    ItemDir,
    File,
    Link,
    Other,
}

/// One filesystem entry with the entries nested below it.
#[derive(Debug, PartialEq, Eq)]
pub struct Node {
    /// Stable identity of the entry.
    pub id: String,
    /// The code that the entry's name carries, if it carries one.
    pub code: Option<String>,
    /// The name without code and extension, underscores shown as spaces.
    pub title: String,
    /// Absolute path of the entry.
    pub path: String,
    pub node_type: NodeType,
    /// For a file: the place that its `LOCATION=` line names.
    pub location: Option<String>,
    /// For a link: the address that it points to.
    pub url: Option<String>,
    /// The entries of a directory, in the order of their names.
    pub children: Vec<Node>,
}

/// The mathematical value of a [`Node`].
pub struct NodeView {
    pub id: Seq<char>,
    pub code: Option<Seq<char>>,
    pub title: Seq<char>,
    pub path: Seq<char>,
    pub node_type: NodeType,
    pub location: Option<Seq<char>>,
    pub url: Option<Seq<char>>,
    pub children: Seq<NodeView>,
}

/// The value of a node: its own fields and the values of its children.
pub open spec fn node_view(n: Node) -> NodeView
    decreases n,
{
    NodeView {
        id: n.id@,
        code: opt_view(n.code),
        title: n.title@,
        path: n.path@,
        node_type: n.node_type,
        location: opt_view(n.location),
        url: opt_view(n.url),
        children: Seq::new(
            n.children@.len(),
            |i: int|
                if 0 <= i < n.children@.len() {
                    node_view(n.children@[i])
                } else {
                    arbitrary()
                },
        ),
    }
}

/// The values of a list of nodes, in order.
pub open spec fn views_of(ns: Seq<Node>) -> Seq<NodeView> {
    Seq::new(ns.len(), |i: int| node_view(ns[i]))
}

impl View for Node {
    type V = NodeView;

    open spec fn view(&self) -> NodeView {
        node_view(*self)
    }
}

/// The children of a node's value are the values of its children.
pub proof fn lemma_children_view(n: Node)
    ensures
        n@.children == views_of(n.children@),
{
    assert(n@.children =~= views_of(n.children@));
}

/// Whether entries of this kind can hold other entries.
pub open spec fn is_dir_like(t: NodeType) -> bool {
    t != NodeType::File && t != NodeType::Link
}

/// The scanned roots, one node for each.
#[derive(Debug, PartialEq, Eq)]
pub struct Tree {
    pub roots: Vec<Node>,
}

/// The mathematical value of a [`Tree`].
pub struct TreeView {
    pub roots: Seq<NodeView>,
}

impl View for Tree {
    type V = TreeView;

    open spec fn view(&self) -> TreeView {
        TreeView { roots: views_of(self.roots@) }
    }
}

/// A copy of an optional string.
pub fn clone_opt(s: &Option<String>) -> (r: Option<String>)
    ensures
        opt_view(r) == opt_view(*s),
{
    match s {
        Some(x) => Some(x.clone()),
        None => None,
    }
}

/// Copies of the nodes of a list.
pub fn clone_nodes(nodes: &Vec<Node>) -> (r: Vec<Node>)
    ensures
        views_of(r@) == views_of(nodes@),
    decreases nodes,
{
    let mut out: Vec<Node> = Vec::new();
    let mut i: usize = 0;
    while i < nodes.len()
        invariant
            i <= nodes.len(),
            out@.len() == i,
            forall|j: int| 0 <= j < i ==> out@[j]@ == nodes@[j]@,
        decreases nodes.len() - i,
    {
        let c = nodes[i].clone();
        out.push(c);
        i += 1;
    }
    assert(views_of(out@) =~= views_of(nodes@));
    out
}

impl Clone for Node {
    fn clone(&self) -> (r: Self)
        ensures
            r@ == self@,
        decreases self,
    {
        let children = clone_nodes(&self.children);
        let r = Node {
            id: self.id.clone(),
            code: clone_opt(&self.code),
            title: self.title.clone(),
            path: self.path.clone(),
            node_type: self.node_type,
            location: clone_opt(&self.location),
            url: clone_opt(&self.url),
            children,
        };
        proof {
            lemma_children_view(r);
            lemma_children_view(*self);
        }
        r
    }
}

impl Clone for Tree {
    fn clone(&self) -> (r: Self)
        ensures
            r@ == self@,
    {
        Tree { roots: clone_nodes(&self.roots) }
    }
}

impl Default for Tree {
    fn default() -> (r: Self)
        ensures
            r@.roots.len() == 0,
    {
        let r = Tree { roots: Vec::new() };
        assert(r@.roots =~= Seq::empty());
        r
    }
}

} // verus!
