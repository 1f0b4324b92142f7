//! The expansion state of a listing: which nodes are shown with their
//! children.

use vstd::prelude::*;
use crate::model::{is_dir_like, lemma_children_view, views_of, Node, NodeType, NodeView, Tree};
use crate::order::{lemma_lex_asymmetric, lemma_lex_lt_transitive, lemma_lex_total};
use crate::paths::{join_path, join_spec};
use crate::text::{chars_lt, lex_lt, to_chars};

verus! {

/// The ids of the nodes that are expanded. No id is held twice, and the ids
/// are kept in the order of their text.
#[derive(Debug, PartialEq, Eq)]
pub struct ExpandedState {
    expanded: Vec<String>,
}

/// The ids stand in strictly rising order.
pub open spec fn strictly_sorted(ids: Seq<Seq<char>>) -> bool {
    forall|i: int, j: int| 0 <= i < j < ids.len() ==> lex_lt(ids[i], ids[j])
}

/// The ids of the directory-like nodes among `n` and all below it, a node
/// before its children.
pub open spec fn dir_ids(n: NodeView) -> Seq<Seq<char>>
    decreases n,
{
    (if is_dir_like(n.node_type) {
        seq![n.id]
    } else {
        seq![]
    }) + dir_ids_all(n.children)
}

/// The ids of the directory-like nodes in a list of nodes and below it.
pub open spec fn dir_ids_all(ns: Seq<NodeView>) -> Seq<Seq<char>>
    decreases ns,
{
    if ns.len() == 0 {
        seq![]
    } else {
        dir_ids_all(ns.drop_last()) + dir_ids(ns.last())
    }
}

/// What toggling the id makes of a set of expanded ids.
pub open spec fn toggled(state: Set<Seq<char>>, id: Seq<char>) -> Set<Seq<char>> {
    if state.contains(id) {
        state.remove(id)
    } else {
        state.insert(id)
    }
}

/// Toggling an id twice leaves the state as it was, and toggling one id
/// touches no other.
pub proof fn lemma_toggle_twice(state: Set<Seq<char>>, id: Seq<char>)
    ensures
        toggled(toggled(state, id), id) == state,
        toggled(state, id).contains(id) == !state.contains(id),
        forall|other: Seq<char>|
            other != id ==> toggled(state, id).contains(other) == state.contains(other),
{
    assert(toggled(toggled(state, id), id) =~= state);
}

/// Where the state is kept when nothing says where: below the user's home
/// directory, or below the current directory where no home is known.
pub open spec fn default_state_spec(home: Option<Seq<char>>) -> Seq<char> {
    join_spec(
        join_spec(
            join_spec(
                match home {
                    Some(h) => h,
                    None => "."@,
                },
                ".cache"@,
            ),
            "jd"@,
        ),
        "state.json"@,
    )
}

/// The default place of the state.
pub fn default_state_path(home: Option<&str>) -> (r: String)
    ensures
        r@ == default_state_spec(
            match home {
                Some(h) => Some(h@),
                None => None,
            },
        ),
{
    let base = match home {
        Some(h) => h,
        None => ".",
    };
    let a = join_path(base, ".cache");
    let b = join_path(a.as_str(), "jd");
    join_path(b.as_str(), "state.json")
}

impl View for ExpandedState {
    type V = Set<Seq<char>>;

    closed spec fn view(&self) -> Set<Seq<char>> {
        self.expanded.deep_view().to_set()
    }
}

impl ExpandedState {
    /// The ids are in strictly rising order.
    pub closed spec fn wf(&self) -> bool {
        strictly_sorted(self.expanded.deep_view())
    }

    /// The ids in their order.
    pub closed spec fn ids_spec(&self) -> Seq<Seq<char>> {
        self.expanded.deep_view()
    }

    /// The state in which nothing is expanded.
    pub fn new() -> (r: Self)
        ensures
            r.wf(),
            r@ == Set::<Seq<char>>::empty(),
            r.ids_spec().len() == 0,
    {
        let r = ExpandedState { expanded: Vec::new() };
        assert(r.expanded.deep_view() =~= Seq::<Seq<char>>::empty());
        assert(r@ =~= Set::<Seq<char>>::empty());
        r
    }

    /// The ids are those of the set, each once, in rising order.
    pub proof fn lemma_ids(&self)
        requires
            self.wf(),
        ensures
            strictly_sorted(self.ids_spec()),
            self.ids_spec().to_set() == self@,
            self.ids_spec().no_duplicates(),
    {
        let s = self.ids_spec();
        assert forall|i: int, j: int| 0 <= i < s.len() && 0 <= j < s.len() && i != j implies s[i]
            != s[j] by {
            if i < j {
                lemma_lex_asymmetric(s[i], s[j]);
            } else {
                lemma_lex_asymmetric(s[j], s[i]);
            }
        }
    }

    /// The index of the first id that does not come before `id`.
    fn position(&self, key: &Vec<char>) -> (r: (usize, bool))
        requires
            self.wf(),
        ensures
            r.0 <= self.expanded.len(),
            forall|k: int| 0 <= k < r.0 ==> lex_lt(#[trigger] self.expanded.deep_view()[k], key@),
            r.1 ==> r.0 < self.expanded.len() && self.expanded.deep_view()[r.0 as int] == key@,
            !r.1 ==> forall|k: int|
                r.0 <= k < self.expanded.len() ==> lex_lt(
                    key@,
                    #[trigger] self.expanded.deep_view()[k],
                ),
    {
        let ghost ids = self.expanded.deep_view();
        let mut i: usize = 0;
        while i < self.expanded.len()
            invariant
                i <= self.expanded.len(),
                ids == self.expanded.deep_view(),
                strictly_sorted(ids),
                forall|k: int| 0 <= k < i ==> lex_lt(#[trigger] ids[k], key@),
            decreases self.expanded.len() - i,
        {
            let other = to_chars(self.expanded[i].as_str());
            assert(ids[i as int] == other@);
            if !chars_lt(&other, key) {
                let found = !chars_lt(key, &other);
                proof {
                    if found {
                        lemma_lex_total(other@, key@);
                    } else {
                        assert forall|k: int| i <= k < ids.len() implies lex_lt(
                            key@,
                            #[trigger] ids[k],
                        ) by {
                            if k > i {
                                lemma_lex_lt_transitive(key@, ids[i as int], ids[k]);
                            }
                        }
                    }
                }
                return (i, found);
            }
            i += 1;
        }
        (i, false)
    }

    /// Whether the node `id` is expanded.
    pub fn is_expanded(&self, id: &str) -> (r: bool)
        requires
            self.wf(),
        ensures
            r == self@.contains(id@),
    {
        let key = to_chars(id);
        let (i, found) = self.position(&key);
        proof {
            let ids = self.expanded.deep_view();
            if found {
                assert(ids.contains(id@));
            } else if ids.contains(id@) {
                let k = choose|k: int| 0 <= k < ids.len() && ids[k] == id@;
                lemma_lex_asymmetric(ids[k], id@);
            }
        }
        found
    }

    /// Expands the node `id`; nothing changes where it is expanded already.
    pub fn insert(&mut self, id: &str)
        requires
            old(self).wf(),
        ensures
            final(self).wf(),
            final(self)@ == old(self)@.insert(id@),
    {
        let key = to_chars(id);
        let (i, found) = self.position(&key);
        let ghost ids = self.expanded.deep_view();
        if found {
            assert(ids.contains(id@));
            assert(self@ =~= old(self)@.insert(id@));
        } else {
            self.expanded.insert(i, id.to_owned());
            proof {
                let now = self.expanded.deep_view();
                assert(now =~= ids.insert(i as int, id@));
                assert forall|a: int, b: int| 0 <= a < b < now.len() implies lex_lt(now[a], now[b]) by {
                    if a < i && b > i {
                        assert(now[a] == ids[a] && now[b] == ids[b - 1]);
                    } else if a < i && b < i {
                        assert(now[a] == ids[a] && now[b] == ids[b]);
                    } else if a > i {
                        assert(now[a] == ids[a - 1] && now[b] == ids[b - 1]);
                    } else if a == i {
                        assert(now[b] == ids[b - 1]);
                    } else {
                        assert(now[a] == ids[a]);
                    }
                }
                assert forall|x: Seq<char>| now.contains(x) <==> (x == id@ || ids.contains(x)) by {
                    if now.contains(x) {
                        let k = choose|k: int| 0 <= k < now.len() && now[k] == x;
                        if k < i {
                            assert(ids[k] == x);
                        } else if k > i {
                            assert(ids[k - 1] == x);
                        }
                    }
                    if x == id@ {
                        assert(now[i as int] == x);
                    }
                    if ids.contains(x) {
                        let k = choose|k: int| 0 <= k < ids.len() && ids[k] == x;
                        if k < i {
                            assert(now[k] == x);
                        } else {
                            assert(now[k + 1] == x);
                        }
                    }
                }
                assert(self@ =~= old(self)@.insert(id@));
            }
        }
    }

    /// Expands the node `id` if it is collapsed, and collapses it if it is
    /// expanded.
    pub fn toggle(&mut self, id: &str)
        requires
            old(self).wf(),
        ensures
            final(self).wf(),
            final(self)@ == toggled(old(self)@, id@),
    {
        let was = self.is_expanded(id);
        if !was {
            self.insert(id);
        } else {
            let key = to_chars(id);
            let (i, found) = self.position(&key);
            let ghost ids = self.expanded.deep_view();
            proof {
                if !found {
                    let k = choose|k: int| 0 <= k < ids.len() && ids[k] == id@;
                    lemma_lex_asymmetric(ids[k], id@);
                }
            }
            let _gone = self.expanded.remove(i);
            proof {
                let now = self.expanded.deep_view();
                assert(now =~= ids.remove(i as int));
                assert forall|a: int, b: int| 0 <= a < b < now.len() implies lex_lt(now[a], now[b]) by {
                    let a0 = if a < i {
                        a
                    } else {
                        a + 1
                    };
                    let b0 = if b < i {
                        b
                    } else {
                        b + 1
                    };
                    assert(now[a] == ids[a0] && now[b] == ids[b0]);
                }
                assert forall|x: Seq<char>| now.contains(x) <==> (x != id@ && ids.contains(x)) by {
                    if now.contains(x) {
                        let k = choose|k: int| 0 <= k < now.len() && now[k] == x;
                        let k0 = if k < i {
                            k
                        } else {
                            k + 1
                        };
                        assert(ids[k0] == x);
                        if k0 < i {
                            lemma_lex_asymmetric(ids[k0], ids[i as int]);
                        } else {
                            lemma_lex_asymmetric(ids[i as int], ids[k0]);
                        }
                    }
                    if x != id@ && ids.contains(x) {
                        let k = choose|k: int| 0 <= k < ids.len() && ids[k] == x;
                        if k < i {
                            assert(now[k] == x);
                        } else {
                            assert(now[k - 1] == x);
                        }
                    }
                }
                assert(self@ =~= old(self)@.remove(id@));
            }
        }
    }

    /// The state in which exactly the given ids are expanded.
    pub fn from_ids(ids: &Vec<String>) -> (r: Self)
        ensures
            r.wf(),
            r@ == ids.deep_view().to_set(),
    {
        let mut st = ExpandedState::new();
        let ghost all = ids.deep_view();
        let mut i: usize = 0;
        assert(all.take(0).to_set() =~= Set::<Seq<char>>::empty());
        while i < ids.len()
            invariant
                i <= ids.len(),
                all == ids.deep_view(),
                st.wf(),
                st@ == all.take(i as int).to_set(),
            decreases ids.len() - i,
        {
            st.insert(ids[i].as_str());
            proof {
                let t = all.take(i + 1);
                let id = all[i as int];
                assert forall|x: Seq<char>| t.contains(x) <==> (x == id || all.take(
                    i as int,
                ).contains(x)) by {
                    if t.contains(x) {
                        let k = choose|k: int| 0 <= k < t.len() && t[k] == x;
                        if k < i {
                            assert(all.take(i as int)[k] == x);
                        }
                    }
                    if x == id {
                        assert(t[i as int] == x);
                    }
                    if all.take(i as int).contains(x) {
                        let k = choose|k: int| 0 <= k < i && all.take(i as int)[k] == x;
                        assert(t[k] == x);
                    }
                }
                assert(t.to_set() =~= all.take(i as int).to_set().insert(id));
            }
            i += 1;
        }
        assert(all.take(ids.len() as int) =~= all);
        st
    }

    /// The expanded ids, each once, in rising order.
    pub fn ids(&self) -> (r: Vec<String>)
        ensures
            r.deep_view() == self.ids_spec(),
    {
        let mut out: Vec<String> = Vec::new();
        let mut i: usize = 0;
        while i < self.expanded.len()
            invariant
                i <= self.expanded.len(),
                out@.len() == i,
                forall|k: int| 0 <= k < i ==> out@[k]@ == self.expanded@[k]@,
            decreases self.expanded.len() - i,
        {
            out.push(self.expanded[i].clone());
            i += 1;
        }
        assert(out.deep_view() =~= self.expanded.deep_view());
        out
    }
}

fn collect_dir_ids(node: &Node, acc: &mut Vec<String>)
    ensures
        final(acc).deep_view() == old(acc).deep_view() + dir_ids(node@),
    decreases node,
{
    let dir = node.node_type != NodeType::File && node.node_type != NodeType::Link;
    if dir {
        acc.push(node.id.clone());
    }
    assert(acc.deep_view() =~= old(acc).deep_view() + (if is_dir_like(node@.node_type) {
        seq![node@.id]
    } else {
        seq![]
    }));
    collect_dir_ids_all(&node.children, acc);
    proof {
        lemma_children_view(*node);
    }
}

fn collect_dir_ids_all(nodes: &Vec<Node>, acc: &mut Vec<String>)
    ensures
        final(acc).deep_view() == old(acc).deep_view() + dir_ids_all(views_of(nodes@)),
    decreases nodes,
{
    let ghost ns = views_of(nodes@);
    let mut i: usize = 0;
    assert(ns.take(0) =~= Seq::<NodeView>::empty());
    while i < nodes.len()
        invariant
            i <= nodes.len(),
            ns == views_of(nodes@),
            acc.deep_view() == old(acc).deep_view() + dir_ids_all(ns.take(i as int)),
        decreases nodes.len() - i,
    {
        collect_dir_ids(&nodes[i], acc);
        proof {
            let t = ns.take(i + 1);
            assert(t.drop_last() =~= ns.take(i as int));
            assert(t.last() == nodes@[i as int]@);
        }
        i += 1;
    }
    assert(ns.take(nodes.len() as int) =~= ns);
}

/// The state in which every node that can hold others is expanded.
pub fn expand_all(tree: &Tree) -> (r: ExpandedState)
    ensures
        r.wf(),
        r@ == dir_ids_all(tree@.roots).to_set(),
{
    let mut ids: Vec<String> = Vec::new();
    assert(ids.deep_view() =~= Seq::<Seq<char>>::empty());
    collect_dir_ids_all(&tree.roots, &mut ids);
    ExpandedState::from_ids(&ids)
}

} // verus!
