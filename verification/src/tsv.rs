//! The tree as a flat listing: one line for each node that is shown, with
//! tabs between its parts, for a program that lets the user pick a line.

use vstd::prelude::*;
use crate::model::{is_dir_like, lemma_children_view, views_of, Node, NodeType, NodeView, Tree};
use crate::state::ExpandedState;
use crate::text::{from_chars, push_range, push_str};

verus! {

/// The text that `regex::escape` gives for `s`: `s` with a backslash before
/// every character that has a meaning in a regular expression.
pub uninterp spec fn regex_escaped(s: Seq<char>) -> Seq<char>;

/// Whether `Regex::new` accepts the pattern.
pub uninterp spec fn regex_accepts(pattern: Seq<char>) -> bool;

/// Whether the regular expression `pattern` matches somewhere in `text`.
pub uninterp spec fn regex_matches(pattern: Seq<char>, text: Seq<char>) -> bool;

/// `regex::escape` returns the escaped form of the text, which depends on
/// the text alone.
pub assume_specification[ regex::escape ](pattern: &str) -> (r: String)
    ensures
        r@ == regex_escaped(pattern@),
;

/// Tries `Regex::new` of the `regex` crate on the pattern and says whether
/// it was accepted, which depends on the pattern alone.
#[verifier::external_body]
fn pattern_compiles(pattern: &str) -> (r: bool)
    ensures
        r == regex_accepts(pattern@),
{
    regex::Regex::new(pattern).is_ok()
}

/// Compiles the pattern with `Regex::new` and asks `Regex::is_match` for the
/// text. The answer depends on the pattern and the text alone. A pattern
/// that is not accepted is left out.
#[verifier::external_body]
fn pattern_matches(pattern: &str, text: &str) -> (r: bool)
    requires
        regex_accepts(pattern@),
    ensures
        r == regex_matches(pattern@, text@),
{
    match regex::Regex::new(pattern) {
        Ok(re) => re.is_match(text),
        Err(_) => false,
    }
}

/// The pattern of a fuzzy filter: the characters of the query in their
/// order, anything between them, whatever the case of the letters.
pub open spec fn fuzzy_pattern(q: Seq<char>) -> Seq<char>
    decreases q.len(),
{
    if q.len() == 0 {
        "(?i)"@
    } else {
        fuzzy_pattern(q.drop_last()) + ".*"@ + regex_escaped(seq![q.last()])
    }
}

/// The mark before a node: a triangle that points down for a directory that
/// is open, one that points right for a directory that is closed, a space
/// for anything else.
pub open spec fn glyph_spec(is_dir: bool, expanded: bool) -> Seq<char> {
    if is_dir {
        if expanded {
            "\u{25be}"@
        } else {
            "\u{25b8}"@
        }
    } else {
        " "@
    }
}

/// The code of a node, or nothing.
pub open spec fn code_text(n: NodeView) -> Seq<char> {
    match n.code {
        Some(c) => c,
        None => seq![],
    }
}

/// What the user sees of a node: the indentation, the mark, the code and the
/// title.
pub open spec fn display_spec(n: NodeView, ind: Seq<char>, expanded: bool) -> Seq<char> {
    ind + glyph_spec(is_dir_like(n.node_type), expanded) + " "@ + code_text(n) + (if code_text(
        n,
    ).len() == 0 {
        seq![]
    } else {
        " "@
    }) + n.title
}

/// Where a node leads: a link to its address, if it has one, anything else
/// to its path.
pub open spec fn target_spec(n: NodeView) -> Seq<char> {
    match (n.node_type, n.url) {
        (NodeType::Link, Some(u)) => u,
        _ => n.path,
    }
}

/// The kind of a node in a line.
pub open spec fn kind_text(t: NodeType) -> Seq<char> {
    match t {
        NodeType::File => "file"@,
        NodeType::Link => "link"@,
        _ => "dir"@,
    }
}

/// The text that a filter is tried on.
pub open spec fn hay_spec(n: NodeView, ind: Seq<char>, expanded: bool) -> Seq<char> {
    display_spec(n, ind, expanded) + " "@ + code_text(n) + " "@ + target_spec(n)
}

/// The line of a node: its kind, its id, what the user sees, where it leads
/// and the id of its parent, with a tab between two.
pub open spec fn line_spec(n: NodeView, ind: Seq<char>, expanded: bool, parent: Seq<char>) -> Seq<
    char,
> {
    kind_text(n.node_type) + "\t"@ + n.id + "\t"@ + display_spec(n, ind, expanded) + "\t"@
        + target_spec(n) + "\t"@ + parent
}

/// Whether a node is open: every node is where all are asked for, a root
/// unless roots are to be closed, any other node if the state says so.
pub open spec fn is_open(
    n: NodeView,
    is_root: bool,
    state: Set<Seq<char>>,
    show_all: bool,
    collapse_root: bool,
) -> bool {
    if show_all {
        true
    } else if is_root {
        !collapse_root
    } else {
        state.contains(n.id)
    }
}

/// The lines of a node and of what is shown below it: the node's own line
/// where `keep` holds of its text, then the lines of its children where it
/// is a directory and open.
pub open spec fn lines_of(
    n: NodeView,
    ind: Seq<char>,
    is_root: bool,
    parent: Seq<char>,
    state: Set<Seq<char>>,
    show_all: bool,
    collapse_root: bool,
    keep: spec_fn(Seq<char>) -> bool,
) -> Seq<Seq<char>>
    decreases n,
{
    let open = is_open(n, is_root, state, show_all, collapse_root);
    (if keep(hay_spec(n, ind, open)) {
        seq![line_spec(n, ind, open, parent)]
    } else {
        seq![]
    }) + (if is_dir_like(n.node_type) && open {
        lines_of_all(n.children, ind + "  "@, false, n.id, state, show_all, collapse_root, keep)
    } else {
        seq![]
    })
}

/// The lines of a list of nodes, one node after the other.
pub open spec fn lines_of_all(
    ns: Seq<NodeView>,
    ind: Seq<char>,
    is_root: bool,
    parent: Seq<char>,
    state: Set<Seq<char>>,
    show_all: bool,
    collapse_root: bool,
    keep: spec_fn(Seq<char>) -> bool,
) -> Seq<Seq<char>>
    decreases ns,
{
    if ns.len() == 0 {
        seq![]
    } else {
        lines_of_all(ns.drop_last(), ind, is_root, parent, state, show_all, collapse_root, keep)
            + lines_of(ns.last(), ind, is_root, parent, state, show_all, collapse_root, keep)
    }
}

/// What a filter keeps: everything where there is none, else the texts that
/// its pattern matches.
pub open spec fn keeps(pattern: Option<Seq<char>>) -> spec_fn(Seq<char>) -> bool {
    |hay: Seq<char>|
        match pattern {
            Some(p) => regex_matches(p, hay),
            None => true,
        }
}

/// The listing of a tree under a filter. There is none where the filter's
/// pattern is not accepted.
pub open spec fn flatten_spec(
    roots: Seq<NodeView>,
    filter: Option<Seq<char>>,
    state: Set<Seq<char>>,
    show_all: bool,
    collapse_root: bool,
) -> Option<Seq<Seq<char>>> {
    let pattern = match filter {
        Some(q) => Some(fuzzy_pattern(q)),
        None => None,
    };
    if pattern is Some && !regex_accepts(pattern->0) {
        None
    } else {
        Some(
            lines_of_all(
                roots,
                seq![],
                true,
                seq![],
                state,
                show_all,
                collapse_root,
                keeps(pattern),
            ),
        )
    }
}

/// The mark before a node.
pub fn glyph(is_dir: bool, expanded: bool) -> (r: &'static str)
    ensures
        r@ == glyph_spec(is_dir, expanded),
{
    if is_dir {
        if expanded {
            "\u{25be}"
        } else {
            "\u{25b8}"
        }
    } else {
        " "
    }
}

/// The pattern of a fuzzy filter for the query `q`.
pub fn build_fuzzy(q: &str) -> (r: String)
    ensures
        r@ == fuzzy_pattern(q@),
{
    let mut v: Vec<char> = Vec::new();
    push_str(&mut v, "(?i)");
    assert(q@.take(0) =~= Seq::<char>::empty());
    assert(v@ =~= "(?i)"@);
    for c in it: q.chars()
        invariant
            it.seq() == q@,
            v@ == fuzzy_pattern(q@.take(it.index())),
    {
        let mut one = String::new();
        one.push(c);
        let esc = regex::escape(one.as_str());
        proof {
            let t = q@.take(it.index() + 1);
            assert(t.drop_last() =~= q@.take(it.index()));
            assert(t.last() == c);
            assert(one@ =~= seq![c]);
        }
        let ghost before = v@;
        push_str(&mut v, ".*");
        push_str(&mut v, esc.as_str());
        assert(v@ =~= before + ".*"@ + esc@);
    }
    assert(q@.take(q@.len() as int) =~= q@);
    from_chars(&v)
}

fn is_dir_kind(t: NodeType) -> (r: bool)
    ensures
        r == is_dir_like(t),
{
    t != NodeType::File && t != NodeType::Link
}

fn push_display(v: &mut Vec<char>, node: &Node, ind: &Vec<char>, expanded: bool)
    ensures
        final(v)@ == old(v)@ + display_spec(node@, ind@, expanded),
{
    push_range(v, ind, 0, ind.len());
    assert(ind@.subrange(0, ind.len() as int) =~= ind@);
    push_str(v, glyph(is_dir_kind(node.node_type), expanded));
    push_str(v, " ");
    let ghost head = old(v)@ + ind@ + glyph_spec(is_dir_like(node@.node_type), expanded) + " "@;
    assert(v@ =~= head);
    match &node.code {
        Some(c) => {
            push_str(v, c.as_str());
            if c.as_str().unicode_len() > 0 {
                push_str(v, " ");
            }
        },
        None => {},
    }
    let ghost mid = head + code_text(node@) + (if code_text(node@).len() == 0 {
        seq![]
    } else {
        " "@
    });
    assert(v@ =~= mid);
    push_str(v, node.title.as_str());
    assert(v@ =~= old(v)@ + display_spec(node@, ind@, expanded));
}

fn push_code(v: &mut Vec<char>, node: &Node)
    ensures
        final(v)@ == old(v)@ + code_text(node@),
{
    match &node.code {
        Some(c) => push_str(v, c.as_str()),
        None => {
            assert(v@ =~= old(v)@ + code_text(node@));
        },
    }
}

fn push_target(v: &mut Vec<char>, node: &Node)
    ensures
        final(v)@ == old(v)@ + target_spec(node@),
{
    match (node.node_type, &node.url) {
        (NodeType::Link, Some(u)) => push_str(v, u.as_str()),
        _ => push_str(v, node.path.as_str()),
    }
}

fn kind_of(t: NodeType) -> (r: &'static str)
    ensures
        r@ == kind_text(t),
{
    match t {
        NodeType::File => "file",
        NodeType::Link => "link",
        _ => "dir",
    }
}

/// The text of a node that a filter is tried on.
pub fn tsv_hay(node: &Node, ind: &Vec<char>, expanded: bool) -> (r: String)
    ensures
        r@ == hay_spec(node@, ind@, expanded),
{
    let mut v: Vec<char> = Vec::new();
    push_display(&mut v, node, ind, expanded);
    push_str(&mut v, " ");
    push_code(&mut v, node);
    push_str(&mut v, " ");
    push_target(&mut v, node);
    assert(v@ =~= hay_spec(node@, ind@, expanded));
    from_chars(&v)
}

/// The line of a node.
pub fn tsv_line(node: &Node, ind: &Vec<char>, expanded: bool, parent_id: &str) -> (r: String)
    ensures
        r@ == line_spec(node@, ind@, expanded, parent_id@),
{
    let mut v: Vec<char> = Vec::new();
    push_str(&mut v, kind_of(node.node_type));
    push_str(&mut v, "\t");
    push_str(&mut v, node.id.as_str());
    push_str(&mut v, "\t");
    let ghost a = kind_text(node@.node_type) + "\t"@ + node@.id + "\t"@;
    assert(v@ =~= a);
    push_display(&mut v, node, ind, expanded);
    push_str(&mut v, "\t");
    let ghost b = a + display_spec(node@, ind@, expanded) + "\t"@;
    assert(v@ =~= b);
    push_target(&mut v, node);
    push_str(&mut v, "\t");
    push_str(&mut v, parent_id);
    assert(v@ =~= line_spec(node@, ind@, expanded, parent_id@));
    from_chars(&v)
}

fn push_node(
    lines: &mut Vec<String>,
    node: &Node,
    ind: &Vec<char>,
    is_root: bool,
    parent_id: &str,
    pattern: Option<&String>,
    expanded: &ExpandedState,
    show_all: bool,
    collapse_root: bool,
)
    requires
        expanded.wf(),
        pattern is Some ==> regex_accepts(pattern->0@),
    ensures
        final(lines).deep_view() == old(lines).deep_view() + lines_of(
            node@,
            ind@,
            is_root,
            parent_id@,
            expanded@,
            show_all,
            collapse_root,
            keeps(pattern.deep_view()),
        ),
    decreases node,
{
    let open = if show_all {
        true
    } else if is_root {
        !collapse_root
    } else {
        expanded.is_expanded(node.id.as_str())
    };
    let keep = match pattern {
        Some(p) => {
            let hay = tsv_hay(node, ind, open);
            pattern_matches(p.as_str(), hay.as_str())
        },
        None => true,
    };
    let ghost own = if keep {
        seq![line_spec(node@, ind@, open, parent_id@)]
    } else {
        seq![]
    };
    if keep {
        let line = tsv_line(node, ind, open, parent_id);
        lines.push(line);
    }
    assert(lines.deep_view() =~= old(lines).deep_view() + own);
    if is_dir_kind(node.node_type) && open {
        let mut inner: Vec<char> = Vec::new();
        push_range(&mut inner, ind, 0, ind.len());
        assert(ind@.subrange(0, ind.len() as int) =~= ind@);
        push_str(&mut inner, "  ");
        assert(inner@ =~= ind@ + "  "@);
        push_nodes(
            lines,
            &node.children,
            &inner,
            false,
            node.id.as_str(),
            pattern,
            expanded,
            show_all,
            collapse_root,
        );
        proof {
            lemma_children_view(*node);
        }
    }
}

fn push_nodes(
    lines: &mut Vec<String>,
    nodes: &Vec<Node>,
    ind: &Vec<char>,
    is_root: bool,
    parent_id: &str,
    pattern: Option<&String>,
    expanded: &ExpandedState,
    show_all: bool,
    collapse_root: bool,
)
    requires
        expanded.wf(),
        pattern is Some ==> regex_accepts(pattern->0@),
    ensures
        final(lines).deep_view() == old(lines).deep_view() + lines_of_all(
            views_of(nodes@),
            ind@,
            is_root,
            parent_id@,
            expanded@,
            show_all,
            collapse_root,
            keeps(pattern.deep_view()),
        ),
    decreases nodes,
{
    let ghost ns = views_of(nodes@);
    let ghost keep = keeps(pattern.deep_view());
    let ghost st = expanded@;
    let ghost base = lines.deep_view();
    let ghost p = parent_id@;
    let ghost d = ind@;
    let mut i: usize = 0;
    assert(ns.take(0) =~= Seq::<NodeView>::empty());
    assert(base + lines_of_all(ns.take(0), d, is_root, p, st, show_all, collapse_root, keep)
        =~= base);
    while i < nodes.len()
        invariant
            i <= nodes.len(),
            ns == views_of(nodes@),
            keep == keeps(pattern.deep_view()),
            st == expanded@,
            p == parent_id@,
            d == ind@,
            expanded.wf(),
            pattern is Some ==> regex_accepts(pattern->0@),
            lines.deep_view() == base + lines_of_all(
                ns.take(i as int),
                d,
                is_root,
                p,
                st,
                show_all,
                collapse_root,
                keep,
            ),
        decreases nodes.len() - i,
    {
        let ghost before = lines.deep_view();
        let ghost done = lines_of_all(
            ns.take(i as int),
            d,
            is_root,
            p,
            st,
            show_all,
            collapse_root,
            keep,
        );
        push_node(
            lines,
            &nodes[i],
            ind,
            is_root,
            parent_id,
            pattern,
            expanded,
            show_all,
            collapse_root,
        );
        proof {
            let t = ns.take(i + 1);
            let own = lines_of(nodes@[i as int]@, d, is_root, p, st, show_all, collapse_root, keep);
            assert(lines.deep_view() == before + own);
            assert(t.drop_last() =~= ns.take(i as int));
            assert(t.last() == nodes@[i as int]@);
            assert(t.len() > 0);
            assert(lines_of_all(t, d, is_root, p, st, show_all, collapse_root, keep) == done + own);
            assert(base + done + own =~= base + (done + own));
        }
        i += 1;
    }
    assert(ns.take(nodes.len() as int) =~= ns);
}

/// The listing of the tree: the lines of the nodes that are shown, a node
/// before its children. With a filter, only the lines that it matches are
/// kept; `None` where the filter's pattern is not accepted.
pub fn flatten_to_tsv(
    tree: &Tree,
    filter: Option<&str>,
    expanded: &ExpandedState,
    show_all: bool,
    collapse_root: bool,
) -> (r: Option<Vec<String>>)
    requires
        expanded.wf(),
    ensures
        r.deep_view() == flatten_spec(
            tree@.roots,
            match filter {
                Some(q) => Some(q@),
                None => None,
            },
            expanded@,
            show_all,
            collapse_root,
        ),
{
    let pattern = match filter {
        Some(q) => Some(build_fuzzy(q)),
        None => None,
    };
    match &pattern {
        Some(p) => {
            if !pattern_compiles(p.as_str()) {
                return None;
            }
        },
        None => {},
    }
    let mut lines: Vec<String> = Vec::new();
    let ind: Vec<char> = Vec::new();
    assert(lines.deep_view() =~= Seq::<Seq<char>>::empty());
    push_nodes(
        &mut lines,
        &tree.roots,
        &ind,
        true,
        "",
        pattern.as_ref(),
        expanded,
        show_all,
        collapse_root,
    );
    proof {
        reveal_strlit("");
        assert(""@ =~= Seq::<char>::empty());
        assert(ind@ =~= Seq::<char>::empty());
    }
    Some(lines)
}

} // verus!
