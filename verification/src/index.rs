//! The index snapshot: the tree written down as a document, and the place
//! where it is kept.
//!
//! The document is JSON, indented by two spaces. It is an object with the
//! one member `roots`, a list of nodes. A node is an object with the members
//! `id`, `code`, `title`, `path`, `node_type`, `location`, `url` and
//! `children`, in this order; a member without a value is `null`, and
//! `children` is a list of nodes again.

use vstd::prelude::*;
use crate::model::{lemma_children_view, views_of, Node, NodeType, NodeView, Tree};
use crate::paths::{join_path, join_spec};
use crate::text::{from_chars, push_range, push_str};

verus! {

/// The name of the snapshot's file.
pub const INDEX_FILE_NAME: &'static str = ".jd_index.json";

/// The character of the hexadecimal digit `d`, in lower case.
pub open spec fn hex_char(d: int) -> char
    recommends
        0 <= d < 16,
{
    if d == 0 {
        '0'
    } else if d == 1 {
        '1'
    } else if d == 2 {
        '2'
    } else if d == 3 {
        '3'
    } else if d == 4 {
        '4'
    } else if d == 5 {
        '5'
    } else if d == 6 {
        '6'
    } else if d == 7 {
        '7'
    } else if d == 8 {
        '8'
    } else if d == 9 {
        '9'
    } else if d == 10 {
        'a'
    } else if d == 11 {
        'b'
    } else if d == 12 {
        'c'
    } else if d == 13 {
        'd'
    } else if d == 14 {
        'e'
    } else {
        'f'
    }
}

/// How one character stands in a JSON string: the quote, the backslash and
/// the control characters are escaped, every other character stands for
/// itself.
pub open spec fn escape_char(c: char) -> Seq<char> {
    if c == '"' {
        seq!['\\', '"']
    } else if c == '\\' {
        seq!['\\', '\\']
    } else if c == '\n' {
        seq!['\\', 'n']
    } else if c == '\r' {
        seq!['\\', 'r']
    } else if c == '\t' {
        seq!['\\', 't']
    } else if c == '\u{8}' {
        seq!['\\', 'b']
    } else if c == '\u{c}' {
        seq!['\\', 'f']
    } else if c <= '\u{1f}' {
        seq!['\\', 'u', '0', '0', hex_char((c as u32 / 16) as int), hex_char((c as u32 % 16) as int)]
    } else {
        seq![c]
    }
}

/// The characters of a text as they stand in a JSON string.
pub open spec fn escape_all(s: Seq<char>) -> Seq<char>
    decreases s.len(),
{
    if s.len() == 0 {
        seq![]
    } else {
        escape_all(s.drop_last()) + escape_char(s.last())
    }
}

/// A text as a JSON string.
pub open spec fn json_string(s: Seq<char>) -> Seq<char> {
    seq!['"'] + escape_all(s) + seq!['"']
}

/// A text that may be missing: a JSON string or `null`.
pub open spec fn json_opt(s: Option<Seq<char>>) -> Seq<char> {
    match s {
        Some(x) => json_string(x),
        None => "null"@,
    }
}

/// The name of a kind of node.
pub open spec fn node_type_name(t: NodeType) -> Seq<char> {
    match t {
        NodeType::Range => "Range"@,
        NodeType::Category => "Category"@,
        NodeType::ItemDir => "ItemDir"@,
        NodeType::File => "File"@,
        NodeType::Link => "Link"@,
        NodeType::Other => "Other"@,
    }
}

/// One member of an object: a line feed, the indentation, the key in quotes,
/// a colon, a space and the value.
#[verifier::opaque]
pub open spec fn json_member(ind: Seq<char>, key: Seq<char>, value: Seq<char>) -> Seq<char> {
    seq!['\n'] + ind + seq!['"'] + key + seq!['"', ':', ' '] + value
}

/// The members of a node that hold no nodes, each indented by `ind`, with a
/// comma behind each.
#[verifier::opaque]
pub open spec fn json_fields(n: NodeView, ind: Seq<char>) -> Seq<char> {
    json_member(ind, "id"@, json_string(n.id)) + seq![','] + json_member(
        ind,
        "code"@,
        json_opt(n.code),
    ) + seq![','] + json_member(ind, "title"@, json_string(n.title)) + seq![','] + json_member(
        ind,
        "path"@,
        json_string(n.path),
    ) + seq![','] + json_member(ind, "node_type"@, json_string(node_type_name(n.node_type)))
        + seq![','] + json_member(ind, "location"@, json_opt(n.location)) + seq![',']
        + json_member(ind, "url"@, json_opt(n.url)) + seq![',']
}

/// A node as a JSON object whose closing brace is indented by `ind`.
pub open spec fn json_node(n: NodeView, ind: Seq<char>) -> Seq<char>
    decreases n, 0int,
{
    let inner = ind + seq![' ', ' '];
    seq!['{'] + json_fields(n, inner) + json_member(
        inner,
        "children"@,
        json_nodes(n.children, inner),
    ) + seq!['\n'] + ind + seq!['}']
}

/// A list of nodes as a JSON list whose closing bracket is indented by
/// `ind`; the empty list is `[]`.
pub open spec fn json_nodes(ns: Seq<NodeView>, ind: Seq<char>) -> Seq<char>
    decreases ns, 1int,
{
    if ns.len() == 0 {
        seq!['[', ']']
    } else {
        seq!['['] + json_items(ns, ind + seq![' ', ' ']) + seq!['\n'] + ind + seq![']']
    }
}

/// The items of a list, each on a new line behind the indentation `ind`,
/// with a comma between two.
pub open spec fn json_items(ns: Seq<NodeView>, ind: Seq<char>) -> Seq<char>
    decreases ns, 0int,
{
    if ns.len() == 0 {
        seq![]
    } else {
        json_items(ns.drop_last(), ind) + (if ns.len() > 1 {
            seq![',']
        } else {
            seq![]
        }) + seq!['\n'] + ind + json_node(ns.last(), ind)
    }
}

/// The snapshot of a tree.
pub open spec fn json_tree(roots: Seq<NodeView>) -> Seq<char> {
    seq!['{'] + json_member(seq![' ', ' '], "roots"@, json_nodes(roots, seq![' ', ' '])) + seq![
        '\n',
        '}',
    ]
}

fn hex_digit(d: u32) -> (c: char)
    requires
        d < 16,
    ensures
        c == hex_char(d as int),
{
    if d == 0 {
        '0'
    } else if d == 1 {
        '1'
    } else if d == 2 {
        '2'
    } else if d == 3 {
        '3'
    } else if d == 4 {
        '4'
    } else if d == 5 {
        '5'
    } else if d == 6 {
        '6'
    } else if d == 7 {
        '7'
    } else if d == 8 {
        '8'
    } else if d == 9 {
        '9'
    } else if d == 10 {
        'a'
    } else if d == 11 {
        'b'
    } else if d == 12 {
        'c'
    } else if d == 13 {
        'd'
    } else if d == 14 {
        'e'
    } else {
        'f'
    }
}

fn push_escaped(v: &mut Vec<char>, c: char)
    ensures
        final(v)@ == old(v)@ + escape_char(c),
{
    if c == '"' {
        v.push('\\');
        v.push('"');
    } else if c == '\\' {
        v.push('\\');
        v.push('\\');
    } else if c == '\n' {
        v.push('\\');
        v.push('n');
    } else if c == '\r' {
        v.push('\\');
        v.push('r');
    } else if c == '\t' {
        v.push('\\');
        v.push('t');
    } else if c == '\u{8}' {
        v.push('\\');
        v.push('b');
    } else if c == '\u{c}' {
        v.push('\\');
        v.push('f');
    } else if c <= '\u{1f}' {
        let n = c as u32;
        v.push('\\');
        v.push('u');
        v.push('0');
        v.push('0');
        v.push(hex_digit(n / 16));
        v.push(hex_digit(n % 16));
    } else {
        v.push(c);
    }
    assert(v@ =~= old(v)@ + escape_char(c));
}

/// Appends `s` as a JSON string.
pub fn push_json_string(v: &mut Vec<char>, s: &str)
    ensures
        final(v)@ == old(v)@ + json_string(s@),
{
    v.push('"');
    let ghost start = v@;
    assert(s@.take(0) =~= Seq::<char>::empty());
    for c in it: s.chars()
        invariant
            it.seq() == s@,
            v@ == start + escape_all(s@.take(it.index())),
    {
        proof {
            let t = s@.take(it.index() + 1);
            assert(t.drop_last() =~= s@.take(it.index()));
            assert(t.last() == c);
        }
        push_escaped(v, c);
    }
    assert(s@.take(s@.len() as int) =~= s@);
    v.push('"');
    assert(v@ =~= old(v)@ + json_string(s@));
}

/// The text `s` as a JSON string.
pub fn json_string_of(s: &str) -> (r: String)
    ensures
        r@ == json_string(s@),
{
    let mut v: Vec<char> = Vec::new();
    push_json_string(&mut v, s);
    assert(v@ =~= json_string(s@));
    from_chars(&v)
}

fn push_json_opt(v: &mut Vec<char>, s: &Option<String>)
    ensures
        final(v)@ == old(v)@ + json_opt(s.deep_view()),
{
    match s {
        Some(x) => push_json_string(v, x.as_str()),
        None => push_str(v, "null"),
    }
}

fn kind_name(t: NodeType) -> (r: &'static str)
    ensures
        r@ == node_type_name(t),
{
    match t {
        NodeType::Range => "Range",
        NodeType::Category => "Category",
        NodeType::ItemDir => "ItemDir",
        NodeType::File => "File",
        NodeType::Link => "Link",
        NodeType::Other => "Other",
    }
}

fn push_key(v: &mut Vec<char>, ind: &Vec<char>, key: &str)
    ensures
        final(v)@ == old(v)@ + seq!['\n'] + ind@ + seq!['"'] + key@ + seq!['"', ':', ' '],
{
    v.push('\n');
    push_range(v, ind, 0, ind.len());
    assert(ind@.subrange(0, ind.len() as int) =~= ind@);
    v.push('"');
    push_str(v, key);
    v.push('"');
    v.push(':');
    v.push(' ');
    assert(v@ =~= old(v)@ + seq!['\n'] + ind@ + seq!['"'] + key@ + seq!['"', ':', ' ']);
}

fn push_text_member(v: &mut Vec<char>, ind: &Vec<char>, key: &str, value: &str)
    ensures
        final(v)@ == old(v)@ + json_member(ind@, key@, json_string(value@)) + seq![','],
{
    reveal(json_member);
    push_key(v, ind, key);
    push_json_string(v, value);
    v.push(',');
    assert(v@ =~= old(v)@ + json_member(ind@, key@, json_string(value@)) + seq![',']);
}

fn push_opt_member(v: &mut Vec<char>, ind: &Vec<char>, key: &str, value: &Option<String>)
    ensures
        final(v)@ == old(v)@ + json_member(ind@, key@, json_opt(value.deep_view())) + seq![','],
{
    reveal(json_member);
    push_key(v, ind, key);
    push_json_opt(v, value);
    v.push(',');
    assert(v@ =~= old(v)@ + json_member(ind@, key@, json_opt(value.deep_view())) + seq![',']);
}

fn push_fields(v: &mut Vec<char>, node: &Node, ind: &Vec<char>)
    ensures
        final(v)@ == old(v)@ + json_fields(node@, ind@),
{
    push_text_member(v, ind, "id", node.id.as_str());
    push_opt_member(v, ind, "code", &node.code);
    push_text_member(v, ind, "title", node.title.as_str());
    push_text_member(v, ind, "path", node.path.as_str());
    push_text_member(v, ind, "node_type", kind_name(node.node_type));
    push_opt_member(v, ind, "location", &node.location);
    push_opt_member(v, ind, "url", &node.url);
    reveal(json_fields);
    assert(v@ =~= old(v)@ + json_fields(node@, ind@));
}

fn deeper(ind: &Vec<char>) -> (r: Vec<char>)
    ensures
        r@ == ind@ + seq![' ', ' '],
{
    let mut r: Vec<char> = Vec::new();
    push_range(&mut r, ind, 0, ind.len());
    assert(ind@.subrange(0, ind.len() as int) =~= ind@);
    r.push(' ');
    r.push(' ');
    assert(r@ =~= ind@ + seq![' ', ' ']);
    r
}

fn push_node(v: &mut Vec<char>, node: &Node, ind: &Vec<char>)
    ensures
        final(v)@ == old(v)@ + json_node(node@, ind@),
    decreases node, 1int,
{
    let inner = deeper(ind);
    let ghost fields = json_fields(node@, inner@);
    let ghost kids = json_nodes(views_of(node.children@), inner@);
    let ghost member = json_member(inner@, "children"@, kids);
    v.push('{');
    push_fields(v, node, &inner);
    let ghost v2 = v@;
    assert(v2 =~= old(v)@ + (seq!['{'] + fields));
    push_key(v, &inner, "children");
    push_nodes(v, &node.children, &inner);
    let ghost v3 = v@;
    assert(v3 =~= v2 + member) by {
        reveal(json_member);
    }
    assert(v3 =~= old(v)@ + (seq!['{'] + fields + member));
    v.push('\n');
    let ghost v4 = v@;
    assert(v4 =~= old(v)@ + (seq!['{'] + fields + member + seq!['\n']));
    push_range(v, ind, 0, ind.len());
    assert(ind@.subrange(0, ind.len() as int) =~= ind@);
    let ghost v5 = v@;
    assert(v5 =~= old(v)@ + (seq!['{'] + fields + member + seq!['\n'] + ind@));
    v.push('}');
    assert(v@ =~= old(v)@ + (seq!['{'] + fields + member + seq!['\n'] + ind@ + seq!['}']));
    assert(json_node(node@, ind@) == seq!['{'] + fields + member + seq!['\n'] + ind@ + seq!['}'])
        by {
        lemma_children_view(*node);
    }
}

fn push_nodes(v: &mut Vec<char>, nodes: &Vec<Node>, ind: &Vec<char>)
    ensures
        final(v)@ == old(v)@ + json_nodes(views_of(nodes@), ind@),
    decreases nodes, 0int,
{
    let ghost ns = views_of(nodes@);
    if nodes.len() == 0 {
        v.push('[');
        v.push(']');
        assert(v@ =~= old(v)@ + seq!['[', ']']);
        return ;
    }
    let inner = deeper(ind);
    v.push('[');
    let ghost start = v@;
    let mut k: usize = 0;
    assert(ns.take(0) =~= Seq::<NodeView>::empty());
    while k < nodes.len()
        invariant
            k <= nodes.len(),
            ns == views_of(nodes@),
            inner@ == ind@ + seq![' ', ' '],
            v@ == start + json_items(ns.take(k as int), inner@),
        decreases nodes.len() - k,
    {
        let ghost before = v@;
        if k > 0 {
            v.push(',');
        }
        v.push('\n');
        push_range(v, &inner, 0, inner.len());
        assert(inner@.subrange(0, inner.len() as int) =~= inner@);
        push_node(v, &nodes[k], &inner);
        proof {
            let t = ns.take(k + 1);
            assert(t.drop_last() =~= ns.take(k as int));
            assert(t.last() == nodes@[k as int]@);
            assert(t.len() == k + 1);
            assert(v@ =~= before + (if k > 0 {
                seq![',']
            } else {
                seq![]
            }) + seq!['\n'] + inner@ + json_node(t.last(), inner@));
            assert(v@ =~= start + json_items(t, inner@));
        }
        k += 1;
    }
    assert(ns.take(nodes.len() as int) =~= ns);
    v.push('\n');
    push_range(v, ind, 0, ind.len());
    assert(ind@.subrange(0, ind.len() as int) =~= ind@);
    v.push(']');
    assert(v@ =~= old(v)@ + json_nodes(ns, ind@));
}

/// The snapshot of the tree: the same text for the same tree, member by
/// member and child by child in their order.
pub fn index_json(tree: &Tree) -> (r: String)
    ensures
        r@ == json_tree(tree@.roots),
{
    let mut v: Vec<char> = Vec::new();
    let mut ind: Vec<char> = Vec::new();
    ind.push(' ');
    ind.push(' ');
    assert(ind@ =~= seq![' ', ' ']);
    v.push('{');
    push_key(&mut v, &ind, "roots");
    push_nodes(&mut v, &tree.roots, &ind);
    v.push('\n');
    v.push('}');
    proof {
        reveal(json_member);
    }
    assert(v@ =~= json_tree(tree@.roots));
    from_chars(&v)
}

/// Where the snapshot is kept when nothing says where: below the user's
/// home directory, or below the current directory where no home is known.
pub open spec fn default_index_spec(home: Option<Seq<char>>) -> Seq<char> {
    join_spec(
        join_spec(
            join_spec(
                match home {
                    Some(h) => h,
                    None => "."@,
                },
                ".config"@,
            ),
            "jd"@,
        ),
        INDEX_FILE_NAME@,
    )
}

/// Where the snapshot of a tree is kept: at the path that was asked for;
/// else in the root, where exactly one root was scanned; else at the default
/// place.
pub open spec fn index_target(
    out: Option<Seq<char>>,
    roots: Seq<NodeView>,
    home: Option<Seq<char>>,
) -> Seq<char> {
    match out {
        Some(p) => p,
        None => if roots.len() == 1 {
            join_spec(roots[0].path, INDEX_FILE_NAME@)
        } else {
            default_index_spec(home)
        },
    }
}

/// Two trees with the same nodes have the same snapshot, character by
/// character, and it is kept at the same place.
pub proof fn lemma_snapshot_is_stable(
    a: Tree,
    b: Tree,
    out: Option<Seq<char>>,
    home: Option<Seq<char>>,
)
    requires
        a@ == b@,
    ensures
        json_tree(a@.roots) == json_tree(b@.roots),
        index_target(out, a@.roots, home) == index_target(out, b@.roots, home),
{
}

/// The default place of the snapshot.
pub fn default_index_path(home: Option<&str>) -> (r: String)
    ensures
        r@ == default_index_spec(
            match home {
                Some(h) => Some(h@),
                None => None,
            },
        ),
{
    let base = match home {
        Some(h) => h,
        None => ".",
    };
    let a = join_path(base, ".config");
    let b = join_path(a.as_str(), "jd");
    join_path(b.as_str(), INDEX_FILE_NAME)
}

/// A snapshot that is ready to be written: the file and what goes into it.
#[derive(Debug, PartialEq, Eq)]
pub struct IndexWrite {
    pub path: String,
    pub content: String,
}

/// Writes the index snapshot.
#[derive(Debug, Clone, Copy, Default)]
pub struct IndexIo;

impl IndexIo {
    /// The snapshot of `tree` and the file that it belongs in. `out` is the
    /// path that was asked for, if one was; `home` is the user's home
    /// directory, if it is known.
    pub fn write_index(&self, out: Option<&str>, tree: &Tree, home: Option<&str>) -> (r: IndexWrite)
        ensures
            r.path@ == index_target(
                match out {
                    Some(p) => Some(p@),
                    None => None,
                },
                tree@.roots,
                match home {
                    Some(h) => Some(h@),
                    None => None,
                },
            ),
            r.content@ == json_tree(tree@.roots),
    {
        let content = index_json(tree);
        let path = match out {
            Some(p) => p.to_owned(),
            None => {
                if tree.roots.len() == 1 {
                    assert(tree@.roots[0] == tree.roots@[0]@);
                    join_path(tree.roots[0].path.as_str(), INDEX_FILE_NAME)
                } else {
                    default_index_path(home)
                }
            },
        };
        IndexWrite { path, content }
    }
}

} // verus!
