//! What the user's answer to "name the new entry" means: under which node
//! the entry goes, and what it is called.
//!
//! The answer may begin with a code, which a space, an underscore or a dash
//! parts from the title. An item code `NN.MM` sends the entry to the
//! category `NN`, wherever the user stands. Two digits alone are a category
//! code; a text that begins with two digits and one of the three dividers
//! is read so, whatever follows. An answer without a code gets the next
//! free code of the node that the user stands on, if that is a category or
//! a range.

use vstd::prelude::*;
use crate::codes::{
    next_category_code, next_item_code, suggest_next_category_in_range, suggest_next_code,
};
use crate::error::JdError;
use crate::model::{lemma_children_view, views_of, Node, NodeType, NodeView, Tree};
use crate::mutate::{sanitize_spec, sanitize_title};
use crate::naming::no_newline_from;
use crate::query::{codes_of_all, find_by_id, find_in, find_in_all, has_id};
use crate::text::{
    char_is_digit, from_chars, is_digit, push_range, push_str, sub_string, to_chars, trim_bounds,
    trimmed,
};

verus! {

/// One of the characters that part a code from a title.
pub open spec fn is_divider(c: char) -> bool {
    c == ' ' || c == '_' || c == '-'
}

/// The answer begins with an item code `NN.MM`, a divider and a title.
pub open spec fn has_item_code(s: Seq<char>) -> bool {
    &&& s.len() >= 7
    &&& is_digit(s[0])
    &&& is_digit(s[1])
    &&& s[2] == '.'
    &&& is_digit(s[3])
    &&& is_digit(s[4])
    &&& is_divider(s[5])
    &&& no_newline_from(s, 6)
}

/// The answer begins with two digits, a divider and a title.
pub open spec fn has_category_code(s: Seq<char>) -> bool {
    &&& s.len() >= 4
    &&& is_digit(s[0])
    &&& is_digit(s[1])
    &&& is_divider(s[2])
    &&& no_newline_from(s, 3)
}

/// The node is a category with the code.
pub open spec fn is_category(code: Seq<char>) -> spec_fn(NodeView) -> bool {
    |n: NodeView| n.node_type == NodeType::Category && n.code == Some(code)
}

/// A code and a title as a file name.
pub open spec fn coded_name(code: Seq<char>, title: Seq<char>) -> Seq<char> {
    code + "_"@ + title
}

/// The node below which the new entry goes, and the entry's name; `None`
/// for an empty answer.
/// - `NotFound` where no node carries `parent_id`, or the answer names an
///   item of a category that is not in the tree.
/// - An answer without a code is the title. Under a category it gets the
///   category's next item code, under a range the range's next category
///   code, with the errors of those; elsewhere it stands alone.
pub open spec fn entry_target(roots: Seq<NodeView>, parent_id: Seq<char>, answer: Seq<char>) -> Result<
    Option<(Seq<char>, Seq<char>)>,
    JdError,
> {
    let input = trimmed(answer);
    match find_in_all(roots, has_id(parent_id)) {
        None => Err(JdError::NotFound),
        Some(selected) => if input.len() == 0 {
            Ok(None)
        } else if has_item_code(input) {
            match find_in_all(roots, is_category(input.subrange(0, 2))) {
                Some(category) => Ok(
                    Some(
                        (
                            category.id,
                            coded_name(
                                input.subrange(0, 5),
                                sanitize_spec(input.subrange(6, input.len() as int)),
                            ),
                        ),
                    ),
                ),
                None => Err(JdError::NotFound),
            }
        } else if has_category_code(input) {
            Ok(
                Some(
                    (
                        parent_id,
                        coded_name(
                            input.subrange(0, 2),
                            sanitize_spec(input.subrange(3, input.len() as int)),
                        ),
                    ),
                ),
            )
        } else {
            untitled_target(roots, parent_id, selected, sanitize_spec(input))
        },
    }
}

/// The target for a title without a code, given under the node `selected`.
pub open spec fn untitled_target(
    roots: Seq<NodeView>,
    parent_id: Seq<char>,
    selected: NodeView,
    title: Seq<char>,
) -> Result<Option<(Seq<char>, Seq<char>)>, JdError> {
    match (selected.node_type, selected.code) {
        (NodeType::Category, Some(code)) => match next_item_code(codes_of_all(roots), code) {
            Ok(next) => Ok(Some((parent_id, coded_name(next, title)))),
            Err(e) => Err(e),
        },
        (NodeType::Category, None) => Err(JdError::NotFound),
        (NodeType::Range, Some(code)) => match next_category_code(roots, code) {
            Ok(next) => Ok(Some((parent_id, coded_name(next, title)))),
            Err(e) => Err(e),
        },
        (NodeType::Range, None) => Err(JdError::NotFound),
        _ => Ok(Some((parent_id, title))),
    }
}

/// The value of a target.
pub open spec fn target_view(r: Result<Option<(String, String)>, JdError>) -> Result<
    Option<(Seq<char>, Seq<char>)>,
    JdError,
> {
    match r {
        Ok(Some((a, b))) => Ok(Some((a@, b@))),
        Ok(None) => Ok(None),
        Err(e) => Err(e),
    }
}

fn find_category_in<'a>(node: &'a Node, code: &String) -> (r: Option<&'a Node>)
    ensures
        match r {
            Some(n) => find_in(node@, is_category(code@)) == Some(n@),
            None => find_in(node@, is_category(code@)) is None,
        },
    decreases node,
{
    proof {
        lemma_children_view(*node);
    }
    let hit = node.node_type == NodeType::Category && match &node.code {
        Some(c) => *c == *code,
        None => false,
    };
    if hit {
        Some(node)
    } else {
        find_category_in_all(&node.children, code)
    }
}

fn find_category_in_all<'a>(nodes: &'a Vec<Node>, code: &String) -> (r: Option<&'a Node>)
    ensures
        match r {
            Some(n) => find_in_all(views_of(nodes@), is_category(code@)) == Some(n@),
            None => find_in_all(views_of(nodes@), is_category(code@)) is None,
        },
    decreases nodes,
{
    let ghost ns = views_of(nodes@);
    let mut i: usize = 0;
    assert(ns.skip(0) =~= ns);
    while i < nodes.len()
        invariant
            i <= nodes.len(),
            ns == views_of(nodes@),
            find_in_all(ns, is_category(code@)) == find_in_all(
                ns.skip(i as int),
                is_category(code@),
            ),
        decreases nodes.len() - i,
    {
        let found = find_category_in(&nodes[i], code);
        proof {
            let t = ns.skip(i as int);
            assert(t.first() == nodes@[i as int]@);
            assert(t.drop_first() =~= ns.skip(i + 1));
        }
        if found.is_some() {
            return found;
        }
        i += 1;
    }
    None
}

/// The first category of the tree that carries the code.
pub fn find_category<'a>(tree: &'a Tree, code: &str) -> (r: Option<&'a Node>)
    ensures
        match r {
            Some(n) => find_in_all(tree@.roots, is_category(code@)) == Some(n@),
            None => find_in_all(tree@.roots, is_category(code@)) is None,
        },
{
    let code = code.to_owned();
    find_category_in_all(&tree.roots, &code)
}

fn char_is_divider(c: char) -> (r: bool)
    ensures
        r == is_divider(c),
{
    c == ' ' || c == '_' || c == '-'
}

fn no_newline(v: &Vec<char>, from: usize) -> (r: bool)
    ensures
        r == no_newline_from(v@, from as int),
{
    let mut i: usize = from;
    while i < v.len()
        invariant
            from <= i || i >= v.len(),
            forall|j: int| from <= j < i ==> v@[j] != '\n',
        decreases v.len() - i,
    {
        if v[i] == '\n' {
            return false;
        }
        i += 1;
    }
    true
}

fn make_coded_name(code: &str, title: &str) -> (r: String)
    ensures
        r@ == coded_name(code@, title@),
{
    let mut v: Vec<char> = Vec::new();
    push_str(&mut v, code);
    push_str(&mut v, "_");
    push_str(&mut v, title);
    assert(v@ =~= coded_name(code@, title@));
    from_chars(&v)
}

/// The target for a title without a code. See [`untitled_target`].
pub fn target_for_title(tree: &Tree, parent_id: &str, selected: &Node, title: &str) -> (r: Result<
    Option<(String, String)>,
    JdError,
>)
    ensures
        target_view(r) == untitled_target(tree@.roots, parent_id@, selected@, title@),
{
    match selected.node_type {
        NodeType::Category => match &selected.code {
            Some(code) => match suggest_next_code(tree, code.as_str()) {
                Ok(next) => Ok(
                    Some((parent_id.to_owned(), make_coded_name(next.as_str(), title))),
                ),
                Err(e) => Err(e),
            },
            None => Err(JdError::NotFound),
        },
        NodeType::Range => match &selected.code {
            Some(code) => match suggest_next_category_in_range(tree, code.as_str()) {
                Ok(next) => Ok(
                    Some((parent_id.to_owned(), make_coded_name(next.as_str(), title))),
                ),
                Err(e) => Err(e),
            },
            None => Err(JdError::NotFound),
        },
        _ => Ok(Some((parent_id.to_owned(), title.to_owned()))),
    }
}

/// Reads the user's answer. See [`entry_target`].
pub fn plan_new_entry(tree: &Tree, parent_id: &str, answer: &str) -> (r: Result<
    Option<(String, String)>,
    JdError,
>)
    ensures
        target_view(r) == entry_target(tree@.roots, parent_id@, answer@),
{
    let selected = match find_by_id(tree, parent_id) {
        Some(n) => n,
        None => {
            return Err(JdError::NotFound);
        },
    };
    let raw = to_chars(answer);
    let (a, b) = trim_bounds(&raw, 0, raw.len());
    assert(raw@.subrange(0, raw.len() as int) =~= raw@);
    let mut v: Vec<char> = Vec::new();
    push_range(&mut v, &raw, a, b);
    assert(v@ =~= trimmed(answer@));
    let n = v.len();
    if n == 0 {
        return Ok(None);
    }
    if n >= 7 && char_is_digit(v[0]) && char_is_digit(v[1]) && v[2] == '.' && char_is_digit(v[3])
        && char_is_digit(v[4]) && char_is_divider(v[5]) && no_newline(&v, 6) {
        let nn = sub_string(&v, 0, 2);
        let code = sub_string(&v, 0, 5);
        let rest = sub_string(&v, 6, n);
        let title = sanitize_title(rest.as_str());
        return match find_category(tree, nn.as_str()) {
            Some(category) => Ok(
                Some((category.id.clone(), make_coded_name(code.as_str(), title.as_str()))),
            ),
            None => Err(JdError::NotFound),
        };
    }
    if n >= 4 && char_is_digit(v[0]) && char_is_digit(v[1]) && char_is_divider(v[2])
        && no_newline(&v, 3) {
        let code = sub_string(&v, 0, 2);
        let rest = sub_string(&v, 3, n);
        let title = sanitize_title(rest.as_str());
        return Ok(Some((parent_id.to_owned(), make_coded_name(code.as_str(), title.as_str()))));
    }
    let input = from_chars(&v);
    let title = sanitize_title(input.as_str());
    target_for_title(tree, parent_id, selected, title.as_str())
}

} // verus!
