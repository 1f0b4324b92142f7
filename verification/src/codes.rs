//! Handing out codes: the next item of a category, the next category of a
//! range. The lowest free number is taken, so that a number that was given
//! up is used again.

use vstd::prelude::*;
use crate::error::JdError;
use crate::model::{lemma_children_view, Node, NodeType, NodeView, Tree};
use crate::query::{all_codes, codes_of_all, find_by_code, find_in_all, has_code};
use crate::text::{
    char_is_digit, char_to_digit, digit_value, from_chars, is_digit, push_two_digits,
    to_chars, two_digits,
};

verus! {

/// The least number from `from` to `to` that is not taken; `None` where all
/// are.
pub open spec fn lowest_free(taken: spec_fn(int) -> bool, from: int, to: int) -> Option<int>
    decreases to - from + 1,
{
    if from > to {
        None
    } else if !taken(from) {
        Some(from)
    } else {
        lowest_free(taken, from + 1, to)
    }
}

/// What [`lowest_free`] finds is free, lies in the bounds, and has only taken
/// numbers below it; where it finds nothing, every number is taken.
pub proof fn lemma_lowest_free(taken: spec_fn(int) -> bool, from: int, to: int)
    ensures
        match lowest_free(taken, from, to) {
            Some(i) => from <= i <= to && !taken(i) && forall|j: int| from <= j < i ==> #[trigger] taken(j),
            None => forall|j: int| from <= j <= to ==> #[trigger] taken(j),
        },
    decreases to - from + 1,
{
    if from <= to && taken(from) {
        lemma_lowest_free(taken, from + 1, to);
    }
}

/// The item code with the number `i` under the category `parent`.
pub open spec fn item_code(parent: Seq<char>, i: int) -> Seq<char> {
    parent + seq!['.'] + two_digits(i)
}

/// Whether the item number `i` under `parent` is taken by a code of `codes`.
pub open spec fn item_taken(codes: Seq<Seq<char>>, parent: Seq<char>) -> spec_fn(int) -> bool {
    |i: int| codes.contains(item_code(parent, i))
}

/// The next item code under `parent`: that of the least number from 1 to 99
/// whose code no node carries.
pub open spec fn next_item_code(codes: Seq<Seq<char>>, parent: Seq<char>) -> Result<
    Seq<char>,
    JdError,
> {
    match lowest_free(item_taken(codes, parent), 1, 99) {
        Some(i) => Ok(item_code(parent, i)),
        None => Err(JdError::ExhaustedCodeSpace),
    }
}

/// The two bounds of a range code `NN-NN`; `None` for any other text.
pub open spec fn range_bounds(code: Seq<char>) -> Option<(int, int)> {
    if code.len() == 5 && is_digit(code[0]) && is_digit(code[1]) && code[2] == '-' && is_digit(
        code[3],
    ) && is_digit(code[4]) {
        Some(
            (
                10 * digit_value(code[0]) + digit_value(code[1]),
                10 * digit_value(code[3]) + digit_value(code[4]),
            ),
        )
    } else {
        None
    }
}

/// Whether a category among `children` carries the code.
pub open spec fn category_has_code(children: Seq<NodeView>, code: Seq<char>) -> bool {
    exists|k: int|
        0 <= k < children.len() && children[k].node_type == NodeType::Category && children[k].code
            == Some(code)
}

/// Whether the category number `i` is taken among `children`.
pub open spec fn category_taken(children: Seq<NodeView>) -> spec_fn(int) -> bool {
    |i: int| category_has_code(children, two_digits(i))
}

/// The next category code in the range with the code `range_code`: the least
/// number within the bounds that the code names which no category directly
/// under the range carries. `NotFound` where the text is no range code or no
/// node carries it.
pub open spec fn next_category_code(roots: Seq<NodeView>, range_code: Seq<char>) -> Result<
    Seq<char>,
    JdError,
> {
    match range_bounds(range_code) {
        None => Err(JdError::NotFound),
        Some((lo, hi)) => match find_in_all(roots, has_code(range_code)) {
            None => Err(JdError::NotFound),
            Some(n) => match lowest_free(category_taken(n.children), lo, hi) {
                Some(i) => Ok(two_digits(i)),
                None => Err(JdError::ExhaustedCodeSpace),
            },
        },
    }
}

/// The next item code is the lowest free one: it carries a number from 1 to
/// 99, no node carries it, and every lower number of the category is taken.
/// There is none only where all ninety-nine are taken.
pub proof fn lemma_next_item_is_lowest_free(codes: Seq<Seq<char>>, parent: Seq<char>)
    ensures
        match next_item_code(codes, parent) {
            Ok(code) => exists|i: int|
                1 <= i <= 99 && code == #[trigger] item_code(parent, i) && !codes.contains(code)
                    && forall|j: int| 1 <= j < i ==> codes.contains(#[trigger] item_code(parent, j)),
            Err(e) => e == JdError::ExhaustedCodeSpace && forall|j: int|
                1 <= j <= 99 ==> codes.contains(#[trigger] item_code(parent, j)),
        },
{
    let taken = item_taken(codes, parent);
    lemma_lowest_free(taken, 1, 99);
    match lowest_free(taken, 1, 99) {
        Some(i) => {
            assert forall|j: int| 1 <= j < i implies codes.contains(
                #[trigger] item_code(parent, j),
            ) by {
                assert(taken(j));
            }
            assert(item_code(parent, i) == item_code(parent, i));
        },
        None => {
            assert forall|j: int| 1 <= j <= 99 implies codes.contains(
                #[trigger] item_code(parent, j),
            ) by {
                assert(taken(j));
            }
        },
    }
}

/// The next category code of a range is the lowest free one within the
/// bounds of the range: no category directly under the range carries it, and
/// every lower number from the lower bound on is taken.
pub proof fn lemma_next_category_is_lowest_free(roots: Seq<NodeView>, range_code: Seq<char>)
    requires
        next_category_code(roots, range_code) is Ok,
    ensures
        range_bounds(range_code) is Some,
        find_in_all(roots, has_code(range_code)) is Some,
        ({
            let bounds = range_bounds(range_code)->0;
            let lo = bounds.0;
            let hi = bounds.1;
            let children = find_in_all(roots, has_code(range_code))->0.children;
            let code = next_category_code(roots, range_code)->Ok_0;
            exists|i: int|
                lo <= i <= hi && code == #[trigger] two_digits(i) && !category_has_code(
                    children,
                    code,
                ) && forall|j: int| lo <= j < i ==> category_has_code(children, #[trigger] two_digits(j))
        }),
{
    let bounds = range_bounds(range_code)->0;
    let children = find_in_all(roots, has_code(range_code))->0.children;
    let taken = category_taken(children);
    lemma_lowest_free(taken, bounds.0, bounds.1);
    let i = lowest_free(taken, bounds.0, bounds.1)->0;
    assert forall|j: int| bounds.0 <= j < i implies category_has_code(
        children,
        #[trigger] two_digits(j),
    ) by {
        assert(taken(j));
    }
    assert(two_digits(i) == two_digits(i));
}

/// The view of a result that holds a string.
pub open spec fn result_view(r: Result<String, JdError>) -> Result<Seq<char>, JdError> {
    match r {
        Ok(s) => Ok(s@),
        Err(e) => Err(e),
    }
}

fn contains_code(codes: &Vec<String>, cand: &String) -> (r: bool)
    ensures
        r == codes.deep_view().contains(cand@),
{
    let mut i: usize = 0;
    while i < codes.len()
        invariant
            i <= codes.len(),
            forall|k: int| 0 <= k < i ==> codes.deep_view()[k] != cand@,
        decreases codes.len() - i,
    {
        if codes[i] == *cand {
            assert(codes.deep_view()[i as int] == cand@);
            return true;
        }
        i += 1;
    }
    false
}

fn make_item_code(parent: &Vec<char>, i: u32) -> (r: String)
    requires
        i < 100,
    ensures
        r@ == item_code(parent@, i as int),
{
    let mut v: Vec<char> = Vec::new();
    let mut k: usize = 0;
    while k < parent.len()
        invariant
            k <= parent.len(),
            v@ == parent@.take(k as int),
        decreases parent.len() - k,
    {
        v.push(parent[k]);
        k += 1;
    }
    assert(parent@.take(parent.len() as int) == parent@);
    v.push('.');
    push_two_digits(&mut v, i);
    assert(v@ == item_code(parent@, i as int));
    from_chars(&v)
}

/// The code for the next item of the category `parent_code`: the first of
/// `parent_code.01` to `parent_code.99` that no node of the tree carries.
/// `ExhaustedCodeSpace` where all ninety-nine are taken.
pub fn suggest_next_code(tree: &Tree, parent_code: &str) -> (r: Result<String, JdError>)
    ensures
        result_view(r) == next_item_code(codes_of_all(tree@.roots), parent_code@),
{
    let codes = all_codes(tree);
    let parent = to_chars(parent_code);
    let ghost taken = item_taken(codes.deep_view(), parent@);
    let mut i: u32 = 1;
    while i <= 99
        invariant
            1 <= i <= 100,
            parent@ == parent_code@,
            codes.deep_view() == codes_of_all(tree@.roots),
            taken == item_taken(codes.deep_view(), parent@),
            lowest_free(taken, 1, 99) == lowest_free(taken, i as int, 99),
        decreases 100 - i,
    {
        let cand = make_item_code(&parent, i);
        if !contains_code(&codes, &cand) {
            assert(!taken(i as int));
            return Ok(cand);
        }
        assert(taken(i as int));
        i += 1;
    }
    Err(JdError::ExhaustedCodeSpace)
}

fn parse_range_bounds(code: &Vec<char>) -> (r: Option<(u32, u32)>)
    ensures
        match r {
            Some((lo, hi)) => range_bounds(code@) == Some((lo as int, hi as int)) && lo < 100 && hi
                < 100,
            None => range_bounds(code@) is None,
        },
{
    if code.len() == 5 && char_is_digit(code[0]) && char_is_digit(code[1]) && code[2] == '-'
        && char_is_digit(code[3]) && char_is_digit(code[4]) {
        let lo = 10 * char_to_digit(code[0]) + char_to_digit(code[1]);
        let hi = 10 * char_to_digit(code[3]) + char_to_digit(code[4]);
        Some((lo, hi))
    } else {
        None
    }
}

fn category_with_code(children: &Vec<Node>, code: &String) -> (r: bool)
    ensures
        r == category_has_code(crate::model::views_of(children@), code@),
{
    let ghost ns = crate::model::views_of(children@);
    let mut k: usize = 0;
    while k < children.len()
        invariant
            k <= children.len(),
            ns == crate::model::views_of(children@),
            forall|j: int|
                0 <= j < k ==> !(ns[j].node_type == NodeType::Category && ns[j].code == Some(
                    code@,
                )),
        decreases children.len() - k,
    {
        let c = &children[k];
        let hit = c.node_type == NodeType::Category && match &c.code {
            Some(x) => *x == *code,
            None => false,
        };
        assert(ns[k as int] == c@);
        if hit {
            return true;
        }
        k += 1;
    }
    false
}

fn make_two_digits(i: u32) -> (r: String)
    requires
        i < 100,
    ensures
        r@ == two_digits(i as int),
{
    let mut v: Vec<char> = Vec::new();
    push_two_digits(&mut v, i);
    assert(v@ == two_digits(i as int));
    from_chars(&v)
}

/// The code for the next category of the range `range_code`, which is
/// written `NN-NN`: the first number from the lower to the upper bound,
/// in two digits, that no category directly under the range carries.
/// `NotFound` where `range_code` is not of that form or no node carries it;
/// `ExhaustedCodeSpace` where every number within the bounds is taken.
pub fn suggest_next_category_in_range(tree: &Tree, range_code: &str) -> (r: Result<
    String,
    JdError,
>)
    ensures
        result_view(r) == next_category_code(tree@.roots, range_code@),
{
    let code = to_chars(range_code);
    let (lo, hi) = match parse_range_bounds(&code) {
        Some(b) => b,
        None => {
            return Err(JdError::NotFound);
        },
    };
    let node = match find_by_code(tree, range_code) {
        Some(n) => n,
        None => {
            return Err(JdError::NotFound);
        },
    };
    proof {
        lemma_children_view(*node);
    }
    let ghost taken = category_taken(node@.children);
    let mut i: u32 = lo;
    while i <= hi
        invariant
            lo <= i,
            i <= hi + 1 || i == lo,
            hi < 100,
            range_bounds(range_code@) == Some((lo as int, hi as int)),
            find_in_all(tree@.roots, has_code(range_code@)) == Some(node@),
            node@.children == crate::model::views_of(node.children@),
            taken == category_taken(node@.children),
            lowest_free(taken, lo as int, hi as int) == lowest_free(taken, i as int, hi as int),
        decreases hi + 1 - i,
    {
        let cand = make_two_digits(i);
        if !category_with_code(&node.children, &cand) {
            assert(!taken(i as int));
            return Ok(cand);
        }
        assert(taken(i as int));
        i += 1;
    }
    Err(JdError::ExhaustedCodeSpace)
}

} // verus!
