//! The naming convention: which file names carry a code, and how a name
//! splits into code, title and extension.
//!
//! Three templates are recognised. A digit is an ASCII digit; a title is any
//! non-empty text without a line feed.
//!
//! * Range: `NN-NN_Title`
//! * Category: `NN_Title`
//! * Item: `NN.MM_Title` or `NN.MM_Title.ext`, where `MM` has two to four
//!   digits and any number of further `.KK` segments of two digits may follow
//!
//! In a title every underscore is shown as a space.

use vstd::prelude::*;
use crate::model::NodeType;
use crate::text::{
    char_is_digit, find_char, first_index_of, from_chars, is_digit, replace_char, replaced_range,
    sub_string, to_chars,
};

verus! {

/// No character of `s` from index `from` on is a line feed.
pub open spec fn no_newline_from(s: Seq<char>, from: int) -> bool {
    forall|i: int| from <= i < s.len() ==> s[i] != '\n'
}

/// The title that the raw text `s` stands for: underscores become spaces.
pub open spec fn title_of(s: Seq<char>) -> Seq<char> {
    replace_char(s, '_', ' ')
}

/// The name has the shape `NN-NN_Title`.
pub open spec fn is_range_name(name: Seq<char>) -> bool {
    &&& name.len() >= 7
    &&& is_digit(name[0])
    &&& is_digit(name[1])
    &&& name[2] == '-'
    &&& is_digit(name[3])
    &&& is_digit(name[4])
    &&& name[5] == '_'
    &&& no_newline_from(name, 6)
}

/// Code and title of a range name.
pub open spec fn parse_range_spec(name: Seq<char>) -> Option<(Seq<char>, Seq<char>)> {
    if is_range_name(name) {
        Some((name.subrange(0, 5), title_of(name.subrange(6, name.len() as int))))
    } else {
        None
    }
}

/// The name has the shape `NN_Title`.
pub open spec fn is_category_name(name: Seq<char>) -> bool {
    &&& name.len() >= 4
    &&& is_digit(name[0])
    &&& is_digit(name[1])
    &&& name[2] == '_'
    &&& no_newline_from(name, 3)
}

/// Code and title of a category name.
pub open spec fn parse_category_spec(name: Seq<char>) -> Option<(Seq<char>, Seq<char>)> {
    if is_category_name(name) {
        Some((name.subrange(0, 2), title_of(name.subrange(3, name.len() as int))))
    } else {
        None
    }
}

/// The number of digits that stand in `s` from index `i` on without a gap.
pub open spec fn digit_run(s: Seq<char>, i: int) -> int
    decreases s.len() - i,
{
    if 0 <= i < s.len() && is_digit(s[i]) {
        1 + digit_run(s, i + 1)
    } else {
        0
    }
}

/// `s[i..u]` is made of segments `.KK` of two digits each, and of nothing else.
pub open spec fn dot_pairs(s: Seq<char>, i: int, u: int) -> bool
    decreases u - i,
{
    if i >= u {
        i == u
    } else {
        &&& 0 <= i
        &&& i + 3 <= u <= s.len()
        &&& s[i] == '.'
        &&& is_digit(s[i + 1])
        &&& is_digit(s[i + 2])
        &&& dot_pairs(s, i + 3, u)
    }
}

/// `s[0..u]` is an item code: `NN.MM` with two to four digits `MM`, then
/// segments `.KK`.
pub open spec fn item_code_shape(s: Seq<char>, u: int) -> bool {
    &&& 5 <= u <= s.len()
    &&& is_digit(s[0])
    &&& is_digit(s[1])
    &&& s[2] == '.'
    &&& 2 <= digit_run(s, 3) <= 4
    &&& 3 + digit_run(s, 3) <= u
    &&& dot_pairs(s, 3 + digit_run(s, 3), u)
}

/// Where the extension parts from the title: the first index at or after `k`
/// that holds a `.` with something behind it; the length of `s` where there
/// is none.
pub open spec fn ext_dot(s: Seq<char>, k: int) -> int
    decreases s.len() - k,
{
    if k < 0 || k + 1 >= s.len() {
        s.len() as int
    } else if s[k] == '.' {
        k
    } else {
        ext_dot(s, k + 1)
    }
}

/// The name has the shape `NN.MM[.KK...]_Title[.ext]`.
pub open spec fn is_item_name(name: Seq<char>) -> bool {
    let u = first_index_of(name, '_', 0);
    &&& item_code_shape(name, u)
    &&& u + 1 < name.len()
    &&& no_newline_from(name, u + 1)
}

/// Code, title and extension of an item name. The title is as short as it can
/// be: it ends before the first `.` that is not its first character and has
/// something behind it, and the extension is all that follows that `.`.
pub open spec fn parse_item_spec(name: Seq<char>) -> Option<
    (Seq<char>, Seq<char>, Option<Seq<char>>),
> {
    let u = first_index_of(name, '_', 0);
    let k = ext_dot(name, u + 2);
    if is_item_name(name) {
        Some(
            (
                name.subrange(0, u),
                title_of(name.subrange(u + 1, k)),
                if k < name.len() {
                    Some(name.subrange(k + 1, name.len() as int))
                } else {
                    None
                },
            ),
        )
    } else {
        None
    }
}

/// What a directory's name says of it: its code, its title and its kind.
/// The templates are tried in the order range, category, item; a name that
/// fits none has no code, is of kind `Other`, and is its own title.
pub open spec fn classify_spec(name: Seq<char>) -> (Option<Seq<char>>, Seq<char>, NodeType) {
    if let Some(p) = parse_range_spec(name) {
        (Some(p.0), p.1, NodeType::Range)
    } else if let Some(p) = parse_category_spec(name) {
        (Some(p.0), p.1, NodeType::Category)
    } else if let Some(p) = parse_item_spec(name) {
        (Some(p.0), p.1, NodeType::ItemDir)
    } else {
        (None, name, NodeType::Other)
    }
}

/// The name fits one of the three templates.
pub open spec fn is_coded_name(name: Seq<char>) -> bool {
    is_range_name(name) || is_category_name(name) || is_item_name(name)
}

fn no_newline_check(v: &Vec<char>, from: usize) -> (r: bool)
    ensures
        r == no_newline_from(v@, from as int),
{
    let mut i: usize = from;
    while i < v.len()
        invariant
            from <= i || i >= v.len(),
            forall|j: int| from <= j < i ==> v@[j] != '\n',
        decreases v.len() - i,
    {
        if v[i] == '\n' {
            return false;
        }
        i += 1;
    }
    true
}

/// Splits a range name into its code and its title.
pub fn parse_range(name: &str) -> (r: Option<(String, String)>)
    ensures
        r.deep_view() == parse_range_spec(name@),
{
    let v = to_chars(name);
    if v.len() >= 7 && char_is_digit(v[0]) && char_is_digit(v[1]) && v[2] == '-' && char_is_digit(
        v[3],
    ) && char_is_digit(v[4]) && v[5] == '_' && no_newline_check(&v, 6) {
        let code = sub_string(&v, 0, 5);
        let t = replaced_range(&v, 6, v.len(), '_', ' ');
        let title = from_chars(&t);
        Some((code, title))
    } else {
        None
    }
}

/// Splits a category name into its code and its title.
pub fn parse_category(name: &str) -> (r: Option<(String, String)>)
    ensures
        r.deep_view() == parse_category_spec(name@),
{
    let v = to_chars(name);
    if v.len() >= 4 && char_is_digit(v[0]) && char_is_digit(v[1]) && v[2] == '_'
        && no_newline_check(&v, 3) {
        let code = sub_string(&v, 0, 2);
        let t = replaced_range(&v, 3, v.len(), '_', ' ');
        let title = from_chars(&t);
        Some((code, title))
    } else {
        None
    }
}

fn count_digits(v: &Vec<char>, from: usize) -> (m: usize)
    requires
        from <= v.len(),
    ensures
        m == digit_run(v@, from as int),
        from + m <= v.len(),
{
    let mut i: usize = from;
    while i < v.len() && char_is_digit(v[i])
        invariant
            from <= i <= v.len(),
            digit_run(v@, from as int) == (i - from) + digit_run(v@, i as int),
        decreases v.len() - i,
    {
        i += 1;
    }
    i - from
}

fn dot_pairs_check(v: &Vec<char>, from: usize, u: usize) -> (r: bool)
    requires
        u <= v.len(),
    ensures
        r == dot_pairs(v@, from as int, u as int),
{
    let mut i: usize = from;
    while i < u
        invariant
            u <= v.len(),
            dot_pairs(v@, from as int, u as int) == dot_pairs(v@, i as int, u as int),
        decreases u - i,
    {
        if u - i < 3 || v[i] != '.' || !char_is_digit(v[i + 1]) || !char_is_digit(v[i + 2]) {
            return false;
        }
        i += 3;
    }
    i == u
}

fn item_code_check(v: &Vec<char>, u: usize) -> (r: bool)
    requires
        u <= v.len(),
    ensures
        r == item_code_shape(v@, u as int),
{
    if u < 5 || !char_is_digit(v[0]) || !char_is_digit(v[1]) || v[2] != '.' {
        return false;
    }
    let m = count_digits(v, 3);
    if m < 2 || m > 4 || 3 + m > u {
        return false;
    }
    dot_pairs_check(v, 3 + m, u)
}

fn find_ext_dot(v: &Vec<char>, from: usize) -> (k: usize)
    ensures
        k == ext_dot(v@, from as int),
        k <= v.len(),
        k < v.len() ==> from <= k,
{
    let mut i: usize = from;
    while i < v.len() && v.len() - i > 1
        invariant
            ext_dot(v@, from as int) == ext_dot(v@, i as int),
            from <= i,
        decreases v.len() - i,
    {
        if v[i] == '.' {
            return i;
        }
        i += 1;
    }
    v.len()
}

/// Splits an item name into its code, its title and its extension.
pub fn parse_item(name: &str) -> (r: Option<(String, String, Option<String>)>)
    ensures
        r.deep_view() == parse_item_spec(name@),
{
    let v = to_chars(name);
    let n = v.len();
    let u = find_char(&v, '_', 0);
    if !item_code_check(&v, u) {
        return None;
    }
    if n - u < 2 || !no_newline_check(&v, u + 1) {
        return None;
    }
    let k = find_ext_dot(&v, u + 2);
    let code = sub_string(&v, 0, u);
    let t = replaced_range(&v, u + 1, k, '_', ' ');
    let title = from_chars(&t);
    let ext = if k < n {
        Some(sub_string(&v, k + 1, n))
    } else {
        None
    };
    Some((code, title, ext))
}

/// Whether a name fits one of the three templates.
pub fn is_coded(name: &str) -> (r: bool)
    ensures
        r == is_coded_name(name@),
{
    parse_range(name).is_some() || parse_category(name).is_some() || parse_item(name).is_some()
}

/// Code, title and kind of a directory by its name.
pub fn classify(name: &str) -> (r: (Option<String>, String, NodeType))
    ensures
        r.0.deep_view() == classify_spec(name@).0,
        r.1@ == classify_spec(name@).1,
        r.2 == classify_spec(name@).2,
{
    if let Some((code, title)) = parse_range(name) {
        (Some(code), title, NodeType::Range)
    } else if let Some((code, title)) = parse_category(name) {
        (Some(code), title, NodeType::Category)
    } else if let Some((code, title, _ext)) = parse_item(name) {
        (Some(code), title, NodeType::ItemDir)
    } else {
        (None, name.to_owned(), NodeType::Other)
    }
}

/// A range name is read as written: four digits `a b - c d`, an underscore
/// and a title give the code `ab-cd` and the title with its underscores
/// turned into spaces.
pub proof fn lemma_range_name_parts(a: char, b: char, c: char, d: char, suffix: Seq<char>)
    requires
        is_digit(a),
        is_digit(b),
        is_digit(c),
        is_digit(d),
        suffix.len() > 0,
        no_newline_from(suffix, 0),
    ensures
        parse_range_spec(seq![a, b, '-', c, d, '_'] + suffix) == Some(
            (seq![a, b, '-', c, d], title_of(suffix)),
        ),
        classify_spec(seq![a, b, '-', c, d, '_'] + suffix) == (
            Some(seq![a, b, '-', c, d]),
            title_of(suffix),
            NodeType::Range,
        ),
{
    let name = seq![a, b, '-', c, d, '_'] + suffix;
    assert(name.subrange(0, 5) =~= seq![a, b, '-', c, d]);
    assert(name.subrange(6, name.len() as int) =~= suffix);
    assert forall|i: int| 6 <= i < name.len() implies name[i] != '\n' by {
        assert(name[i] == suffix[i - 6]);
    }
}

/// No name fits two templates: the third character of a range name is `-`,
/// of a category name `_`, of an item name `.`.
pub proof fn lemma_templates_disjoint(name: Seq<char>)
    ensures
        !(is_range_name(name) && is_category_name(name)),
        !(is_range_name(name) && is_item_name(name)),
        !(is_category_name(name) && is_item_name(name)),
{
}

/// The templates are tried in a fixed order, and the first that a name fits
/// decides its kind: a range name is a range whatever else it may fit, a
/// category name that is no range name is a category, an item name that is
/// neither is an item, and only a name that fits none is of kind `Other`.
pub proof fn lemma_template_priority(name: Seq<char>)
    ensures
        is_range_name(name) ==> classify_spec(name).2 == NodeType::Range,
        !is_range_name(name) && is_category_name(name) ==> classify_spec(name).2
            == NodeType::Category,
        !is_range_name(name) && !is_category_name(name) && is_item_name(name) ==> classify_spec(
            name,
        ).2 == NodeType::ItemDir,
        !is_coded_name(name) <==> classify_spec(name).2 == NodeType::Other,
        classify_spec(name).0 is Some <==> is_coded_name(name),
{
}

} // verus!
