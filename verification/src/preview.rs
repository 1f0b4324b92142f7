//! What is shown of an entry before it is opened: the listing of a
//! directory, the head of a file, the text of a link file.
//!
//! In the listing of a directory the files whose names begin with a date
//! and time of twelve digits come first, the newest first; the other
//! entries follow in the order of their names. No more than fifty entries
//! are shown.

use vstd::prelude::*;
use crate::content::line_end;
use crate::ignore::{ignored_path_spec, is_ignored_path};
use crate::order::{
    insert_by, is_total_order, lemma_insert_at, lemma_lex_asymmetric, lemma_lex_le_transitive,
    lemma_sort_by, sort_by, sorted_by,
};
use crate::paths::{join_path, join_spec};
use crate::text::{
    char_is_digit, char_to_digit, chars_lt, digit_value, find_char, first_index_of, from_chars,
    is_digit, lex_le, push_range, push_str, to_chars,
};

verus! {

/// The number of entries that a listing shows at most.
pub const PREVIEW_ENTRIES: usize = 50;

/// The number of lines that the head of a file has at most.
pub const PREVIEW_LINES: usize = 200;

/// The number that the decimal digits of `s` write.
pub open spec fn digits_value(s: Seq<char>) -> nat
    decreases s.len(),
{
    if s.len() == 0 {
        0
    } else {
        (10 * digits_value(s.drop_last()) + digit_value(s.last())) as nat
    }
}

/// The text begins with twelve digits.
pub open spec fn has_stamp(name: Seq<char>) -> bool {
    name.len() >= 12 && forall|i: int| 0 <= i < 12 ==> is_digit(name[i])
}

/// The date and time that a name begins with: the number that its first
/// twelve characters write, if they are digits.
pub open spec fn datetime_prefix(name: Seq<char>) -> Option<nat> {
    if has_stamp(name) {
        Some(digits_value(name.subrange(0, 12)))
    } else {
        None
    }
}

/// Ten to the power `i`, for `i` up to twelve.
pub open spec fn ten_to(i: int) -> nat {
    if i <= 0 {
        1
    } else if i == 1 {
        10
    } else if i == 2 {
        100
    } else if i == 3 {
        1000
    } else if i == 4 {
        10000
    } else if i == 5 {
        100000
    } else if i == 6 {
        1000000
    } else if i == 7 {
        10000000
    } else if i == 8 {
        100000000
    } else if i == 9 {
        1000000000
    } else if i == 10 {
        10000000000
    } else if i == 11 {
        100000000000
    } else {
        1000000000000
    }
}

/// The date and time that a name begins with.
pub fn parse_datetime_prefix(name: &str) -> (r: Option<u128>)
    ensures
        match r {
            Some(v) => datetime_prefix(name@) == Some(v as nat),
            None => datetime_prefix(name@) is None,
        },
{
    let v = to_chars(name);
    if v.len() < 12 {
        return None;
    }
    let ghost head = v@.subrange(0, 12);
    let mut value: u128 = 0;
    let mut i: usize = 0;
    assert(head.take(0) =~= Seq::<char>::empty());
    while i < 12
        invariant
            i <= 12 <= v.len(),
            v@ == name@,
            head == v@.subrange(0, 12),
            forall|k: int| 0 <= k < i ==> is_digit(v@[k]),
            value as nat == digits_value(head.take(i as int)),
            value < ten_to(i as int),
        decreases 12 - i,
    {
        if !char_is_digit(v[i]) {
            return None;
        }
        let d = char_to_digit(v[i]);
        proof {
            let t = head.take(i + 1);
            assert(t.drop_last() =~= head.take(i as int));
            assert(t.last() == v@[i as int]);
        }
        value = value * 10 + d as u128;
        i += 1;
    }
    assert(head.take(12) =~= head);
    Some(value)
}

/// One entry of a directory for its listing.
#[derive(Debug, PartialEq, Eq)]
pub struct PreviewEntry {
    /// The entry's file name.
    pub name: String,
    /// Whether the entry is a regular file.
    pub is_file: bool,
    /// Whether the entry is a directory.
    pub is_dir: bool,
}

/// An entry of a listing: its name, and its date and time if it is a file
/// whose name begins with one.
pub struct ListedView {
    pub name: Seq<char>,
    pub stamp: Option<nat>,
}

/// The order of a listing: dated entries before the others, a later date
/// before an earlier one, and names in the order of their characters.
pub open spec fn listed_le() -> spec_fn(ListedView, ListedView) -> bool {
    |a: ListedView, b: ListedView|
        match (a.stamp, b.stamp) {
            (Some(x), Some(y)) => x > y || (x == y && lex_le(a.name, b.name)),
            (Some(_), None) => true,
            (None, Some(_)) => false,
            (None, None) => lex_le(a.name, b.name),
        }
}

/// The order of a listing compares any two entries and is transitive.
pub proof fn lemma_listed_order()
    ensures
        is_total_order(listed_le()),
{
    let le = listed_le();
    assert forall|a: ListedView, b: ListedView| #[trigger] le(a, b) || le(b, a) by {
        lemma_lex_asymmetric(a.name, b.name);
    }
    assert forall|a: ListedView, b: ListedView, c: ListedView| #[trigger] le(a, b) && #[trigger] le(
        b,
        c,
    ) implies le(a, c) by {
        if lex_le(a.name, b.name) && lex_le(b.name, c.name) {
            lemma_lex_le_transitive(a.name, b.name, c.name);
        }
    }
}

/// The entries of a listing stand in its order, and are the entries that
/// were found and not passed over, each as often as it was found.
pub proof fn lemma_listing_is_sorted(items: Seq<ListedView>)
    ensures
        sorted_by(sort_by(items, listed_le()), listed_le()),
        sort_by(items, listed_le()).to_multiset() == items.to_multiset(),
        sort_by(items, listed_le()).len() == items.len(),
{
    lemma_listed_order();
    lemma_sort_by(items, listed_le());
}

/// How an entry is listed.
pub open spec fn listed(name: Seq<char>, is_file: bool) -> ListedView {
    ListedView {
        name,
        stamp: if is_file {
            datetime_prefix(name)
        } else {
            None
        },
    }
}

/// The entries of the directory `dir` that are listed, as they were found:
/// those that the ignore policy does not pass over.
pub open spec fn listed_entries(
    dir: Seq<char>,
    names: Seq<Seq<char>>,
    files: Seq<bool>,
    dirs: Seq<bool>,
) -> Seq<ListedView>
    decreases names.len(),
{
    if names.len() == 0 || files.len() != names.len() || dirs.len() != names.len() {
        seq![]
    } else {
        let rest = listed_entries(dir, names.drop_last(), files.drop_last(), dirs.drop_last());
        if ignored_path_spec(join_spec(dir, names.last()), dirs.last()) {
            rest
        } else {
            rest.push(listed(names.last(), files.last()))
        }
    }
}

/// The names of the first `n` entries, each with a line feed behind it.
pub open spec fn names_text(items: Seq<ListedView>, n: int) -> Seq<char>
    decreases n,
{
    if n <= 0 || n > items.len() {
        seq![]
    } else {
        names_text(items, n - 1) + items[n - 1].name + seq!['\n']
    }
}

/// The listing of the directory `dir`: a heading, an empty line, and the
/// names of the entries in their order, fifty at most.
pub open spec fn dir_listing(
    dir: Seq<char>,
    names: Seq<Seq<char>>,
    files: Seq<bool>,
    dirs: Seq<bool>,
) -> Seq<char> {
    let items = sort_by(listed_entries(dir, names, files, dirs), listed_le());
    let n = if items.len() <= PREVIEW_ENTRIES {
        items.len() as int
    } else {
        PREVIEW_ENTRIES as int
    };
    "dir: "@ + dir + "\n\n"@ + names_text(items, n)
}

/// The names of the entries.
pub open spec fn entry_names(es: Seq<PreviewEntry>) -> Seq<Seq<char>> {
    Seq::new(es.len(), |i: int| es[i].name@)
}

/// Which of the entries are regular files.
pub open spec fn entry_files(es: Seq<PreviewEntry>) -> Seq<bool> {
    Seq::new(es.len(), |i: int| es[i].is_file)
}

/// Which of the entries are directories.
pub open spec fn entry_dirs(es: Seq<PreviewEntry>) -> Seq<bool> {
    Seq::new(es.len(), |i: int| es[i].is_dir)
}

struct Listed {
    name: Vec<char>,
    stamp: Option<u128>,
}

impl View for Listed {
    type V = ListedView;

    closed spec fn view(&self) -> ListedView {
        ListedView {
            name: self.name@,
            stamp: match self.stamp {
                Some(v) => Some(v as nat),
                None => None,
            },
        }
    }
}

spec fn listed_views(v: Seq<Listed>) -> Seq<ListedView> {
    Seq::new(v.len(), |i: int| v[i]@)
}

fn comes_first(a: &Listed, b: &Listed) -> (r: bool)
    ensures
        r == listed_le()(a@, b@),
{
    match (a.stamp, b.stamp) {
        (Some(x), Some(y)) => x > y || (x == y && !chars_lt(&b.name, &a.name)),
        (Some(_), None) => true,
        (None, Some(_)) => false,
        (None, None) => !chars_lt(&b.name, &a.name),
    }
}

fn insert_listed(out: &mut Vec<Listed>, x: Listed)
    ensures
        listed_views(final(out)@) == insert_by(listed_views(old(out)@), x@, listed_le()),
{
    let ghost s = listed_views(out@);
    let ghost le = listed_le();
    let mut i: usize = out.len();
    while i > 0
        invariant
            i <= out.len(),
            out@ == old(out)@,
            s == listed_views(out@),
            le == listed_le(),
            forall|k: int| i <= k < s.len() ==> !#[trigger] le(s[k], x@),
        ensures
            i > 0 ==> le(s[i - 1], x@),
        decreases i,
    {
        assert(s[i - 1] == out@[i - 1]@);
        if comes_first(&out[i - 1], &x) {
            break;
        }
        i -= 1;
    }
    proof {
        lemma_insert_at(s, x@, i as int, le);
    }
    let ghost xv = x@;
    out.insert(i, x);
    assert(listed_views(out@) =~= s.insert(i as int, xv));
}

/// The listing of the directory `path` with the entries `entries`.
pub fn preview_dir(path: &str, entries: &Vec<PreviewEntry>) -> (r: String)
    ensures
        r@ == dir_listing(
            path@,
            entry_names(entries@),
            entry_files(entries@),
            entry_dirs(entries@),
        ),
{
    let ghost names = entry_names(entries@);
    let ghost files = entry_files(entries@);
    let ghost dirs = entry_dirs(entries@);
    let ghost le = listed_le();
    let mut items: Vec<Listed> = Vec::new();
    let mut i: usize = 0;
    proof {
        assert(names.take(0) =~= Seq::<Seq<char>>::empty());
        assert(listed_views(items@) =~= Seq::<ListedView>::empty());
    }
    while i < entries.len()
        invariant
            i <= entries.len(),
            names == entry_names(entries@),
            files == entry_files(entries@),
            dirs == entry_dirs(entries@),
            le == listed_le(),
            listed_views(items@) == sort_by(
                listed_entries(
                    path@,
                    names.take(i as int),
                    files.take(i as int),
                    dirs.take(i as int),
                ),
                le,
            ),
        decreases entries.len() - i,
    {
        let e = &entries[i];
        let ghost before = listed_entries(
            path@,
            names.take(i as int),
            files.take(i as int),
            dirs.take(i as int),
        );
        proof {
            assert(names.take(i + 1).drop_last() =~= names.take(i as int));
            assert(files.take(i + 1).drop_last() =~= files.take(i as int));
            assert(dirs.take(i + 1).drop_last() =~= dirs.take(i as int));
            assert(names.take(i + 1).last() == e.name@);
            assert(files.take(i + 1).last() == e.is_file);
            assert(dirs.take(i + 1).last() == e.is_dir);
        }
        let full = join_path(path, e.name.as_str());
        if !is_ignored_path(full.as_str(), e.is_dir) {
            let stamp = if e.is_file {
                parse_datetime_prefix(e.name.as_str())
            } else {
                None
            };
            let item = Listed { name: to_chars(e.name.as_str()), stamp };
            assert(item@ == listed(e.name@, e.is_file));
            assert(before.push(item@).drop_last() =~= before);
            insert_listed(&mut items, item);
        }
        i += 1;
    }
    proof {
        assert(names.take(entries.len() as int) =~= names);
        assert(files.take(entries.len() as int) =~= files);
        assert(dirs.take(entries.len() as int) =~= dirs);
    }
    let ghost all = listed_views(items@);
    let mut out: Vec<char> = Vec::new();
    push_str(&mut out, "dir: ");
    push_str(&mut out, path);
    push_str(&mut out, "\n\n");
    let ghost head = out@;
    assert(head =~= "dir: "@ + path@ + "\n\n"@);
    let n = if items.len() <= PREVIEW_ENTRIES {
        items.len()
    } else {
        PREVIEW_ENTRIES
    };
    let mut k: usize = 0;
    assert(head + names_text(all, 0) =~= head);
    while k < n
        invariant
            k <= n <= items.len(),
            all == listed_views(items@),
            out@ == head + names_text(all, k as int),
        decreases n - k,
    {
        let ghost before = out@;
        let item = &items[k];
        assert(all[k as int] == item@);
        push_range(&mut out, &item.name, 0, item.name.len());
        assert(item.name@.subrange(0, item.name.len() as int) =~= item.name@);
        out.push('\n');
        assert(out@ =~= head + (names_text(all, k as int) + all[k as int].name + seq!['\n']));
        k += 1;
    }
    from_chars(&out)
}

/// The lines of a text from index `p` on. A line ends at a line feed, which
/// is not part of it, nor is a carriage return before the line feed; the
/// end of the text ends the last line.
pub open spec fn lines_from(text: Seq<char>, p: int) -> Seq<Seq<char>>
    decreases text.len() - p,
{
    if p < 0 || p >= text.len() {
        seq![]
    } else {
        let e = first_index_of(text, '\n', p);
        let line = text.subrange(p, line_end(text, p, e));
        if p <= e < text.len() {
            seq![line] + lines_from(text, e + 1)
        } else {
            seq![line]
        }
    }
}

/// The first `n` lines with a line feed between two.
pub open spec fn joined(lines: Seq<Seq<char>>, n: int) -> Seq<char>
    decreases n,
{
    if n <= 0 || n > lines.len() {
        seq![]
    } else if n == 1 {
        lines[0]
    } else {
        joined(lines, n - 1) + seq!['\n'] + lines[n - 1]
    }
}

/// The head of a text: its first two hundred lines.
pub open spec fn head_of(text: Seq<char>) -> Seq<char> {
    let lines = lines_from(text, 0);
    joined(
        lines,
        if lines.len() <= PREVIEW_LINES {
            lines.len() as int
        } else {
            PREVIEW_LINES as int
        },
    )
}

/// The head of a file's text.
pub fn preview_file(content: &str) -> (r: String)
    ensures
        r@ == head_of(content@),
{
    let v = to_chars(content);
    let n = v.len();
    let ghost all = lines_from(v@, 0);
    let mut out: Vec<char> = Vec::new();
    let mut p: usize = 0;
    let mut count: usize = 0;
    let mut done = n == 0;
    let ghost mut seen: Seq<Seq<char>> = Seq::empty();
    while !done && count < PREVIEW_LINES
        invariant
            p <= n,
            n == v.len(),
            v@ == content@,
            !done ==> p < n,
            count <= PREVIEW_LINES,
            seen.len() == count,
            all == lines_from(v@, 0),
            all == seen + (if done {
                Seq::<Seq<char>>::empty()
            } else {
                lines_from(v@, p as int)
            }),
            out@ == joined(seen, count as int),
        decreases
                n - p + (if done {
                    0int
                } else {
                    1int
                }),
    {
        let e = find_char(&v, '\n', p);
        let end = if p < e && e < n && v[e - 1] == '\r' {
            e - 1
        } else {
            e
        };
        let ghost line = v@.subrange(p as int, end as int);
        let ghost before = out@;
        let ghost prev = seen;
        if count > 0 {
            out.push('\n');
        }
        push_range(&mut out, &v, p, end);
        proof {
            seen = seen.push(line);
            if e < n {
                assert(all =~= seen + lines_from(v@, e + 1));
            } else {
                assert(all =~= seen);
            }
            assert forall|m: int| 0 <= m <= prev.len() implies joined(seen, m) == joined(prev, m) by {
                lemma_joined_prefix(prev, line, m);
            }
            if count > 0 {
                assert(out@ =~= joined(prev, count as int) + seq!['\n'] + line);
            } else {
                assert(out@ =~= line);
            }
        }
        count += 1;
        if e < n && n - e > 1 {
            p = e + 1;
        } else {
            done = true;
            proof {
                if e < n {
                    assert(lines_from(v@, e + 1) =~= Seq::<Seq<char>>::empty());
                }
            }
        }
    }
    proof {
        if done {
            assert(all =~= seen);
        } else {
            lemma_joined_front(seen, lines_from(v@, p as int), count as int);
        }
    }
    from_chars(&out)
}

proof fn lemma_joined_prefix(lines: Seq<Seq<char>>, more: Seq<char>, m: int)
    requires
        0 <= m <= lines.len(),
    ensures
        joined(lines.push(more), m) == joined(lines, m),
    decreases m,
{
    if m > 1 {
        lemma_joined_prefix(lines, more, m - 1);
    }
}

proof fn lemma_joined_front(a: Seq<Seq<char>>, b: Seq<Seq<char>>, m: int)
    requires
        0 <= m <= a.len(),
    ensures
        joined(a + b, m) == joined(a, m),
    decreases m,
{
    if m > 1 {
        lemma_joined_front(a, b, m - 1);
    }
}

/// What is shown of a link file: a heading with its path, an empty line,
/// and its text, if it could be read.
pub open spec fn link_preview(path: Seq<char>, content: Option<Seq<char>>) -> Seq<char> {
    "link file: "@ + path + "\n\n"@ + match content {
        Some(c) => c,
        None => seq![],
    }
}

/// What is shown of a link file.
pub fn preview_link(path: &str, content: Option<&str>) -> (r: String)
    ensures
        r@ == link_preview(
            path@,
            match content {
                Some(c) => Some(c@),
                None => None,
            },
        ),
{
    let mut out: Vec<char> = Vec::new();
    push_str(&mut out, "link file: ");
    push_str(&mut out, path);
    push_str(&mut out, "\n\n");
    match content {
        Some(c) => {
            push_str(&mut out, c);
        },
        None => {
            assert(out@ =~= "link file: "@ + path@ + "\n\n"@ + Seq::<char>::empty());
        },
    }
    from_chars(&out)
}

} // verus!
