//! Changes to the hierarchy. Each operation is planned against a tree that
//! was scanned just before: it resolves its targets in that tree and says
//! which one step is to be taken on the filesystem. Taking the step, and
//! scanning again after it, is the caller's part.

use vstd::prelude::*;
use crate::codes::{
    item_code, item_taken, lemma_lowest_free, lowest_free, next_item_code, suggest_next_code,
};
use crate::content::{line_end, marker_value};
use crate::error::JdError;
use crate::model::{views_of, NodeView, Tree};
use crate::naming::{
    digit_run, dot_pairs, ext_dot, is_item_name, item_code_shape, lemma_templates_disjoint,
    parse_category, parse_category_spec, parse_item, parse_item_spec, parse_range,
    parse_range_spec, title_of,
};
use crate::paths::{
    components_of, extension, extension_of, file_name, file_name_of, is_entry_name, join_path,
    join_spec, lemma_components_join, lemma_components_well_formed, lemma_file_name_join,
    lemma_parent_is_spelled, lemma_parent_join, parent_dir, parent_of, path_starts_with, render,
    starts_with_spec,
};
use crate::query::{codes_of_all, id_to_path, path_of_id};
use crate::text::{
    chars_eq_ignore_case, digit_char, eq_ignore_ascii_case, first_index_of, from_chars, is_digit,
    lemma_first_index, lemma_first_index_is, push_str, remove_char, replace_char, replaced_range,
    to_chars, trim_bounds, trimmed, without_char,
};

verus! {

/// What is to be made.
#[derive(Copy, Clone, Debug, PartialEq, Eq, Structural)]
pub enum NewKind {
    Dir,
    File,
    Link,
}

/// One step on the filesystem.
#[derive(Debug, PartialEq, Eq)]
pub enum FsAction {
    /// Make the directory `path`.
    CreateDir { path: String },
    /// Write `content` to the file `path`.
    WriteFile { path: String, content: String },
    /// Give the entry `from` the path `to`.
    Rename { from: String, to: String },
    /// Make sure that the directory `trash_dir` is there, then give the
    /// entry `from` the path `to` in it.
    Trash { from: String, trash_dir: String, to: String },
}

/// The mathematical value of an [`FsAction`].
pub enum FsActionView {
    CreateDir { path: Seq<char> },
    WriteFile { path: Seq<char>, content: Seq<char> },
    Rename { from: Seq<char>, to: Seq<char> },
    Trash { from: Seq<char>, trash_dir: Seq<char>, to: Seq<char> },
}

impl View for FsAction {
    type V = FsActionView;

    open spec fn view(&self) -> FsActionView {
        match *self {
            FsAction::CreateDir { path } => FsActionView::CreateDir { path: path@ },
            FsAction::WriteFile { path, content } => FsActionView::WriteFile {
                path: path@,
                content: content@,
            },
            FsAction::Rename { from, to } => FsActionView::Rename { from: from@, to: to@ },
            FsAction::Trash { from, trash_dir, to } => FsActionView::Trash {
                from: from@,
                trash_dir: trash_dir@,
                to: to@,
            },
        }
    }
}

/// The value of a plan: the step, or why there is none.
pub open spec fn plan_view(r: Result<FsAction, JdError>) -> Result<FsActionView, JdError> {
    match r {
        Ok(a) => Ok(a@),
        Err(e) => Err(e),
    }
}

/// The name of the directory that deleted entries go to.
pub const TRASH_NAME: &'static str = ".jd_trash";

/// What a bookmark file holds before the address.
pub const WEBLOC_HEAD: &'static str =
    "<?xml version=\"1.0\" encoding=\"UTF-8\"?>\n<!DOCTYPE plist PUBLIC \"-//Apple//DTD PLIST 1.0//EN\" \"http://www.apple.com/DTDs/PropertyList-1.0.dtd\">\n<plist version=\"1.0\"><dict><key>URL</key><string>";

/// What a bookmark file holds behind the address.
pub const WEBLOC_TAIL: &'static str = "</string></dict></plist>";

/// A title as it stands in a file name: without white space around it,
/// with an underscore for every space, and without slashes.
pub open spec fn sanitize_spec(input: Seq<char>) -> Seq<char> {
    without_char(replace_char(trimmed(input), ' ', '_'), '/')
}

/// The content of a file that names `location`.
pub open spec fn location_line(location: Seq<char>) -> Seq<char> {
    "LOCATION="@ + location + "\n"@
}

/// Whether the entry at `path` is a bookmark file by its extension.
pub open spec fn is_webloc_path(path: Seq<char>) -> bool {
    match file_name_of(path) {
        Some(n) => match extension_of(n) {
            Some(e) => eq_ignore_ascii_case(e, "webloc"@),
            None => false,
        },
        None => false,
    }
}

/// The content of a link file at `path` that points to `url`: a property
/// list for a bookmark file, the bare address for any other.
pub open spec fn link_content(path: Seq<char>, url: Seq<char>) -> Seq<char> {
    if is_webloc_path(path) {
        WEBLOC_HEAD@ + url + WEBLOC_TAIL@
    } else {
        url
    }
}

/// The step that makes a new entry `name` below the node `parent_id`.
/// - `NotFound` where no node carries `parent_id`.
/// - A directory is made as it is named.
/// - A file gets one line that names `location`, or the parent's path where
///   none is given.
/// - A link needs an address: `MissingRequiredInput` without one.
pub open spec fn create_spec(
    roots: Seq<NodeView>,
    kind: NewKind,
    parent_id: Seq<char>,
    name: Seq<char>,
    url: Option<Seq<char>>,
    location: Option<Seq<char>>,
) -> Result<FsActionView, JdError> {
    match path_of_id(roots, parent_id) {
        None => Err(JdError::NotFound),
        Some(parent) => {
            let path = join_spec(parent, name);
            match kind {
                NewKind::Dir => Ok(FsActionView::CreateDir { path }),
                NewKind::File => Ok(
                    FsActionView::WriteFile {
                        path,
                        content: location_line(
                            match location {
                                Some(l) => l,
                                None => parent,
                            },
                        ),
                    },
                ),
                NewKind::Link => match url {
                    None => Err(JdError::MissingRequiredInput),
                    Some(u) => Ok(
                        FsActionView::WriteFile { path, content: link_content(path, u) },
                    ),
                },
            }
        },
    }
}

/// A code, a title and an extension put together to a file name.
pub open spec fn compose_name(code: Seq<char>, title: Seq<char>, ext: Option<Seq<char>>) -> Seq<
    char,
> {
    match ext {
        Some(e) => if e.len() > 0 {
            code + "_"@ + title + "."@ + e
        } else {
            code + "_"@ + title
        },
        None => code + "_"@ + title,
    }
}

/// The file name that an entry named `current` gets with the title
/// `titled`: its code and its extension stay. A name without a code is
/// replaced by the title.
pub open spec fn renamed_spec(current: Seq<char>, titled: Seq<char>) -> Seq<char> {
    if let Some(p) = parse_item_spec(current) {
        compose_name(p.0, titled, p.2)
    } else if let Some(p) = parse_category_spec(current) {
        compose_name(p.0, titled, None)
    } else if let Some(p) = parse_range_spec(current) {
        compose_name(p.0, titled, None)
    } else {
        titled
    }
}

/// The step that gives the node `id` the title `title`. `NotFound` where no
/// node carries `id` or its path names no entry.
pub open spec fn rename_spec(roots: Seq<NodeView>, id: Seq<char>, title: Seq<char>) -> Result<
    FsActionView,
    JdError,
> {
    match path_of_id(roots, id) {
        None => Err(JdError::NotFound),
        Some(p) => match (file_name_of(p), parent_of(p)) {
            (Some(current), Some(dir)) => Ok(
                FsActionView::Rename {
                    from: p,
                    to: join_spec(dir, renamed_spec(current, sanitize_spec(title))),
                },
            ),
            _ => Err(JdError::NotFound),
        },
    }
}

/// The index of the first root whose path leads to `path`, from index `i`
/// on.
pub open spec fn root_index_from(roots: Seq<NodeView>, path: Seq<char>, i: int) -> Option<int>
    decreases roots.len() - i,
{
    if i < 0 || i >= roots.len() {
        None
    } else if starts_with_spec(path, roots[i].path) {
        Some(i)
    } else {
        root_index_from(roots, path, i + 1)
    }
}

/// The index of the first root whose path leads to `path`.
pub open spec fn root_index(roots: Seq<NodeView>, path: Seq<char>) -> Option<int> {
    root_index_from(roots, path, 0)
}

/// The file name under which an entry named `current` arrives in the
/// directory named `target`.
/// - In an item directory it keeps its name.
/// - An item that arrives in a category gets the next free code of that
///   category, and keeps its title and its extension.
/// - Anything else keeps its name.
pub open spec fn arrival_name(
    codes: Seq<Seq<char>>,
    current: Seq<char>,
    target: Option<Seq<char>>,
) -> Result<Seq<char>, JdError> {
    match target {
        None => Ok(current),
        Some(t) => if is_item_name(t) {
            Ok(current)
        } else {
            match (parse_category_spec(t), parse_item_spec(current)) {
                (Some(category), Some(item)) => match next_item_code(codes, category.0) {
                    Ok(next) => Ok(compose_name(next, item.1, item.2)),
                    Err(e) => Err(e),
                },
                _ => Ok(current),
            }
        },
    }
}

/// The step that moves the node `id` below the node `parent_id`.
/// - `NotFound` where no node carries one of the two ids, or the path of
///   the first names no entry.
/// - `CrossRootViolation` where the two lie under different roots.
/// - `ExhaustedCodeSpace` where an item arrives in a category that has no
///   free code.
pub open spec fn move_spec(roots: Seq<NodeView>, id: Seq<char>, parent_id: Seq<char>) -> Result<
    FsActionView,
    JdError,
> {
    match (path_of_id(roots, id), path_of_id(roots, parent_id)) {
        (Some(p), Some(target)) => {
            if root_index(roots, p) != root_index(roots, target) {
                Err(JdError::CrossRootViolation)
            } else {
                match file_name_of(p) {
                    None => Err(JdError::NotFound),
                    Some(current) => match arrival_name(
                        codes_of_all(roots),
                        current,
                        file_name_of(target),
                    ) {
                        Ok(name) => Ok(FsActionView::Rename { from: p, to: join_spec(target, name) }),
                        Err(e) => Err(e),
                    },
                }
            }
        },
        _ => Err(JdError::NotFound),
    }
}

/// The step that deletes the node `id`: the entry goes, under its name, to
/// the trash directory beside it. `NotFound` where no node carries `id` or
/// its path names no entry.
pub open spec fn delete_spec(roots: Seq<NodeView>, id: Seq<char>) -> Result<FsActionView, JdError> {
    match path_of_id(roots, id) {
        None => Err(JdError::NotFound),
        Some(p) => match (file_name_of(p), parent_of(p)) {
            (Some(name), Some(dir)) => {
                let trash_dir = join_spec(dir, TRASH_NAME@);
                Ok(FsActionView::Trash { from: p, trash_dir, to: join_spec(trash_dir, name) })
            },
            _ => Err(JdError::NotFound),
        },
    }
}

/// Where the search for the extension's `.` ends, and that it passes over no
/// `.` with something behind it.
proof fn lemma_ext_dot(s: Seq<char>, k: int)
    requires
        0 <= k,
    ensures
        ext_dot(s, k) == s.len() || (k <= ext_dot(s, k) && ext_dot(s, k) + 1 < s.len() && s[ext_dot(
            s,
            k,
        )] == '.'),
        forall|j: int| k <= j < ext_dot(s, k) && j + 1 < s.len() ==> s[j] != '.',
    decreases s.len() - k,
{
    if k + 1 < s.len() && s[k] != '.' {
        lemma_ext_dot(s, k + 1);
    }
}

/// The search for the extension's `.` ends at `r` if `r` is the first place
/// that holds a `.` with something behind it, or the end where there is
/// none.
proof fn lemma_ext_dot_is(s: Seq<char>, k: int, r: int)
    requires
        0 <= k,
        r == s.len() || (k <= r && r + 1 < s.len() && s[r] == '.'),
        forall|j: int| k <= j < r && j + 1 < s.len() ==> s[j] != '.',
    ensures
        ext_dot(s, k) == r,
    decreases s.len() - k,
{
    if k + 1 < s.len() && s[k] != '.' {
        lemma_ext_dot_is(s, k + 1, r);
    }
}

/// The name under which a renumbered item arrives is an item name again:
/// read as one, it has the new code, and the title and the extension that
/// the item had.
pub proof fn lemma_renumbered_name_parses(current: Seq<char>, category: Seq<char>, i: int)
    requires
        parse_item_spec(current) is Some,
        category.len() == 2,
        is_digit(category[0]),
        is_digit(category[1]),
        0 <= i < 100,
    ensures
        ({
            let item = parse_item_spec(current)->0;
            let next = item_code(category, i);
            parse_item_spec(compose_name(next, item.1, item.2)) == Some((next, item.1, item.2))
        }),
        ({
            let item = parse_item_spec(current)->0;
            !current.contains('/') ==> !compose_name(item_code(category, i), item.1, item.2).contains(
                '/',
            )
        }),
{
    reveal_strlit("_");
    reveal_strlit(".");
    let item = parse_item_spec(current)->0;
    let title = item.1;
    let ext = item.2;
    let next = item_code(category, i);
    let name = compose_name(next, title, ext);
    let u = first_index_of(current, '_', 0);
    let k = ext_dot(current, u + 2);
    let n = current.len() as int;
    lemma_first_index(current, '_', 0);
    lemma_ext_dot(current, u + 2);
    let raw = current.subrange(u + 1, k);
    let tl = raw.len() as int;
    assert(title == title_of(raw));
    assert(title.len() == tl);
    assert(tl >= 1);
    assert(next =~= seq![category[0], category[1], '.', digit_char(i / 10), digit_char(i % 10)]);
    assert(is_digit(digit_char(i / 10)) && is_digit(digit_char(i % 10)));
    let head = next + seq!['_'] + title;
    assert(head.len() == 6 + tl);
    assert forall|j: int| 0 <= j < tl implies #[trigger] title[j] != '\n' && title[j] != '_' && (j
        >= 1 && (j + 1 < tl || ext is Some) ==> title[j] != '.') && (current[u + 1 + j] != '/'
        ==> title[j] != '/') by {
        assert(raw[j] == current[u + 1 + j]);
    }
    if ext is Some {
        let e = ext->0;
        assert(k < n);
        assert(e == current.subrange(k + 1, n));
        assert(e.len() >= 1);
        assert(name =~= head + seq!['.'] + e);
        assert forall|j: int| 0 <= j < e.len() implies #[trigger] e[j] == current[k + 1 + j] by {}
        assert(name.len() == 7 + tl + e.len());
    } else {
        assert(name =~= head);
    }
    assert forall|j: int| 0 <= j < 5 implies name[j] != '_' by {
        assert(name[j] == next[j]);
    }
    assert(name[5] == '_');
    lemma_first_index_is(name, '_', 0, 5);
    assert(name[0] == category[0] && name[1] == category[1] && name[2] == '.');
    assert(name[3] == digit_char(i / 10) && name[4] == digit_char(i % 10));
    assert(digit_run(name, 5) == 0);
    assert(digit_run(name, 4) == 1);
    assert(digit_run(name, 3) == 2);
    assert(dot_pairs(name, 5, 5));
    assert(item_code_shape(name, 5));
    assert forall|j: int| 6 <= j < name.len() implies name[j] != '\n' by {
        if j < 6 + tl {
            assert(name[j] == title[j - 6]);
        } else if j > 6 + tl {
            assert(name[j] == current[k + 1 + (j - 7 - tl)]);
        }
    }
    assert(is_item_name(name));
    let r = if ext is Some {
        6 + tl
    } else {
        name.len() as int
    };
    assert forall|j: int| 7 <= j < r && j + 1 < name.len() implies name[j] != '.' by {
        assert(name[j] == title[j - 6]);
    }
    lemma_ext_dot_is(name, 7, r);
    assert(name.subrange(0, 5) =~= next);
    assert(name.subrange(6, r) =~= title);
    assert(title_of(title) =~= title);
    if ext is Some {
        assert(name.subrange(r + 1, name.len() as int) =~= ext->0);
    }
    if !current.contains('/') {
        assert forall|j: int| 0 <= j < name.len() implies name[j] != '/' by {
            if j < 5 {
                assert(name[j] == next[j]);
            } else if 6 <= j < 6 + tl {
                assert(name[j] == title[j - 6]);
                assert(current.contains(current[u + 1 + (j - 6)]));
            } else if j > 6 + tl {
                assert(name[j] == current[k + 1 + (j - 7 - tl)]);
                assert(current.contains(current[k + 1 + (j - 7 - tl)]));
            }
        }
    }
}

/// A text without the character does not hold it, and holds nothing that
/// was not there.
proof fn lemma_without_char(s: Seq<char>, c: char)
    ensures
        forall|k: int|
            0 <= k < without_char(s, c).len() ==> #[trigger] without_char(s, c)[k] != c
                && s.contains(without_char(s, c)[k]),
    decreases s.len(),
{
    let r = without_char(s, c);
    if s.len() > 0 {
        let front = s.drop_last();
        lemma_without_char(front, c);
        let f = without_char(front, c);
        assert forall|k: int| 0 <= k < r.len() implies #[trigger] r[k] != c && s.contains(r[k]) by {
            if k < f.len() {
                assert(r[k] == f[k]);
                assert(front.contains(f[k]));
                let m = choose|m: int| 0 <= m < front.len() && front[m] == f[k];
                assert(s[m] == f[k]);
            } else {
                assert(r[k] == s[s.len() - 1]);
            }
        }
    }
}

/// A title that was made fit for a file name holds neither a slash nor a
/// space.
pub proof fn lemma_sanitized_title(input: Seq<char>)
    ensures
        !sanitize_spec(input).contains('/'),
        !sanitize_spec(input).contains(' '),
{
    let replaced = replace_char(trimmed(input), ' ', '_');
    let out = sanitize_spec(input);
    lemma_without_char(replaced, '/');
    assert forall|k: int| 0 <= k < out.len() implies out[k] != '/' && out[k] != ' ' by {
        assert(replaced.contains(out[k]));
        let m = choose|m: int| 0 <= m < replaced.len() && replaced[m] == out[k];
        assert(replaced[m] != ' ');
    }
}

/// What is written into a new file is what a scan reads from it: the
/// location, without white space around it, provided it fits on one line.
pub proof fn lemma_location_is_read_back(location: Seq<char>)
    requires
        !location.contains('\n'),
        !location.contains('\r'),
    ensures
        marker_value(location_line(location), "LOCATION="@) == Some(trimmed(location)),
{
    reveal_strlit("LOCATION=");
    reveal_strlit("\n");
    let marker = "LOCATION="@;
    let text = location_line(location);
    let e = 9 + location.len() as int;
    assert(text.len() == e + 1);
    assert(text[e] == '\n');
    assert forall|j: int| 0 <= j < e implies text[j] != '\n' by {
        if j >= 9 {
            assert(text[j] == location[j - 9]);
            assert(location.contains(location[j - 9]));
        } else {
            assert(text[j] == marker[j]);
        }
    }
    lemma_first_index_is(text, '\n', 0, e);
    if e > 9 {
        assert(text[e - 1] == location[e - 10]);
        assert(location.contains(location[e - 10]));
    }
    assert(line_end(text, 0, e) == e);
    assert(text.subrange(0, 9) =~= marker);
    assert(text.subrange(9, e) =~= location);
}

/// The name of the trash directory can stand below a directory.
pub proof fn lemma_trash_name()
    ensures
        is_entry_name(TRASH_NAME@),
        TRASH_NAME@ != seq!['.', '.'],
{
    reveal_strlit(".jd_trash");
    let t = TRASH_NAME@;
    assert(t.len() == 9);
    assert(!t.contains('/')) by {
        if t.contains('/') {
            let i = choose|i: int| 0 <= i < t.len() && t[i] == '/';
            assert(t[i] == '/');
        }
    }
}

/// The file name of a path can stand below a directory, and is not `..`.
pub proof fn lemma_file_name_is_entry_name(path: Seq<char>)
    requires
        file_name_of(path) is Some,
    ensures
        is_entry_name(file_name_of(path)->0),
        file_name_of(path)->0 != seq!['.', '.'],
{
    lemma_components_well_formed(path);
    let cs = components_of(path);
    assert(cs[cs.len() - 1] == cs.last());
}

/// A deleted entry goes to the trash directory beside it and keeps its
/// name: the trash directory has the parent that the entry had, the entry's
/// new path lies in the trash directory, and its file name is the one that
/// it had.
pub proof fn lemma_delete_moves_to_sibling_trash(roots: Seq<NodeView>, id: Seq<char>)
    requires
        delete_spec(roots, id) is Ok,
    ensures
        match delete_spec(roots, id)->Ok_0 {
            FsActionView::Trash { from, trash_dir, to } => {
                &&& path_of_id(roots, id) == Some(from)
                &&& file_name_of(to) == file_name_of(from)
                &&& file_name_of(from) is Some
                &&& parent_of(to) == Some(trash_dir)
                &&& file_name_of(trash_dir) == Some(TRASH_NAME@)
                &&& parent_of(trash_dir) == parent_of(from)
            },
            _ => false,
        },
{
    let p = path_of_id(roots, id)->0;
    let name = file_name_of(p)->0;
    let dir = parent_of(p)->0;
    let trash_dir = join_spec(dir, TRASH_NAME@);
    lemma_trash_name();
    lemma_file_name_is_entry_name(p);
    lemma_parent_is_spelled(p);
    lemma_parent_join(dir, TRASH_NAME@);
    lemma_file_name_join(dir, TRASH_NAME@);
    lemma_components_join(dir, TRASH_NAME@);
    lemma_file_name_join(trash_dir, name);
    lemma_parent_join(trash_dir, name);
    let cs = components_of(dir).push(TRASH_NAME@);
    assert(cs.drop_last() =~= components_of(dir));
    assert(render(cs) == join_spec(render(cs.drop_last()), cs.last()));
}

/// An entry that is moved into an item directory keeps its file name, and
/// so does every entry that is moved without a new code.
pub proof fn lemma_move_keeps_name(roots: Seq<NodeView>, id: Seq<char>, parent_id: Seq<char>)
    requires
        move_spec(roots, id, parent_id) is Ok,
        path_of_id(roots, id) is Some,
        path_of_id(roots, parent_id) is Some,
        ({
            let target = file_name_of(path_of_id(roots, parent_id)->0);
            let current = file_name_of(path_of_id(roots, id)->0);
            ||| target is None
            ||| is_item_name(target->0)
            ||| parse_category_spec(target->0) is None
            ||| current is None
            ||| parse_item_spec(current->0) is None
        }),
    ensures
        match move_spec(roots, id, parent_id)->Ok_0 {
            FsActionView::Rename { from, to } => {
                &&& path_of_id(roots, id) == Some(from)
                &&& to == join_spec(path_of_id(roots, parent_id)->0, file_name_of(from)->0)
                &&& file_name_of(to) == file_name_of(from)
                &&& file_name_of(from) is Some
            },
            _ => false,
        },
{
    let p = path_of_id(roots, id)->0;
    let target = path_of_id(roots, parent_id)->0;
    lemma_file_name_is_entry_name(p);
    lemma_file_name_join(target, file_name_of(p)->0);
}

/// An item that is moved into a category gets the next free code of that
/// category in place of its own; its title and its extension stay. Its new
/// path lies in the category, and its new file name, read as an item name,
/// has the new code, the old title and the old extension.
pub proof fn lemma_move_renumbers(roots: Seq<NodeView>, id: Seq<char>, parent_id: Seq<char>)
    requires
        move_spec(roots, id, parent_id) is Ok,
        path_of_id(roots, id) is Some,
        path_of_id(roots, parent_id) is Some,
        file_name_of(path_of_id(roots, parent_id)->0) is Some,
        file_name_of(path_of_id(roots, id)->0) is Some,
        parse_category_spec(file_name_of(path_of_id(roots, parent_id)->0)->0) is Some,
        parse_item_spec(file_name_of(path_of_id(roots, id)->0)->0) is Some,
    ensures
        ({
            let target = path_of_id(roots, parent_id)->0;
            let category = parse_category_spec(file_name_of(target)->0)->0;
            let item = parse_item_spec(file_name_of(path_of_id(roots, id)->0)->0)->0;
            let next = next_item_code(codes_of_all(roots), category.0);
            let name = compose_name(next->Ok_0, item.1, item.2);
            &&& next is Ok
            &&& move_spec(roots, id, parent_id) == Ok::<FsActionView, JdError>(
                FsActionView::Rename { from: path_of_id(roots, id)->0, to: join_spec(target, name) },
            )
            &&& file_name_of(join_spec(target, name)) == Some(name)
            &&& parse_item_spec(name) == Some((next->Ok_0, item.1, item.2))
        }),
{
    let target = path_of_id(roots, parent_id)->0;
    let target_name = file_name_of(target)->0;
    let current = file_name_of(path_of_id(roots, id)->0)->0;
    let category = parse_category_spec(target_name)->0;
    let item = parse_item_spec(current)->0;
    let codes = codes_of_all(roots);
    lemma_templates_disjoint(target_name);
    let taken = item_taken(codes, category.0);
    lemma_lowest_free(taken, 1, 99);
    let i = lowest_free(taken, 1, 99)->0;
    let next = item_code(category.0, i);
    let name = compose_name(next, item.1, item.2);
    lemma_file_name_is_entry_name(path_of_id(roots, id)->0);
    lemma_renumbered_name_parses(current, category.0, i);
    assert(name.len() >= 7) by {
        reveal_strlit("_");
        reveal_strlit(".");
        lemma_first_index(name, '_', 0);
    }
    assert(name != seq!['.']);
    assert(name != seq!['.', '.']);
    lemma_file_name_join(target, name);
}

/// A title as it stands in a file name.
pub fn sanitize_title(input: &str) -> (r: String)
    ensures
        r@ == sanitize_spec(input@),
{
    let v = to_chars(input);
    let (a, b) = trim_bounds(&v, 0, v.len());
    assert(v@.subrange(0, v.len() as int) =~= v@);
    let t = replaced_range(&v, a, b, ' ', '_');
    let out = remove_char(&t, '/');
    from_chars(&out)
}

fn is_webloc(path: &str) -> (r: bool)
    ensures
        r == is_webloc_path(path@),
{
    match file_name(path) {
        Some(n) => match extension(n.as_str()) {
            Some(e) => {
                let a = to_chars(e.as_str());
                let b = to_chars("webloc");
                chars_eq_ignore_case(&a, &b)
            },
            None => false,
        },
        None => false,
    }
}

/// Plans the making of a new entry. See [`create_spec`].
pub fn create(
    tree: &Tree,
    kind: NewKind,
    parent_id: &str,
    name: &str,
    url: Option<&str>,
    location: Option<&str>,
) -> (r: Result<FsAction, JdError>)
    ensures
        plan_view(r) == create_spec(
            tree@.roots,
            kind,
            parent_id@,
            name@,
            match url {
                Some(u) => Some(u@),
                None => None,
            },
            match location {
                Some(l) => Some(l@),
                None => None,
            },
        ),
{
    let parent = match id_to_path(tree, parent_id) {
        Some(p) => p,
        None => {
            return Err(JdError::NotFound);
        },
    };
    let path = join_path(parent.as_str(), name);
    match kind {
        NewKind::Dir => Ok(FsAction::CreateDir { path }),
        NewKind::File => {
            let mut v: Vec<char> = Vec::new();
            push_str(&mut v, "LOCATION=");
            match location {
                Some(l) => push_str(&mut v, l),
                None => push_str(&mut v, parent.as_str()),
            }
            push_str(&mut v, "\n");
            let content = from_chars(&v);
            assert(content@ =~= location_line(
                match location {
                    Some(l) => l@,
                    None => parent@,
                },
            ));
            Ok(FsAction::WriteFile { path, content })
        },
        NewKind::Link => {
            let u = match url {
                Some(u) => u,
                None => {
                    return Err(JdError::MissingRequiredInput);
                },
            };
            let mut v: Vec<char> = Vec::new();
            if is_webloc(path.as_str()) {
                push_str(&mut v, WEBLOC_HEAD);
                push_str(&mut v, u);
                push_str(&mut v, WEBLOC_TAIL);
                assert(v@ =~= WEBLOC_HEAD@ + u@ + WEBLOC_TAIL@);
            } else {
                push_str(&mut v, u);
                assert(v@ =~= u@);
            }
            let content = from_chars(&v);
            Ok(FsAction::WriteFile { path, content })
        },
    }
}

fn compose(code: &str, title: &str, ext: Option<&String>) -> (r: String)
    ensures
        r@ == compose_name(code@, title@, ext.deep_view()),
{
    let mut v: Vec<char> = Vec::new();
    push_str(&mut v, code);
    push_str(&mut v, "_");
    push_str(&mut v, title);
    assert(v@ =~= code@ + "_"@ + title@);
    match ext {
        Some(e) => {
            if e.as_str().unicode_len() > 0 {
                push_str(&mut v, ".");
                push_str(&mut v, e.as_str());
                assert(v@ =~= code@ + "_"@ + title@ + "."@ + e@);
            }
        },
        None => {},
    }
    from_chars(&v)
}

/// The file name that an entry named `current` gets with the title `titled`,
/// which is taken as it is.
pub fn renamed(current: &str, titled: &str) -> (r: String)
    ensures
        r@ == renamed_spec(current@, titled@),
{
    if let Some((code, _title, ext)) = parse_item(current) {
        compose(code.as_str(), titled, ext.as_ref())
    } else if let Some((code, _title)) = parse_category(current) {
        compose(code.as_str(), titled, None)
    } else if let Some((code, _title)) = parse_range(current) {
        compose(code.as_str(), titled, None)
    } else {
        titled.to_owned()
    }
}

/// Plans the renaming of a node. See [`rename_spec`].
pub fn rename(tree: &Tree, id: &str, name: &str) -> (r: Result<FsAction, JdError>)
    ensures
        plan_view(r) == rename_spec(tree@.roots, id@, name@),
{
    let p = match id_to_path(tree, id) {
        Some(p) => p,
        None => {
            return Err(JdError::NotFound);
        },
    };
    match (file_name(p.as_str()), parent_dir(p.as_str())) {
        (Some(current), Some(dir)) => {
            let titled = sanitize_title(name);
            let new_name = renamed(current.as_str(), titled.as_str());
            let to = join_path(dir.as_str(), new_name.as_str());
            Ok(FsAction::Rename { from: p, to })
        },
        _ => Err(JdError::NotFound),
    }
}

fn find_root(tree: &Tree, path: &str) -> (r: Option<usize>)
    ensures
        match r {
            Some(i) => root_index(tree@.roots, path@) == Some(i as int),
            None => root_index(tree@.roots, path@) is None,
        },
{
    let ghost roots = tree@.roots;
    let mut i: usize = 0;
    while i < tree.roots.len()
        invariant
            i <= tree.roots.len(),
            roots == views_of(tree.roots@),
            root_index(roots, path@) == root_index_from(roots, path@, i as int),
        decreases tree.roots.len() - i,
    {
        assert(roots[i as int] == tree.roots@[i as int]@);
        if path_starts_with(path, tree.roots[i].path.as_str()) {
            return Some(i);
        }
        i += 1;
    }
    None
}

/// The file name under which an entry arrives in a directory. See
/// [`arrival_name`].
pub fn name_on_arrival(tree: &Tree, current: &str, target: Option<&String>) -> (r: Result<
    String,
    JdError,
>)
    ensures
        crate::codes::result_view(r) == arrival_name(
            codes_of_all(tree@.roots),
            current@,
            target.deep_view(),
        ),
{
    let into_item = match target {
        Some(t) => parse_item(t.as_str()).is_some(),
        None => false,
    };
    if into_item {
        return Ok(current.to_owned());
    }
    let category = match target {
        Some(t) => parse_category(t.as_str()),
        None => None,
    };
    match (category, parse_item(current)) {
        (Some((parent_code, _)), Some((_old, title, ext))) => {
            match suggest_next_code(tree, parent_code.as_str()) {
                Ok(next) => Ok(compose(next.as_str(), title.as_str(), ext.as_ref())),
                Err(e) => Err(e),
            }
        },
        _ => Ok(current.to_owned()),
    }
}

/// Plans the move of a node below another. See [`move_spec`].
pub fn move_node(tree: &Tree, id: &str, parent_id: &str) -> (r: Result<FsAction, JdError>)
    ensures
        plan_view(r) == move_spec(tree@.roots, id@, parent_id@),
{
    let p = match id_to_path(tree, id) {
        Some(p) => p,
        None => {
            return Err(JdError::NotFound);
        },
    };
    let target = match id_to_path(tree, parent_id) {
        Some(t) => t,
        None => {
            return Err(JdError::NotFound);
        },
    };
    let a = find_root(tree, p.as_str());
    let b = find_root(tree, target.as_str());
    let same = match (a, b) {
        (Some(x), Some(y)) => x == y,
        (None, None) => true,
        _ => false,
    };
    if !same {
        return Err(JdError::CrossRootViolation);
    }
    let current = match file_name(p.as_str()) {
        Some(c) => c,
        None => {
            return Err(JdError::NotFound);
        },
    };
    let target_name = file_name(target.as_str());
    match name_on_arrival(tree, current.as_str(), target_name.as_ref()) {
        Ok(name) => {
            let to = join_path(target.as_str(), name.as_str());
            Ok(FsAction::Rename { from: p, to })
        },
        Err(e) => Err(e),
    }
}

/// Plans the deletion of a node. See [`delete_spec`].
pub fn delete_node(tree: &Tree, id: &str) -> (r: Result<FsAction, JdError>)
    ensures
        plan_view(r) == delete_spec(tree@.roots, id@),
{
    let p = match id_to_path(tree, id) {
        Some(p) => p,
        None => {
            return Err(JdError::NotFound);
        },
    };
    match (file_name(p.as_str()), parent_dir(p.as_str())) {
        (Some(name), Some(dir)) => {
            let trash_dir = join_path(dir.as_str(), TRASH_NAME);
            let to = join_path(trash_dir.as_str(), name.as_str());
            Ok(FsAction::Trash { from: p, trash_dir, to })
        },
        _ => Err(JdError::NotFound),
    }
}

} // verus!
