//! The ignore policy: which entries a scan and a preview pass over. Names
//! are compared in lower case.

use vstd::prelude::*;
use crate::paths::{components, components_of, file_name, file_name_of, is_normal};
use crate::text::{chars_eq_str, ends_with_str, has_suffix, to_chars};

verus! {

/// The text that `str::to_lowercase` gives for `s`.
pub uninterp spec fn lowercase(s: Seq<char>) -> Seq<char>;

/// `str::to_lowercase` returns the lower-case form of the text, which
/// depends on the text alone.
pub assume_specification[ str::to_lowercase ](s: &str) -> (r: String)
    ensures
        r@ == lowercase(s@),
;

/// Whether a directory of this name, given in lower case, is passed over:
/// version control, editor caches, temporary and log directories.
pub open spec fn ignored_dir_lower_spec(n: Seq<char>) -> bool {
    ||| n == ".git"@
    ||| n == ".obsidian"@
    ||| n == ".auctex-auto"@
    ||| n == "tmp"@
    ||| n == "temp"@
    ||| n == "cache"@
    ||| n == ".cache"@
    ||| n == ".tmp"@
    ||| n == "logs"@
}

/// Whether a file of this name, given in lower case, is passed over: the
/// desktop's metadata, logs and backups, and what a typesetting run leaves
/// behind.
pub open spec fn ignored_file_lower_spec(n: Seq<char>) -> bool {
    ||| n == ".ds_store"@
    ||| has_suffix(n, ".log"@)
    ||| n == "logs"@
    ||| has_suffix(n, ".bak"@)
    ||| has_suffix(n, ".backup"@)
    ||| has_suffix(n, ".old"@)
    ||| has_suffix(n, ".aux"@)
    ||| has_suffix(n, ".bbl"@)
    ||| has_suffix(n, ".bcf"@)
    ||| has_suffix(n, ".blg"@)
    ||| has_suffix(n, ".fdb_latexmk"@)
    ||| has_suffix(n, ".fls"@)
    ||| has_suffix(n, ".synctex.gz"@)
    ||| has_suffix(n, ".synctex"@)
    ||| has_suffix(n, ".toc"@)
    ||| has_suffix(n, ".out"@)
    ||| has_suffix(n, ".lof"@)
    ||| has_suffix(n, ".lot"@)
    ||| has_suffix(n, ".nav"@)
    ||| has_suffix(n, ".snm"@)
    ||| has_suffix(n, ".vrb"@)
    ||| has_suffix(n, ".dvi"@)
    ||| has_suffix(n, ".idx"@)
    ||| has_suffix(n, ".ilg"@)
    ||| has_suffix(n, ".ind"@)
    ||| has_suffix(n, ".xdv"@)
}

/// Whether a directory of this name is passed over.
pub open spec fn ignored_dir_spec(name: Seq<char>) -> bool {
    ignored_dir_lower_spec(lowercase(name))
}

/// Whether a file of this name is passed over.
pub open spec fn ignored_file_spec(name: Seq<char>) -> bool {
    ignored_file_lower_spec(lowercase(name))
}

/// Whether one of the components that name an entry is the name of a
/// directory that is passed over.
pub open spec fn has_ignored_component(cs: Seq<Seq<char>>) -> bool {
    exists|i: int| 0 <= i < cs.len() && is_normal(#[trigger] cs[i]) && ignored_dir_spec(cs[i])
}

/// The file name of a path in lower case; empty where the path has none.
pub open spec fn file_name_lower_spec(path: Seq<char>) -> Seq<char> {
    match file_name_of(path) {
        Some(n) => lowercase(n),
        None => Seq::empty(),
    }
}

/// Whether the entry at `path` is passed over. It is where the path leads
/// through a directory that is passed over. Otherwise its own name decides,
/// taken in lower case, by the rule for directories or by the rule for
/// files; an entry without a name is kept.
pub open spec fn ignored_path_spec(path: Seq<char>, is_dir: bool) -> bool {
    let name = file_name_lower_spec(path);
    if has_ignored_component(components_of(path)) {
        true
    } else if name.len() == 0 {
        false
    } else if is_dir {
        ignored_dir_spec(name)
    } else {
        ignored_file_spec(name)
    }
}

/// Whether a directory of this name, given in lower case, is passed over.
pub fn is_ignored_dir_lower(n: &str) -> (r: bool)
    ensures
        r == ignored_dir_lower_spec(n@),
{
    let v = to_chars(n);
    chars_eq_str(&v, ".git") || chars_eq_str(&v, ".obsidian") || chars_eq_str(&v, ".auctex-auto")
        || chars_eq_str(&v, "tmp") || chars_eq_str(&v, "temp") || chars_eq_str(&v, "cache")
        || chars_eq_str(&v, ".cache") || chars_eq_str(&v, ".tmp") || chars_eq_str(&v, "logs")
}

/// Whether a file of this name, given in lower case, is passed over.
pub fn is_ignored_file_lower(n: &str) -> (r: bool)
    ensures
        r == ignored_file_lower_spec(n@),
{
    let v = to_chars(n);
    if chars_eq_str(&v, ".ds_store") {
        return true;
    }
    if ends_with_str(&v, ".log") || chars_eq_str(&v, "logs") || ends_with_str(&v, ".bak")
        || ends_with_str(&v, ".backup") || ends_with_str(&v, ".old") {
        return true;
    }
    if ends_with_str(&v, ".aux") || ends_with_str(&v, ".bbl") || ends_with_str(&v, ".bcf")
        || ends_with_str(&v, ".blg") || ends_with_str(&v, ".fdb_latexmk") || ends_with_str(
        &v,
        ".fls",
    ) || ends_with_str(&v, ".synctex.gz") || ends_with_str(&v, ".synctex") || ends_with_str(
        &v,
        ".toc",
    ) || ends_with_str(&v, ".out") || ends_with_str(&v, ".lof") || ends_with_str(&v, ".lot")
        || ends_with_str(&v, ".nav") || ends_with_str(&v, ".snm") || ends_with_str(&v, ".vrb")
        || ends_with_str(&v, ".dvi") || ends_with_str(&v, ".idx") || ends_with_str(&v, ".ilg")
        || ends_with_str(&v, ".ind") || ends_with_str(&v, ".xdv") {
        return true;
    }
    false
}

/// Whether a directory of this name is passed over, whatever the case of
/// its letters.
pub fn is_ignored_dir_name(name: &str) -> (r: bool)
    ensures
        r == ignored_dir_spec(name@),
{
    let n = name.to_lowercase();
    is_ignored_dir_lower(n.as_str())
}

/// Whether a file of this name is passed over, whatever the case of its
/// letters.
pub fn is_ignored_file_name(name: &str) -> (r: bool)
    ensures
        r == ignored_file_spec(name@),
{
    let n = name.to_lowercase();
    is_ignored_file_lower(n.as_str())
}

/// The file name of a path in lower case; empty where the path has none.
pub fn file_name_lower(path: &str) -> (r: String)
    ensures
        r@ == file_name_lower_spec(path@),
{
    match file_name(path) {
        Some(n) => n.as_str().to_lowercase(),
        None => String::new(),
    }
}

/// Whether the entry at `path`, a directory or not, is passed over.
pub fn is_ignored_path(path: &str, is_dir: bool) -> (r: bool)
    ensures
        r == ignored_path_spec(path@, is_dir),
{
    let cs = components(path);
    let ghost all = cs.deep_view();
    let mut i: usize = 0;
    while i < cs.len()
        invariant
            i <= cs.len(),
            all == cs.deep_view(),
            all == components_of(path@),
            forall|k: int| 0 <= k < i ==> !(is_normal(#[trigger] all[k]) && ignored_dir_spec(all[k])),
        decreases cs.len() - i,
    {
        let c = to_chars(cs[i].as_str());
        assert(all[i as int] == c@);
        let root = c.len() == 1 && c[0] == '/';
        let up = c.len() == 2 && c[0] == '.' && c[1] == '.';
        proof {
            if root {
                assert(c@ =~= seq!['/']);
            }
            if up {
                assert(c@ =~= seq!['.', '.']);
            }
            if c@ == seq!['/'] {
                assert(c@.len() == 1 && c@[0] == '/');
            }
            if c@ == seq!['.', '.'] {
                assert(c@.len() == 2 && c@[0] == '.' && c@[1] == '.');
            }
        }
        if !root && !up && is_ignored_dir_name(cs[i].as_str()) {
            return true;
        }
        i += 1;
    }
    let name = file_name_lower(path);
    if name.as_str().unicode_len() == 0 {
        return false;
    }
    if is_dir {
        is_ignored_dir_name(name.as_str())
    } else {
        is_ignored_file_name(name.as_str())
    }
}

} // verus!
