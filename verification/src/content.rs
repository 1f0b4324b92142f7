//! What the content of a file says of it: the place that a file names in a
//! `LOCATION=` line, and the address that a link file points to.

use vstd::prelude::*;
use vstd::utf8::{decode_utf8, valid_utf8};
use crate::text::{
    find_char, first_index_of, has_prefix_at, starts_with_at, sub_string, to_chars, trim_bounds,
    trimmed,
};

verus! {

/// The pattern of the first thing in a text that looks like an address.
pub const URL_PATTERN: &'static str = "(?i)\\b(https?://\\S+|obsidian://\\S+|file://\\S+)";

/// The text that group `group` of the first match of the regular expression
/// `pattern` in `text` holds; `None` where the pattern is not accepted,
/// nothing matches, or the group took no part in the match.
pub uninterp spec fn regex_captured(pattern: Seq<char>, text: Seq<char>, group: int) -> Option<
    Seq<char>,
>;

/// Compiles `pattern` with `Regex::new` of the `regex` crate, searches `text`
/// with `Regex::captures` and hands out the text of one group of the first
/// match. What comes back depends on the pattern, the text and the group's
/// number alone.
#[verifier::external_body]
fn regex_capture(pattern: &str, text: &str, group: usize) -> (r: Option<String>)
    ensures
        r.deep_view() == regex_captured(pattern@, text@, group as int),
{
    match regex::Regex::new(pattern) {
        Ok(re) => match re.captures(text) {
            Some(c) => match c.get(group) {
                Some(m) => Some(m.as_str().to_string()),
                None => None,
            },
            None => None,
        },
        Err(_) => None,
    }
}

/// The text of the entry `key` of the dictionary that the XML property list
/// `bytes` holds; `None` where the bytes are no property list, the list is
/// no dictionary, or the dictionary has no text under that key.
pub uninterp spec fn plist_text(bytes: Seq<u8>, key: Seq<char>) -> Option<Seq<char>>;

/// Reads `bytes` with `Value::from_reader_xml` of the `plist` crate and looks
/// `key` up with `Value::as_dictionary`, `Dictionary::get` and
/// `Value::as_string`. What comes back depends on the bytes and the key
/// alone.
#[verifier::external_body]
fn plist_text_of(bytes: &[u8], key: &str) -> (r: Option<String>)
    ensures
        r.deep_view() == plist_text(bytes@, key@),
{
    match plist::Value::from_reader_xml(bytes) {
        Ok(v) => match v.as_dictionary() {
            Some(d) => match d.get(key) {
                Some(x) => match x.as_string() {
                    Some(s) => Some(s.to_string()),
                    None => None,
                },
                None => None,
            },
            None => None,
        },
        Err(_) => None,
    }
}

/// `core::str::from_utf8` accepts exactly the bytes that are valid UTF-8 and
/// gives the text that they encode.
#[verifier::external_body]
fn utf8_text(bytes: &[u8]) -> (r: Option<String>)
    ensures
        match r {
            Some(s) => valid_utf8(bytes@) && s@ == decode_utf8(bytes@),
            None => !valid_utf8(bytes@),
        },
{
    match core::str::from_utf8(bytes) {
        Ok(s) => Some(s.to_string()),
        Err(_) => None,
    }
}

/// The bytes that were read, if any were.
pub open spec fn opt_bytes(content: Option<&Vec<u8>>) -> Option<Seq<u8>> {
    match content {
        Some(b) => Some(b@),
        None => None,
    }
}

/// The text that bytes encode; `None` where they are not valid UTF-8.
pub open spec fn text_of(bytes: Seq<u8>) -> Option<Seq<char>> {
    if valid_utf8(bytes) {
        Some(decode_utf8(bytes))
    } else {
        None
    }
}

/// The end of the line that runs from `p` to the line feed at `e` or to the
/// end of the text at `e`: a carriage return before the line feed is not
/// part of the line.
pub open spec fn line_end(text: Seq<char>, p: int, e: int) -> int {
    if p < e < text.len() && text[e - 1] == '\r' {
        e - 1
    } else {
        e
    }
}

/// What follows `marker` on the first line, from index `p` on, that begins
/// with it, without the white space around it; `None` where no line begins
/// with the marker.
pub open spec fn marker_value_from(text: Seq<char>, marker: Seq<char>, p: int) -> Option<
    Seq<char>,
>
    decreases text.len() - p,
{
    if p < 0 || p >= text.len() {
        None
    } else {
        let e = first_index_of(text, '\n', p);
        let end = line_end(text, p, e);
        if p + marker.len() <= end && has_prefix_at(text, p, marker) {
            Some(trimmed(text.subrange(p + marker.len(), end)))
        } else if p <= e < text.len() {
            marker_value_from(text, marker, e + 1)
        } else {
            None
        }
    }
}

/// What follows `marker` on the first line of `text` that begins with it.
pub open spec fn marker_value(text: Seq<char>, marker: Seq<char>) -> Option<Seq<char>> {
    marker_value_from(text, marker, 0)
}

/// The place that a file's content names: what follows `LOCATION=` on the
/// first line that begins so. A file that was not read, or that is no
/// text, names none.
pub open spec fn location_of(content: Option<Seq<u8>>) -> Option<Seq<char>> {
    match content {
        Some(bytes) => match text_of(bytes) {
            Some(text) => marker_value(text, "LOCATION="@),
            None => None,
        },
        None => None,
    }
}

/// The address in the text of a shortcut file: what follows `URL=` on the
/// first line that begins so; else the first thing in the text that looks
/// like an address.
pub open spec fn url_in_text(text: Seq<char>) -> Option<Seq<char>> {
    match marker_value(text, "URL="@) {
        Some(u) => Some(u),
        None => regex_captured(URL_PATTERN@, text, 1),
    }
}

/// The address that a shortcut file's content holds.
pub open spec fn url_file_url(content: Option<Seq<u8>>) -> Option<Seq<char>> {
    match content {
        Some(bytes) => match text_of(bytes) {
            Some(text) => url_in_text(text),
            None => None,
        },
        None => None,
    }
}

/// The address that a bookmark file's content holds: the text under `URL`
/// in its property list, else the text under `URLString`.
pub open spec fn webloc_url(content: Option<Seq<u8>>) -> Option<Seq<char>> {
    match content {
        Some(bytes) => match plist_text(bytes, "URL"@) {
            Some(u) => Some(u),
            None => plist_text(bytes, "URLString"@),
        },
        None => None,
    }
}

/// What follows `marker` on the first line of `text` that begins with it,
/// without the white space around it.
pub fn find_marker(text: &str, marker: &str) -> (r: Option<String>)
    ensures
        r.deep_view() == marker_value(text@, marker@),
{
    let v = to_chars(text);
    let m = to_chars(marker);
    let n = v.len();
    let mut p: usize = 0;
    while p < n
        invariant
            p <= n,
            n == v.len(),
            v@ == text@,
            m@ == marker@,
            marker_value(text@, marker@) == marker_value_from(v@, m@, p as int),
        decreases n - p,
    {
        let e = find_char(&v, '\n', p);
        let end = if p < e && e < n && v[e - 1] == '\r' {
            e - 1
        } else {
            e
        };
        if m.len() <= end - p && starts_with_at(&v, p, &m) {
            let (a, b) = trim_bounds(&v, p + m.len(), end);
            return Some(sub_string(&v, a, b));
        }
        if e < n {
            p = e + 1;
        } else {
            return None;
        }
    }
    None
}

/// The place that a file's content names in its `LOCATION=` line.
pub fn parse_location_from_file(content: Option<&Vec<u8>>) -> (r: Option<String>)
    ensures
        r.deep_view() == location_of(opt_bytes(content)),
{
    match content {
        Some(bytes) => match utf8_text(bytes.as_slice()) {
            Some(text) => find_marker(text.as_str(), "LOCATION="),
            None => None,
        },
        None => None,
    }
}

/// The address in the text of a shortcut file.
pub fn url_from_text(text: &str) -> (r: Option<String>)
    ensures
        r.deep_view() == url_in_text(text@),
{
    match find_marker(text, "URL=") {
        Some(u) => Some(u),
        None => regex_capture(URL_PATTERN, text, 1),
    }
}

/// The address that a shortcut file's content holds.
pub fn parse_url_file(content: Option<&Vec<u8>>) -> (r: Option<String>)
    ensures
        r.deep_view() == url_file_url(opt_bytes(content)),
{
    match content {
        Some(bytes) => match utf8_text(bytes.as_slice()) {
            Some(text) => url_from_text(text.as_str()),
            None => None,
        },
        None => None,
    }
}

/// The address that a bookmark file's content holds.
pub fn parse_webloc_url(content: Option<&Vec<u8>>) -> (r: Option<String>)
    ensures
        r.deep_view() == webloc_url(opt_bytes(content)),
{
    match content {
        Some(bytes) => match plist_text_of(bytes.as_slice(), "URL") {
            Some(u) => Some(u),
            None => plist_text_of(bytes.as_slice(), "URLString"),
        },
        None => None,
    }
}

} // verus!
