//! Character sequences: the small vocabulary that the rest of the library
//! states its contracts in, and the executable functions that compute it.

use vstd::prelude::*;

verus! {

/// `String::push` appends one character to the end of the string.
pub assume_specification[ String::push ](s: &mut String, c: char)
    ensures
        final(s)@ == old(s)@.push(c),
;

/// The view of an optional string.
pub open spec fn opt_view(s: Option<String>) -> Option<Seq<char>> {
    match s {
        Some(x) => Some(x@),
        None => None,
    }
}

/// An ASCII decimal digit.
pub open spec fn is_digit(c: char) -> bool {
    '0' <= c && c <= '9'
}

/// White space in the sense of Unicode's `White_Space` property.
pub open spec fn is_space(c: char) -> bool {
    ||| ('\u{9}' <= c && c <= '\u{d}')
    ||| c == ' '
    ||| c == '\u{85}'
    ||| c == '\u{a0}'
    ||| c == '\u{1680}'
    ||| ('\u{2000}' <= c && c <= '\u{200a}')
    ||| c == '\u{2028}'
    ||| c == '\u{2029}'
    ||| c == '\u{202f}'
    ||| c == '\u{205f}'
    ||| c == '\u{3000}'
}

/// `s` with every `from` turned into `to`.
pub open spec fn replace_char(s: Seq<char>, from: char, to: char) -> Seq<char> {
    Seq::new(
        s.len(),
        |i: int|
            if s[i] == from {
                to
            } else {
                s[i]
            },
    )
}

/// `s` without the characters equal to `c`, the others in order.
pub open spec fn without_char(s: Seq<char>, c: char) -> Seq<char>
    decreases s.len(),
{
    if s.len() == 0 {
        s
    } else if s.last() == c {
        without_char(s.drop_last(), c)
    } else {
        without_char(s.drop_last(), c).push(s.last())
    }
}

/// An ASCII capital letter in lower case; any other character unchanged.
pub open spec fn ascii_lower(c: char) -> char {
    if 'A' <= c && c <= 'Z' {
        ((c as u32 + 32) as u8) as char
    } else {
        c
    }
}

/// Whether two texts are equal but for the case of their ASCII letters.
pub open spec fn eq_ignore_ascii_case(a: Seq<char>, b: Seq<char>) -> bool {
    a.len() == b.len() && forall|i: int| 0 <= i < a.len() ==> ascii_lower(a[i]) == ascii_lower(b[i])
}

/// The first index at or after `i` that holds no white space; the length of
/// `s` where there is none.
pub open spec fn skip_spaces(s: Seq<char>, i: int) -> int
    decreases s.len() - i,
{
    if 0 <= i < s.len() && is_space(s[i]) {
        skip_spaces(s, i + 1)
    } else {
        i
    }
}

/// The end of the text that is left of `s[lo..j]` once the white space at its
/// end is dropped.
pub open spec fn skip_spaces_back(s: Seq<char>, lo: int, j: int) -> int
    decreases j - lo,
{
    if lo < j <= s.len() && is_space(s[j - 1]) {
        skip_spaces_back(s, lo, j - 1)
    } else {
        j
    }
}

/// `s` without the white space at its start and at its end.
pub open spec fn trimmed(s: Seq<char>) -> Seq<char> {
    let a = skip_spaces(s, 0);
    let b = skip_spaces_back(s, a, s.len() as int);
    s.subrange(a, b)
}

/// The index of the first `c` in `s` at or after `i`; the length of `s` where
/// there is none.
pub open spec fn first_index_of(s: Seq<char>, c: char, i: int) -> int
    decreases s.len() - i,
{
    if 0 <= i < s.len() && s[i] != c {
        first_index_of(s, c, i + 1)
    } else {
        i
    }
}

/// `s` holds `pat` from index `at` on.
pub open spec fn has_prefix_at(s: Seq<char>, at: int, pat: Seq<char>) -> bool {
    0 <= at && at + pat.len() <= s.len() && s.subrange(at, at + pat.len()) == pat
}

/// `s` ends with `pat`.
pub open spec fn has_suffix(s: Seq<char>, pat: Seq<char>) -> bool {
    pat.len() <= s.len() && s.subrange(s.len() - pat.len(), s.len() as int) == pat
}

/// `a` comes strictly before `b` in the order of code points, position by
/// position: the order of `str` and `String`.
pub open spec fn lex_lt(a: Seq<char>, b: Seq<char>) -> bool
    decreases a.len(),
{
    if b.len() == 0 {
        false
    } else if a.len() == 0 {
        true
    } else if a[0] != b[0] {
        a[0] < b[0]
    } else {
        lex_lt(a.drop_first(), b.drop_first())
    }
}

/// `a` does not come after `b`.
pub open spec fn lex_le(a: Seq<char>, b: Seq<char>) -> bool {
    !lex_lt(b, a)
}

/// The character of the decimal digit `d`.
pub open spec fn digit_char(d: int) -> char
    recommends
        0 <= d < 10,
{
    if d == 0 {
        '0'
    } else if d == 1 {
        '1'
    } else if d == 2 {
        '2'
    } else if d == 3 {
        '3'
    } else if d == 4 {
        '4'
    } else if d == 5 {
        '5'
    } else if d == 6 {
        '6'
    } else if d == 7 {
        '7'
    } else if d == 8 {
        '8'
    } else {
        '9'
    }
}

/// The value of the decimal digit `c`.
pub open spec fn digit_value(c: char) -> int
    recommends
        is_digit(c),
{
    c as u32 as int - 48
}

/// `n` written with two decimal digits, a leading zero where it is below ten.
pub open spec fn two_digits(n: int) -> Seq<char>
    recommends
        0 <= n < 100,
{
    seq![digit_char(n / 10), digit_char(n % 10)]
}

/// `n` written in decimal without leading zeros.
pub open spec fn decimal(n: nat) -> Seq<char>
    decreases n,
{
    if n < 10 {
        seq![digit_char(n as int)]
    } else {
        decimal(n / 10).push(digit_char((n % 10) as int))
    }
}

/// Where the search for a character ends: at or after its start, at the
/// first place that holds the character, or at the end of the text.
pub proof fn lemma_first_index(s: Seq<char>, c: char, i: int)
    requires
        0 <= i <= s.len(),
    ensures
        i <= first_index_of(s, c, i) <= s.len(),
        first_index_of(s, c, i) < s.len() ==> s[first_index_of(s, c, i)] == c,
        forall|j: int| i <= j < first_index_of(s, c, i) ==> s[j] != c,
    decreases s.len() - i,
{
    if i < s.len() && s[i] != c {
        lemma_first_index(s, c, i + 1);
    }
}

/// The search gives the same place in a text and in a longer text that
/// begins with it, where it finds the character in the shorter one or the
/// longer one holds the character right behind the shorter one.
pub proof fn lemma_first_index_extend(d: Seq<char>, t: Seq<char>, c: char, i: int)
    requires
        0 <= i <= d.len(),
        d.len() <= t.len(),
        d == t.subrange(0, d.len() as int),
        first_index_of(d, c, i) < d.len() || (d.len() < t.len() && t[d.len() as int] == c),
    ensures
        first_index_of(t, c, i) == first_index_of(d, c, i),
    decreases d.len() - i,
{
    if i < d.len() {
        assert(d[i] == t[i]);
        if d[i] != c {
            lemma_first_index_extend(d, t, c, i + 1);
        }
    }
}

/// The search ends at the end of a text that does not hold the character
/// from the start of the search on.
pub proof fn lemma_first_index_absent(t: Seq<char>, c: char, i: int)
    requires
        0 <= i <= t.len(),
        forall|j: int| i <= j < t.len() ==> t[j] != c,
    ensures
        first_index_of(t, c, i) == t.len(),
    decreases t.len() - i,
{
    if i < t.len() {
        lemma_first_index_absent(t, c, i + 1);
    }
}

/// The search ends at the first place that holds the character.
pub proof fn lemma_first_index_is(s: Seq<char>, c: char, i: int, u: int)
    requires
        0 <= i <= u <= s.len(),
        forall|j: int| i <= j < u ==> s[j] != c,
        u < s.len() ==> s[u] == c,
    ensures
        first_index_of(s, c, i) == u,
    decreases u - i,
{
    if i < u {
        lemma_first_index_is(s, c, i + 1, u);
    }
}

/// The characters of `s`, in order.
pub fn to_chars(s: &str) -> (out: Vec<char>)
    ensures
        out@ == s@,
{
    let mut out: Vec<char> = Vec::new();
    for c in it: s.chars()
        invariant
            it.seq() == s@,
            out@ == s@.take(it.index()),
    {
        out.push(c);
    }
    out
}

/// The string made of `v[from..to]`.
pub(crate) fn sub_string(v: &Vec<char>, from: usize, to: usize) -> (out: String)
    requires
        from <= to <= v.len(),
    ensures
        out@ == v@.subrange(from as int, to as int),
{
    let mut out = String::new();
    let mut i: usize = from;
    while i < to
        invariant
            from <= i <= to <= v.len(),
            out@ == v@.subrange(from as int, i as int),
        decreases to - i,
    {
        out.push(v[i]);
        i += 1;
    }
    out
}

/// The string made of the characters of `v`, in order.
pub fn from_chars(v: &Vec<char>) -> (out: String)
    ensures
        out@ == v@,
{
    let out = sub_string(v, 0, v.len());
    assert(v@.subrange(0, v.len() as int) == v@);
    out
}

/// Appends the characters of `s` to `v`.
pub fn push_str(v: &mut Vec<char>, s: &str)
    ensures
        final(v)@ == old(v)@ + s@,
{
    for c in it: s.chars()
        invariant
            it.seq() == s@,
            v@ == old(v)@ + s@.take(it.index()),
    {
        v.push(c);
    }
}

/// Appends `src[from..to]` to `v`.
pub(crate) fn push_range(v: &mut Vec<char>, src: &Vec<char>, from: usize, to: usize)
    requires
        from <= to <= src.len(),
    ensures
        final(v)@ == old(v)@ + src@.subrange(from as int, to as int),
{
    let mut i: usize = from;
    while i < to
        invariant
            from <= i <= to <= src.len(),
            v@ == old(v)@ + src@.subrange(from as int, i as int),
        decreases to - i,
    {
        v.push(src[i]);
        i += 1;
    }
}

/// The index of the first `c` in `v` at or after `from`; the length of `v`
/// where there is none.
pub(crate) fn find_char(v: &Vec<char>, c: char, from: usize) -> (u: usize)
    requires
        from <= v.len(),
    ensures
        u == first_index_of(v@, c, from as int),
        from <= u <= v.len(),
        u < v.len() ==> v@[u as int] == c,
        forall|j: int| from <= j < u ==> v@[j] != c,
{
    let mut i: usize = from;
    while i < v.len() && v[i] != c
        invariant
            from <= i <= v.len(),
            first_index_of(v@, c, from as int) == first_index_of(v@, c, i as int),
            forall|j: int| from <= j < i ==> v@[j] != c,
        decreases v.len() - i,
    {
        i += 1;
    }
    i
}

/// Whether two character lists are equal.
pub fn chars_eq(a: &Vec<char>, b: &Vec<char>) -> (r: bool)
    ensures
        r == (a@ == b@),
{
    if a.len() != b.len() {
        return false;
    }
    let mut i: usize = 0;
    while i < a.len()
        invariant
            i <= a.len(),
            a.len() == b.len(),
            a@.take(i as int) == b@.take(i as int),
        decreases a.len() - i,
    {
        if a[i] != b[i] {
            return false;
        }
        assert(a@.take(i + 1) == a@.take(i as int).push(a@[i as int]));
        assert(b@.take(i + 1) == b@.take(i as int).push(b@[i as int]));
        i += 1;
    }
    assert(a@.take(a.len() as int) == a@);
    assert(b@.take(b.len() as int) == b@);
    true
}

/// Whether `v` holds the characters of `s`.
pub fn chars_eq_str(v: &Vec<char>, s: &str) -> (r: bool)
    ensures
        r == (v@ == s@),
{
    let w = to_chars(s);
    chars_eq(v, &w)
}

/// Whether `v` ends with the characters of `s`.
pub fn ends_with_str(v: &Vec<char>, s: &str) -> (r: bool)
    ensures
        r == has_suffix(v@, s@),
{
    let w = to_chars(s);
    ends_with(v, &w)
}

/// Whether two strings hold the same characters.
pub fn str_eq(a: &str, b: &str) -> (r: bool)
    ensures
        r == (a@ == b@),
{
    let x = to_chars(a);
    let y = to_chars(b);
    chars_eq(&x, &y)
}

/// Whether `v` holds `pat` from index `at` on.
pub fn starts_with_at(v: &Vec<char>, at: usize, pat: &Vec<char>) -> (r: bool)
    ensures
        r == has_prefix_at(v@, at as int, pat@),
{
    if at > v.len() || pat.len() > v.len() - at {
        return false;
    }
    let mut i: usize = 0;
    while i < pat.len()
        invariant
            i <= pat.len(),
            at + pat.len() <= v.len(),
            v@.subrange(at as int, at + i) == pat@.take(i as int),
        decreases pat.len() - i,
    {
        if v[at + i] != pat[i] {
            assert(v@.subrange(at as int, at + pat.len())[i as int] != pat@[i as int]);
            return false;
        }
        assert(v@.subrange(at as int, at + i + 1) == v@.subrange(at as int, at + i).push(
            v@[at + i],
        ));
        assert(pat@.take(i + 1) == pat@.take(i as int).push(pat@[i as int]));
        i += 1;
    }
    assert(pat@.take(pat.len() as int) == pat@);
    true
}

/// Whether `v` ends with `pat`.
pub fn ends_with(v: &Vec<char>, pat: &Vec<char>) -> (r: bool)
    ensures
        r == has_suffix(v@, pat@),
{
    if pat.len() > v.len() {
        return false;
    }
    starts_with_at(v, v.len() - pat.len(), pat)
}

/// `c` in lower case, if it is an ASCII capital letter.
pub fn char_ascii_lower(c: char) -> (r: char)
    ensures
        r == ascii_lower(c),
{
    if 'A' <= c && c <= 'Z' {
        let b = (c as u32 + 32) as u8;
        b as char
    } else {
        c
    }
}

/// Whether two character lists are equal but for the case of their ASCII
/// letters.
pub fn chars_eq_ignore_case(a: &Vec<char>, b: &Vec<char>) -> (r: bool)
    ensures
        r == eq_ignore_ascii_case(a@, b@),
{
    if a.len() != b.len() {
        return false;
    }
    let mut i: usize = 0;
    while i < a.len()
        invariant
            i <= a.len(),
            a.len() == b.len(),
            forall|k: int| 0 <= k < i ==> ascii_lower(a@[k]) == ascii_lower(b@[k]),
        decreases a.len() - i,
    {
        if char_ascii_lower(a[i]) != char_ascii_lower(b[i]) {
            return false;
        }
        i += 1;
    }
    true
}

/// The characters of `v` without those equal to `c`.
pub fn remove_char(v: &Vec<char>, c: char) -> (out: Vec<char>)
    ensures
        out@ == without_char(v@, c),
{
    let mut out: Vec<char> = Vec::new();
    let mut i: usize = 0;
    assert(v@.take(0) =~= Seq::<char>::empty());
    while i < v.len()
        invariant
            i <= v.len(),
            out@ == without_char(v@.take(i as int), c),
        decreases v.len() - i,
    {
        proof {
            let t = v@.take(i + 1);
            assert(t.drop_last() =~= v@.take(i as int));
            assert(t.last() == v@[i as int]);
        }
        if v[i] != c {
            out.push(v[i]);
        }
        i += 1;
    }
    assert(v@.take(v.len() as int) =~= v@);
    out
}

/// Whether `c` is white space.
pub fn char_is_space(c: char) -> (r: bool)
    ensures
        r == is_space(c),
{
    ('\u{9}' <= c && c <= '\u{d}') || c == ' ' || c == '\u{85}' || c == '\u{a0}' || c
        == '\u{1680}' || ('\u{2000}' <= c && c <= '\u{200a}') || c == '\u{2028}' || c
        == '\u{2029}' || c == '\u{202f}' || c == '\u{205f}' || c == '\u{3000}'
}

/// Whether `c` is an ASCII decimal digit.
pub fn char_is_digit(c: char) -> (r: bool)
    ensures
        r == is_digit(c),
{
    '0' <= c && c <= '9'
}

/// The bounds of `v[from..to]` without the white space at its two ends.
pub(crate) fn trim_bounds(v: &Vec<char>, from: usize, to: usize) -> (r: (usize, usize))
    requires
        from <= to <= v.len(),
    ensures
        from <= r.0 <= r.1 <= to,
        v@.subrange(r.0 as int, r.1 as int) == trimmed(v@.subrange(from as int, to as int)),
{
    let ghost s = v@.subrange(from as int, to as int);
    let mut a: usize = from;
    while a < to && char_is_space(v[a])
        invariant
            from <= a <= to <= v.len(),
            s == v@.subrange(from as int, to as int),
            skip_spaces(s, 0) == skip_spaces(s, a - from),
        decreases to - a,
    {
        assert(s[a - from] == v@[a as int]);
        a += 1;
    }
    assert(skip_spaces(s, 0) == a - from) by {
        if a < to {
            assert(s[a - from] == v@[a as int]);
        }
    }
    let mut b: usize = to;
    while b > a && char_is_space(v[b - 1])
        invariant
            from <= a <= b <= to <= v.len(),
            s == v@.subrange(from as int, to as int),
            skip_spaces_back(s, a - from, s.len() as int) == skip_spaces_back(
                s,
                a - from,
                b - from,
            ),
        decreases b - a,
    {
        assert(s[b - from - 1] == v@[b - 1]);
        b -= 1;
    }
    assert(skip_spaces_back(s, a - from, s.len() as int) == b - from) by {
        if b > a {
            assert(s[b - from - 1] == v@[b - 1]);
        }
    }
    assert(v@.subrange(a as int, b as int) == s.subrange(a - from, b - from));
    (a, b)
}

/// The characters of `v[from..to]` with every `a` turned into `b`.
pub(crate) fn replaced_range(v: &Vec<char>, from: usize, to: usize, a: char, b: char) -> (out: Vec<char>)
    requires
        from <= to <= v.len(),
    ensures
        out@ == replace_char(v@.subrange(from as int, to as int), a, b),
{
    let ghost s = v@.subrange(from as int, to as int);
    let mut out: Vec<char> = Vec::new();
    let mut i: usize = from;
    while i < to
        invariant
            from <= i <= to <= v.len(),
            s == v@.subrange(from as int, to as int),
            out@ == replace_char(s, a, b).take(i - from),
        decreases to - i,
    {
        let c = v[i];
        out.push(if c == a {
            b
        } else {
            c
        });
        assert(s[i - from] == v@[i as int]);
        assert(replace_char(s, a, b).take(i - from + 1) == replace_char(s, a, b).take(
            i - from,
        ).push(replace_char(s, a, b)[i - from]));
        i += 1;
    }
    assert(replace_char(s, a, b).take(to - from) == replace_char(s, a, b));
    out
}

/// The two characters that write `n` in decimal, for `n` below one hundred.
pub(crate) fn push_two_digits(v: &mut Vec<char>, n: u32)
    requires
        n < 100,
    ensures
        final(v)@ == old(v)@ + two_digits(n as int),
{
    let hi = digit_to_char(n / 10);
    let lo = digit_to_char(n % 10);
    v.push(hi);
    v.push(lo);
    assert(v@ == old(v)@ + two_digits(n as int));
}

/// The character of the decimal digit `d`.
pub(crate) fn digit_to_char(d: u32) -> (c: char)
    requires
        d < 10,
    ensures
        c == digit_char(d as int),
        is_digit(c),
{
    if d == 0 {
        '0'
    } else if d == 1 {
        '1'
    } else if d == 2 {
        '2'
    } else if d == 3 {
        '3'
    } else if d == 4 {
        '4'
    } else if d == 5 {
        '5'
    } else if d == 6 {
        '6'
    } else if d == 7 {
        '7'
    } else if d == 8 {
        '8'
    } else {
        '9'
    }
}

/// The value of the decimal digit `c`.
pub(crate) fn char_to_digit(c: char) -> (d: u32)
    requires
        is_digit(c),
    ensures
        d == digit_value(c),
        d < 10,
        digit_char(d as int) == c,
{
    let d = (c as u32) - 48;
    d
}

/// Appends `n` in decimal, without leading zeros.
pub fn push_decimal(v: &mut Vec<char>, n: u64)
    ensures
        final(v)@ == old(v)@ + decimal(n as nat),
    decreases n,
{
    if n < 10 {
        let c = digit_to_char(n as u32);
        v.push(c);
        assert(v@ == old(v)@ + decimal(n as nat));
    } else {
        push_decimal(v, n / 10);
        let c = digit_to_char((n % 10) as u32);
        v.push(c);
        assert(v@ == old(v)@ + decimal(n as nat));
    }
}

/// Whether `a` comes strictly before `b` in the order of code points.
pub fn chars_lt(a: &Vec<char>, b: &Vec<char>) -> (r: bool)
    ensures
        r == lex_lt(a@, b@),
{
    let mut i: usize = 0;
    assert(a@.skip(0) == a@ && b@.skip(0) == b@);
    while i < a.len() && i < b.len()
        invariant
            i <= a.len(),
            i <= b.len(),
            lex_lt(a@, b@) == lex_lt(a@.skip(i as int), b@.skip(i as int)),
        decreases a.len() - i,
    {
        let ghost x = a@.skip(i as int);
        let ghost y = b@.skip(i as int);
        assert(x[0] == a@[i as int] && y[0] == b@[i as int]);
        if a[i] != b[i] {
            return a[i] < b[i];
        }
        assert(x.drop_first() == a@.skip(i + 1));
        assert(y.drop_first() == b@.skip(i + 1));
        i += 1;
    }
    i < b.len()
}

} // verus!
