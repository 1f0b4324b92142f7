use jd_helper::model::{Node, NodeType, Tree};
use jd_helper::state::{default_state_path, expand_all, ExpandedState};
use jd_helper::tsv::{build_fuzzy, flatten_to_tsv, glyph, tsv_hay, tsv_line};
use regex::Regex;

fn n(id: &str, code: Option<&str>, node_type: NodeType, children: Vec<Node>) -> Node {
    Node {
        id: id.into(),
        code: code.map(|c| c.to_string()),
        title: format!("T {}", id),
        path: format!("/R/{}", id),
        node_type,
        location: None,
        url: None,
        children,
    }
}

fn sample() -> Tree {
    let mut link = n("l", Some("30.02"), NodeType::Link, vec![]);
    link.url = Some("https://example.com".to_string());
    Tree {
        roots: vec![n(
            "r",
            None,
            NodeType::Other,
            vec![n(
                "g",
                Some("30-39"),
                NodeType::Range,
                vec![n(
                    "c",
                    Some("30"),
                    NodeType::Category,
                    vec![n("f", Some("30.01"), NodeType::File, vec![]), link],
                )],
            )],
        )],
    }
}

#[test]
fn toggling_expands_and_collapses() {
    let mut st = ExpandedState::new();
    assert!(!st.is_expanded("a"));
    st.toggle("a");
    assert!(st.is_expanded("a"));
    st.toggle("b");
    st.toggle("a");
    assert!(!st.is_expanded("a"));
    assert!(st.is_expanded("b"));
    assert_eq!(st.ids(), vec!["b"]);
    st.toggle("b");
    assert_eq!(st, ExpandedState::new());
}

#[test]
fn the_ids_are_kept_in_order_and_once() {
    let mut st = ExpandedState::new();
    for id in ["m", "b", "z", "a", "mm", "b", ""] {
        st.insert(id);
    }
    assert_eq!(st.ids(), vec!["", "a", "b", "m", "mm", "z"]);
    st.toggle("m");
    assert_eq!(st.ids(), vec!["", "a", "b", "mm", "z"]);
    st.toggle("c");
    assert_eq!(st.ids(), vec!["", "a", "b", "c", "mm", "z"]);
    let again = ExpandedState::from_ids(&vec!["z".to_string(), "a".to_string(), "z".to_string()]);
    assert_eq!(again.ids(), vec!["a", "z"]);
    assert!(again.is_expanded("z"));
    assert!(!again.is_expanded("b"));
}

#[test]
fn expanding_all_takes_every_directory() {
    let st = expand_all(&sample());
    assert_eq!(st.ids(), vec!["c", "g", "r"]);
    assert_eq!(expand_all(&Tree { roots: vec![] }).ids(), Vec::<String>::new());
}

#[test]
fn where_the_state_is_kept() {
    assert_eq!(default_state_path(Some("/home/u")), "/home/u/.cache/jd/state.json");
    assert_eq!(default_state_path(None), "./.cache/jd/state.json");
}

#[test]
fn the_mark_of_a_node() {
    assert_eq!(glyph(true, true), "\u{25be}");
    assert_eq!(glyph(true, false), "\u{25b8}");
    assert_eq!(glyph(false, true), " ");
    assert_eq!(glyph(false, false), " ");
}

#[test]
fn the_line_of_a_node() {
    let t = sample();
    let c = &t.roots[0].children[0].children[0];
    let ind: Vec<char> = "    ".chars().collect();
    assert_eq!(tsv_line(c, &ind, true, "g"), "dir\tc\t    \u{25be} 30 T c\t/R/c\tg");
    assert_eq!(tsv_hay(c, &ind, false), "    \u{25b8} 30 T c 30 /R/c");
    let l = &c.children[1];
    assert_eq!(tsv_line(l, &vec![], false, "c"), "link\tl\t  30.02 T l\thttps://example.com\tc");
    let f = &c.children[0];
    assert_eq!(tsv_line(f, &vec![], true, ""), "file\tf\t  30.01 T f\t/R/f\t");
    assert_eq!(tsv_line(&t.roots[0], &vec![], true, ""), "dir\tr\t\u{25be} T r\t/R/r\t");
    assert_eq!(tsv_hay(&t.roots[0], &vec![], true), "\u{25be} T r  /R/r");
    let bare = n("x", Some("30.03"), NodeType::Link, vec![]);
    assert_eq!(tsv_line(&bare, &vec![], true, "c"), "link\tx\t  30.03 T x\t/R/x\tc");
}

#[test]
fn the_listing_follows_the_state() {
    let t = sample();
    let none = ExpandedState::new();
    assert_eq!(
        flatten_to_tsv(&t, None, &none, false, false),
        Some(vec![
            "dir\tr\t\u{25be} T r\t/R/r\t".to_string(),
            "dir\tg\t  \u{25b8} 30-39 T g\t/R/g\tr".to_string(),
        ])
    );
    assert_eq!(
        flatten_to_tsv(&t, None, &none, false, true),
        Some(vec!["dir\tr\t\u{25b8} T r\t/R/r\t".to_string()])
    );
    let mut st = ExpandedState::new();
    st.toggle("g");
    st.toggle("c");
    let open = flatten_to_tsv(&t, None, &st, false, false).unwrap();
    assert_eq!(
        open,
        vec![
            "dir\tr\t\u{25be} T r\t/R/r\t",
            "dir\tg\t  \u{25be} 30-39 T g\t/R/g\tr",
            "dir\tc\t    \u{25be} 30 T c\t/R/c\tg",
            "file\tf\t        30.01 T f\t/R/f\tc",
            "link\tl\t        30.02 T l\thttps://example.com\tc",
        ]
    );
    assert_eq!(flatten_to_tsv(&t, None, &none, true, true).unwrap(), open);
    assert_eq!(flatten_to_tsv(&t, None, &st, false, true).unwrap().len(), 1);
}

#[test]
fn a_filter_keeps_the_lines_that_it_matches() {
    let t = sample();
    let none = ExpandedState::new();
    let got = flatten_to_tsv(&t, Some("EXc"), &none, true, false).unwrap();
    assert_eq!(got, vec!["link\tl\t        30.02 T l\thttps://example.com\tc"]);
    let got = flatten_to_tsv(&t, Some("3001"), &none, true, false).unwrap();
    assert_eq!(got, vec!["file\tf\t        30.01 T f\t/R/f\tc"]);
    assert_eq!(flatten_to_tsv(&t, Some(""), &none, true, false).unwrap().len(), 5);
    assert_eq!(flatten_to_tsv(&t, Some("zzz"), &none, true, false), Some(vec![]));
    assert_eq!(flatten_to_tsv(&t, Some("T.g"), &none, true, false), Some(vec![]));
    let closed = flatten_to_tsv(&t, Some("3001"), &none, false, false).unwrap();
    assert!(closed.is_empty());
}

#[test]
fn the_pattern_of_a_filter() {
    assert_eq!(build_fuzzy(""), "(?i)");
    assert_eq!(build_fuzzy("ab"), "(?i).*a.*b");
    assert_eq!(build_fuzzy("a.b"), "(?i).*a.*\\..*b");
    assert_eq!(build_fuzzy("(x)"), "(?i).*\\(.*x.*\\)");
    for q in ["", "abc", "30.01", "a b", "[x]*+?", "\u{e9}\u{4e2d}"] {
        let mut want = String::from("(?i)");
        for ch in q.chars() {
            want.push_str(&format!(".*{}", regex::escape(&ch.to_string())));
        }
        assert_eq!(build_fuzzy(q), want);
        assert!(Regex::new(&build_fuzzy(q)).is_ok());
    }
}

#[test]
fn a_filter_that_is_too_long_gives_no_listing() {
    let long: String = std::iter::repeat('a').take(200_000).collect();
    let pattern = build_fuzzy(&long);
    if Regex::new(&pattern).is_err() {
        assert_eq!(flatten_to_tsv(&sample(), Some(&long), &ExpandedState::new(), true, false), None);
    } else {
        assert!(flatten_to_tsv(&sample(), Some(&long), &ExpandedState::new(), true, false).is_some());
    }
}
