use jd_helper::codes::{suggest_next_category_in_range, suggest_next_code};
use jd_helper::error::JdError;
use jd_helper::model::{Node, NodeType, Tree};
use jd_helper::query::{
    all_codes, find_by_code, find_by_id, find_parent_id, id_to_path, resolve_code_to_path,
    validate_unique_codes_among_siblings,
};

fn n(id: &str, code: Option<&str>, node_type: NodeType, children: Vec<Node>) -> Node {
    Node {
        id: id.into(),
        code: code.map(|c| c.to_string()),
        title: id.into(),
        path: format!("/p/{}", id),
        node_type,
        location: None,
        url: None,
        children,
    }
}

fn sample() -> Tree {
    Tree {
        roots: vec![n(
            "root",
            None,
            NodeType::Other,
            vec![n(
                "range",
                Some("30-39"),
                NodeType::Range,
                vec![n(
                    "cat",
                    Some("30"),
                    NodeType::Category,
                    vec![
                        n("one", Some("30.01"), NodeType::ItemDir, vec![]),
                        n("three", Some("30.03"), NodeType::File, vec![]),
                    ],
                )],
            )],
        )],
    }
}

#[test]
fn next_item_is_the_lowest_free() {
    assert_eq!(suggest_next_code(&sample(), "30"), Ok("30.02".to_string()));
}

#[test]
fn next_item_of_an_empty_category_is_the_first() {
    assert_eq!(suggest_next_code(&sample(), "31"), Ok("31.01".to_string()));
    assert_eq!(suggest_next_code(&Tree { roots: vec![] }, "30"), Ok("30.01".to_string()));
}

#[test]
fn deeper_codes_take_no_item_number() {
    let t = Tree {
        roots: vec![n(
            "cat",
            Some("30"),
            NodeType::Category,
            vec![
                n("a", Some("30.01.02"), NodeType::ItemDir, vec![]),
                n("b", Some("30.001"), NodeType::ItemDir, vec![]),
            ],
        )],
    };
    assert_eq!(suggest_next_code(&t, "30"), Ok("30.01".to_string()));
}

#[test]
fn a_full_category_has_no_next_item() {
    let mut items = Vec::new();
    for i in 1..=99 {
        items.push(n(&format!("i{}", i), Some(&format!("30.{:02}", i)), NodeType::ItemDir, vec![]));
    }
    let mut t = Tree { roots: vec![n("cat", Some("30"), NodeType::Category, items)] };
    assert_eq!(suggest_next_code(&t, "30"), Err(JdError::ExhaustedCodeSpace));
    t.roots[0].children.remove(41);
    assert_eq!(suggest_next_code(&t, "30"), Ok("30.42".to_string()));
    t.roots[0].children.remove(9);
    assert_eq!(suggest_next_code(&t, "30"), Ok("30.10".to_string()));
}

#[test]
fn next_category_is_the_lowest_free_in_the_range() {
    assert_eq!(suggest_next_category_in_range(&sample(), "30-39"), Ok("31".to_string()));
}

#[test]
fn next_category_starts_at_the_lower_bound() {
    let t = Tree { roots: vec![n("range", Some("00-09"), NodeType::Range, vec![])] };
    assert_eq!(suggest_next_category_in_range(&t, "00-09"), Ok("00".to_string()));
}

#[test]
fn only_categories_directly_below_the_range_count() {
    let t = Tree {
        roots: vec![n(
            "range",
            Some("30-39"),
            NodeType::Range,
            vec![
                n("item", Some("30"), NodeType::ItemDir, vec![]),
                n("cat", Some("31"), NodeType::Category, vec![n("deep", Some("30"), NodeType::Category, vec![])]),
            ],
        )],
    };
    assert_eq!(suggest_next_category_in_range(&t, "30-39"), Ok("30".to_string()));
}

#[test]
fn next_category_fails_for_an_unknown_or_malformed_range() {
    assert_eq!(suggest_next_category_in_range(&sample(), "40-49"), Err(JdError::NotFound));
    assert_eq!(suggest_next_category_in_range(&sample(), "30"), Err(JdError::NotFound));
    assert_eq!(suggest_next_category_in_range(&sample(), "30-39-40"), Err(JdError::NotFound));
    assert_eq!(suggest_next_category_in_range(&sample(), "3a-39"), Err(JdError::NotFound));
}

#[test]
fn a_full_range_has_no_next_category() {
    let mut cats = Vec::new();
    for i in 30..=39 {
        cats.push(n(&format!("c{}", i), Some(&format!("{}", i)), NodeType::Category, vec![]));
    }
    let mut t = Tree { roots: vec![n("range", Some("30-39"), NodeType::Range, cats)] };
    assert_eq!(suggest_next_category_in_range(&t, "30-39"), Err(JdError::ExhaustedCodeSpace));
    t.roots[0].children.remove(9);
    assert_eq!(suggest_next_category_in_range(&t, "30-39"), Ok("39".to_string()));
    let empty = Tree { roots: vec![n("range", Some("39-30"), NodeType::Range, vec![])] };
    assert_eq!(suggest_next_category_in_range(&empty, "39-30"), Err(JdError::ExhaustedCodeSpace));
}

#[test]
fn codes_come_in_the_order_of_the_tree() {
    assert_eq!(all_codes(&sample()), vec!["30-39", "30", "30.01", "30.03"]);
    assert_eq!(all_codes(&Tree { roots: vec![] }), Vec::<String>::new());
}

#[test]
fn the_parent_of_a_node_is_found_by_id() {
    let t = sample();
    assert_eq!(find_parent_id(&t, "one"), Some("cat".to_string()));
    assert_eq!(find_parent_id(&t, "cat"), Some("range".to_string()));
    assert_eq!(find_parent_id(&t, "range"), Some("root".to_string()));
    assert_eq!(find_parent_id(&t, "root"), None);
    assert_eq!(find_parent_id(&t, "nobody"), None);
}

#[test]
fn a_root_that_carries_the_id_does_not_end_the_search() {
    let t = Tree {
        roots: vec![
            n("x", None, NodeType::Other, vec![]),
            n("second", None, NodeType::Other, vec![n("x", None, NodeType::Other, vec![])]),
        ],
    };
    assert_eq!(find_parent_id(&t, "x"), Some("second".to_string()));
}

#[test]
fn nodes_are_found_by_id_and_by_code() {
    let t = sample();
    assert_eq!(id_to_path(&t, "three"), Some("/p/three".to_string()));
    assert_eq!(id_to_path(&t, "four"), None);
    assert_eq!(find_by_id(&t, "cat").map(|x| x.code.clone()), Some(Some("30".to_string())));
    assert_eq!(find_by_code(&t, "30.03").map(|x| x.id.as_str()), Some("three"));
    assert!(find_by_code(&t, "30.02").is_none());
    assert_eq!(resolve_code_to_path(&t, "30-39"), Ok("/p/range".to_string()));
    assert_eq!(resolve_code_to_path(&t, "30.01"), Ok("/p/one".to_string()));
    assert_eq!(resolve_code_to_path(&t, "99"), Err(JdError::NotFound));
}

#[test]
fn the_first_node_in_the_order_of_the_tree_wins() {
    let t = Tree {
        roots: vec![
            n("a", Some("30"), NodeType::Category, vec![n("b", Some("30.01"), NodeType::File, vec![])]),
            n("c", Some("30.01"), NodeType::File, vec![]),
        ],
    };
    assert_eq!(resolve_code_to_path(&t, "30.01"), Ok("/p/b".to_string()));
}

#[test]
fn duplicate_sibling_codes_are_detected() {
    let ok = vec![
        n("a", Some("30.01"), NodeType::File, vec![]),
        n("b", None, NodeType::Other, vec![]),
        n("c", Some("30.02"), NodeType::File, vec![]),
        n("d", None, NodeType::Other, vec![]),
    ];
    assert_eq!(validate_unique_codes_among_siblings(&ok), Ok(()));
    let dup = vec![
        n("a", Some("30.01"), NodeType::File, vec![]),
        n("b", Some("30.02"), NodeType::File, vec![]),
        n("c", Some("30.01"), NodeType::ItemDir, vec![]),
    ];
    assert_eq!(validate_unique_codes_among_siblings(&dup), Err(JdError::DuplicateCode));
    assert_eq!(validate_unique_codes_among_siblings(&[]), Ok(()));
}
