use jd_helper::codes::suggest_next_code;
use jd_helper::model::{Node, NodeType, Tree};
use jd_helper::naming::{classify, is_coded, parse_category, parse_item, parse_range};
use regex::Regex;

fn node(id: &str, code: Option<&str>, title: &str, node_type: NodeType, children: Vec<Node>) -> Node {
    Node {
        id: id.into(),
        code: code.map(|c| c.to_string()),
        title: title.into(),
        path: "".into(),
        node_type,
        location: None,
        url: None,
        children,
    }
}

fn pair(a: &str, b: &str) -> Option<(String, String)> {
    Some((a.to_string(), b.to_string()))
}

fn item(a: &str, b: &str, c: Option<&str>) -> Option<(String, String, Option<String>)> {
    Some((a.to_string(), b.to_string(), c.map(|x| x.to_string())))
}

#[test]
fn parse_variants() {
    assert_eq!(parse_range("30-39_Research").unwrap().0, "30-39");
    assert_eq!(parse_category("30_Topic").unwrap().0, "30");
    assert_eq!(parse_item("30.01_Something.txt").unwrap().0, "30.01");
}

#[test]
fn suggest_basic() {
    let t = Tree {
        roots: vec![node(
            "r",
            Some("30"),
            "30",
            NodeType::Category,
            vec![node("a", Some("30.01"), "a", NodeType::ItemDir, vec![])],
        )],
    };
    let next = suggest_next_code(&t, "30").unwrap();
    assert_eq!(next, "30.02");
}

#[test]
fn range_code_and_title() {
    assert_eq!(parse_range("30-39_Research_Area"), pair("30-39", "Research Area"));
    assert_eq!(parse_range("00-09_x"), pair("00-09", "x"));
    assert_eq!(parse_range("30-39__a_"), pair("30-39", " a "));
}

#[test]
fn range_rejects_other_shapes() {
    assert_eq!(parse_range("30-39_"), None);
    assert_eq!(parse_range("30-39"), None);
    assert_eq!(parse_range("3-39_x"), None);
    assert_eq!(parse_range("30_39_x"), None);
    assert_eq!(parse_range("30-3a_x"), None);
    assert_eq!(parse_range("x30-39_x"), None);
    assert_eq!(parse_range("30-39_a\nb"), None);
    assert_eq!(parse_range(""), None);
}

#[test]
fn category_code_and_title() {
    assert_eq!(parse_category("30_Topic"), pair("30", "Topic"));
    assert_eq!(parse_category("30_My_Topic.d"), pair("30", "My Topic.d"));
    assert_eq!(parse_category("30_"), None);
    assert_eq!(parse_category("3_x"), None);
    assert_eq!(parse_category("30.01_x"), None);
    assert_eq!(parse_category("30-39_x"), None);
    assert_eq!(parse_category("30_a\n"), None);
}

#[test]
fn item_code_title_and_extension() {
    assert_eq!(parse_item("30.01_Something.txt"), item("30.01", "Something", Some("txt")));
    assert_eq!(parse_item("30.01_ItemDir"), item("30.01", "ItemDir", None));
    assert_eq!(parse_item("30.01_My_Doc.tar.gz"), item("30.01", "My Doc", Some("tar.gz")));
    assert_eq!(parse_item("30.001_a"), item("30.001", "a", None));
    assert_eq!(parse_item("30.0001_a"), item("30.0001", "a", None));
    assert_eq!(parse_item("30.01.02_a.b"), item("30.01.02", "a", Some("b")));
    assert_eq!(parse_item("30.01.02.03_a"), item("30.01.02.03", "a", None));
}

#[test]
fn item_title_is_as_short_as_it_can_be() {
    assert_eq!(parse_item("30.01_.x"), item("30.01", ".x", None));
    assert_eq!(parse_item("30.01_a."), item("30.01", "a.", None));
    assert_eq!(parse_item("30.01_.a.b"), item("30.01", ".a", Some("b")));
    assert_eq!(parse_item("30.01_a..b"), item("30.01", "a", Some(".b")));
    assert_eq!(parse_item("30.01_a_b.c_d"), item("30.01", "a b", Some("c_d")));
    assert_eq!(parse_item("30.01_."), item("30.01", ".", None));
    assert_eq!(parse_item("30.01_.."), item("30.01", "..", None));
    assert_eq!(parse_item("30.01_..."), item("30.01", ".", Some(".")));
}

#[test]
fn item_rejects_other_shapes() {
    assert_eq!(parse_item("30.01_"), None);
    assert_eq!(parse_item("30.1_a"), None);
    assert_eq!(parse_item("30.00001_a"), None);
    assert_eq!(parse_item("30.01.2_a"), None);
    assert_eq!(parse_item("30.01.002_a"), None);
    assert_eq!(parse_item("30.01._a"), None);
    assert_eq!(parse_item("30.01"), None);
    assert_eq!(parse_item("30_a"), None);
    assert_eq!(parse_item("3a.01_a"), None);
    assert_eq!(parse_item("30.01_a\nb"), None);
    assert_eq!(parse_item("30.01_a.b\n"), None);
    assert_eq!(parse_item("30.01-a"), None);
}

#[test]
fn templates_are_tried_in_order() {
    assert_eq!(
        classify("30-39_Research"),
        (Some("30-39".to_string()), "Research".to_string(), NodeType::Range)
    );
    assert_eq!(classify("30_Topic"), (Some("30".to_string()), "Topic".to_string(), NodeType::Category));
    assert_eq!(
        classify("30.01_An_Item.d"),
        (Some("30.01".to_string()), "An Item".to_string(), NodeType::ItemDir)
    );
    assert_eq!(classify("R50_Research"), (None, "R50_Research".to_string(), NodeType::Other));
    assert!(is_coded("30-39_a"));
    assert!(is_coded("30_a"));
    assert!(is_coded("30.01_a"));
    assert!(!is_coded("notes"));
}

#[test]
fn parsers_agree_with_the_patterns() {
    let range = Regex::new(r"^(\d{2}-\d{2})_(.+)$").unwrap();
    let category = Regex::new(r"^(\d{2})_(.+)$").unwrap();
    let item_re = Regex::new(r"^(\d{2}\.\d{2,4}(?:\.\d{2})*)_(.+?)(?:\.(.+))?$").unwrap();
    let heads = [
        "", "3", "30", "30-39", "30-3", "3-39", "30.01", "30.1", "30.001", "30.0001", "30.00001",
        "30.01.02", "30.01.2", "30.01.02.03", "30.01.", "a0.01", "30_01", "99-99", "00", "30.01.023",
    ];
    let seps = ["", "_", "-", ".", "__", " "];
    let tails = [
        "", "a", "Title", "a.b", "a.b.c", ".a", "a.", ".", "..", "...", ".a.b", "a_b", "a_b.c_d",
        "_", "a b.txt", "x.webloc", "a\nb", "a.b\n", "\n", "30_x", "a/b.c",
    ];
    let mut seen = 0;
    for h in heads {
        for s in seps {
            for t in tails {
                let name = format!("{}{}{}", h, s, t);
                let want_range = range
                    .captures(&name)
                    .map(|c| (c[1].to_string(), c[2].replace('_', " ")));
                let want_category = category
                    .captures(&name)
                    .map(|c| (c[1].to_string(), c[2].replace('_', " ")));
                let want_item = item_re.captures(&name).map(|c| {
                    (
                        c[1].to_string(),
                        c[2].replace('_', " "),
                        c.get(3).map(|m| m.as_str().to_string()),
                    )
                });
                assert_eq!(parse_range(&name), want_range, "range of {:?}", name);
                assert_eq!(parse_category(&name), want_category, "category of {:?}", name);
                assert_eq!(parse_item(&name), want_item, "item of {:?}", name);
                seen += 1;
            }
        }
    }
    assert_eq!(seen, heads.len() * seps.len() * tails.len());
}

#[test]
fn only_ascii_digits_make_a_code() {
    assert_eq!(parse_category("\u{663}\u{660}_Topic"), None);
    assert_eq!(parse_range("\u{663}\u{660}-\u{663}\u{669}_Research"), None);
    assert_eq!(parse_item("30.\u{660}\u{661}_Item"), None);
    assert_eq!(
        classify("\u{663}\u{660}_Topic"),
        (None, "\u{663}\u{660}_Topic".to_string(), NodeType::Other)
    );
    assert_eq!(parse_category("30_\u{663}\u{660}"), pair("30", "\u{663}\u{660}"));
}
