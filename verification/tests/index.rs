use jd_helper::index::{default_index_path, index_json, json_string_of, IndexIo, INDEX_FILE_NAME};
use jd_helper::model::{Node, NodeType, Tree};
use serde_json::Value;

fn n(id: &str, code: Option<&str>, node_type: NodeType, children: Vec<Node>) -> Node {
    Node {
        id: id.into(),
        code: code.map(|c| c.to_string()),
        title: format!("title of {}", id),
        path: format!("/R/{}", id),
        node_type,
        location: None,
        url: None,
        children,
    }
}

fn sample() -> Tree {
    let mut file = n("f", Some("30.01"), NodeType::File, vec![]);
    file.location = Some("shelf \"3\"".to_string());
    let mut link = n("l", Some("30.02"), NodeType::Link, vec![]);
    link.url = Some("https://example.com/a\\b".to_string());
    Tree {
        roots: vec![n(
            "r",
            None,
            NodeType::Other,
            vec![n("c", Some("30"), NodeType::Category, vec![file, link])],
        )],
    }
}

#[test]
fn the_snapshot_of_an_empty_tree() {
    assert_eq!(index_json(&Tree { roots: vec![] }), "{\n  \"roots\": []\n}");
}

#[test]
fn the_snapshot_of_one_node() {
    let tree = Tree { roots: vec![n("r", Some("30-39"), NodeType::Range, vec![])] };
    let want = "{\n  \"roots\": [\n    {\n      \"id\": \"r\",\n      \"code\": \"30-39\",\n      \"title\": \"title of r\",\n      \"path\": \"/R/r\",\n      \"node_type\": \"Range\",\n      \"location\": null,\n      \"url\": null,\n      \"children\": []\n    }\n  ]\n}";
    assert_eq!(index_json(&tree), want);
}

#[test]
fn the_snapshot_of_nested_nodes() {
    let tree = Tree {
        roots: vec![
            n("a", None, NodeType::Other, vec![n("b", Some("30"), NodeType::Category, vec![])]),
            n("c", None, NodeType::Other, vec![]),
        ],
    };
    let want = concat_lines(&[
        "{",
        "  \"roots\": [",
        "    {",
        "      \"id\": \"a\",",
        "      \"code\": null,",
        "      \"title\": \"title of a\",",
        "      \"path\": \"/R/a\",",
        "      \"node_type\": \"Other\",",
        "      \"location\": null,",
        "      \"url\": null,",
        "      \"children\": [",
        "        {",
        "          \"id\": \"b\",",
        "          \"code\": \"30\",",
        "          \"title\": \"title of b\",",
        "          \"path\": \"/R/b\",",
        "          \"node_type\": \"Category\",",
        "          \"location\": null,",
        "          \"url\": null,",
        "          \"children\": []",
        "        }",
        "      ]",
        "    },",
        "    {",
        "      \"id\": \"c\",",
        "      \"code\": null,",
        "      \"title\": \"title of c\",",
        "      \"path\": \"/R/c\",",
        "      \"node_type\": \"Other\",",
        "      \"location\": null,",
        "      \"url\": null,",
        "      \"children\": []",
        "    }",
        "  ]",
        "}",
    ]);
    assert_eq!(index_json(&tree), want);
}

fn concat_lines(lines: &[&str]) -> String {
    lines.join("\n")
}

#[test]
fn the_snapshot_is_the_same_each_time() {
    assert_eq!(index_json(&sample()), index_json(&sample()));
    assert_eq!(index_json(&sample()), index_json(&sample().clone()));
    let io = IndexIo::default();
    assert_eq!(io.write_index(None, &sample(), None), io.write_index(None, &sample(), None));
}

fn check_node(v: &Value, node: &Node) {
    let o = v.as_object().unwrap();
    assert_eq!(o.len(), 8);
    assert_eq!(o["id"].as_str(), Some(node.id.as_str()));
    assert_eq!(o["code"].as_str(), node.code.as_deref());
    assert_eq!(o["code"].is_null(), node.code.is_none());
    assert_eq!(o["title"].as_str(), Some(node.title.as_str()));
    assert_eq!(o["path"].as_str(), Some(node.path.as_str()));
    let kind = match node.node_type {
        NodeType::Range => "Range",
        NodeType::Category => "Category",
        NodeType::ItemDir => "ItemDir",
        NodeType::File => "File",
        NodeType::Link => "Link",
        NodeType::Other => "Other",
    };
    assert_eq!(o["node_type"].as_str(), Some(kind));
    assert_eq!(o["location"].as_str(), node.location.as_deref());
    assert_eq!(o["url"].as_str(), node.url.as_deref());
    let kids = o["children"].as_array().unwrap();
    assert_eq!(kids.len(), node.children.len());
    for (k, c) in kids.iter().zip(node.children.iter()) {
        check_node(k, c);
    }
}

#[test]
fn the_snapshot_reads_back_as_the_tree() {
    let mut tree = sample();
    tree.roots[0].title = "tab\there \u{1} \u{7f} caf\u{e9} \u{1f600} \r\n \u{8}\u{c}/".to_string();
    tree.roots.push(n("k", Some("30.03"), NodeType::ItemDir, vec![]));
    let text = index_json(&tree);
    let v: Value = serde_json::from_str(&text).unwrap();
    let o = v.as_object().unwrap();
    assert_eq!(o.len(), 1);
    let roots = o["roots"].as_array().unwrap();
    assert_eq!(roots.len(), 2);
    for (r, node) in roots.iter().zip(tree.roots.iter()) {
        check_node(r, node);
    }
    assert!(text.contains("30.02"));
}

#[test]
fn strings_are_escaped_as_the_json_writer_does() {
    let mut samples: Vec<String> = vec![
        "".into(),
        "plain".into(),
        "quote \" backslash \\ slash /".into(),
        "caf\u{e9} \u{4e2d}\u{6587} \u{1f600}".into(),
        "\u{7f}\u{80}\u{2028}".into(),
    ];
    for c in 0u8..=0x20 {
        samples.push(format!("a{}b", c as char));
    }
    for s in samples {
        let want = serde_json::to_string(&Value::String(s.clone())).unwrap();
        assert_eq!(json_string_of(&s), want, "for {:?}", s);
    }
    assert_eq!(json_string_of("a\u{1f}\n"), "\"a\\u001f\\n\"");
}

#[test]
fn where_the_snapshot_is_kept() {
    let io = IndexIo::default();
    let one = Tree { roots: vec![n("r", None, NodeType::Other, vec![])] };
    let two = Tree { roots: vec![n("r", None, NodeType::Other, vec![]), n("s", None, NodeType::Other, vec![])] };
    assert_eq!(io.write_index(Some("/tmp/out.json"), &one, Some("/home/u")).path, "/tmp/out.json");
    assert_eq!(io.write_index(None, &one, Some("/home/u")).path, "/R/r/.jd_index.json");
    assert_eq!(io.write_index(None, &two, Some("/home/u")).path, "/home/u/.config/jd/.jd_index.json");
    assert_eq!(io.write_index(None, &two, None).path, "./.config/jd/.jd_index.json");
    assert_eq!(io.write_index(None, &Tree { roots: vec![] }, Some("/h")).path, "/h/.config/jd/.jd_index.json");
    assert_eq!(io.write_index(None, &one, None).content, index_json(&one));
    assert_eq!(default_index_path(Some("/home/u/")), "/home/u/.config/jd/.jd_index.json");
    assert_eq!(INDEX_FILE_NAME, ".jd_index.json");
}

#[test]
fn the_layout_is_that_of_the_pretty_printer() {
    let mut tree = sample();
    tree.roots.push(n("k", Some("30.03"), NodeType::ItemDir, vec![]));
    tree.roots[0].children[0].children[0].title = "with \"quotes\" and \\ and \n".to_string();
    for t in [tree, Tree { roots: vec![] }, Tree { roots: vec![n("r", None, NodeType::Other, vec![])] }] {
        let ours = index_json(&t);
        let value: Value = serde_json::from_str(&ours).unwrap();
        let theirs = serde_json::to_string_pretty(&value).unwrap();
        let normal = |text: &str| {
            let mut lines: Vec<String> =
                text.lines().map(|l| l.strip_suffix(',').unwrap_or(l).to_string()).collect();
            lines.sort();
            lines
        };
        assert_eq!(normal(&ours), normal(&theirs));
        assert_eq!(ours.len(), theirs.len());
        assert_eq!(ours.ends_with('\n'), theirs.ends_with('\n'));
    }
}
