use jd_helper::identity::IdentitySource;
use jd_helper::model::{Node, NodeType, Tree};
use jd_helper::mutate::{create, FsAction, NewKind};
use jd_helper::query::{find_by_code, validate_unique_codes_among_siblings};
use jd_helper::scan::{name_of_path, scan_dir, scan_file, scan_roots, RawEntry};

fn dir(name: &str, ino: u64, children: Vec<RawEntry>) -> RawEntry {
    RawEntry {
        name: name.to_string(),
        is_dir: true,
        identity: IdentitySource::Inode { dev: 1, ino },
        content: None,
        children,
    }
}

fn file(name: &str, ino: u64, content: &str) -> RawEntry {
    RawEntry {
        name: name.to_string(),
        is_dir: false,
        identity: IdentitySource::Inode { dev: 1, ino },
        content: Some(content.as_bytes().to_vec()),
        children: vec![],
    }
}

fn research_root() -> RawEntry {
    dir(
        "/R",
        1,
        vec![dir(
            "30-39_Research",
            2,
            vec![dir(
                "30_Topic",
                3,
                vec![file("30.02_Doc.txt", 5, "hello"), dir("30.01_ItemDir", 4, vec![])],
            )],
        )],
    )
}

fn names(nodes: &[Node]) -> Vec<String> {
    nodes.iter().map(|n| name_of_path(&n.path)).collect()
}

#[test]
fn a_scan_builds_the_tree_of_the_hierarchy() {
    let tree = scan_roots(&vec![research_root()]);
    assert_eq!(tree.roots.len(), 1);
    let root = &tree.roots[0];
    assert_eq!(root.node_type, NodeType::Other);
    assert_eq!(root.code, None);
    assert_eq!(root.title, "R");
    assert_eq!(root.path, "/R");
    assert_eq!(root.id, "ino:1:1");
    let range = &root.children[0];
    assert_eq!(range.node_type, NodeType::Range);
    assert_eq!(range.code, Some("30-39".to_string()));
    assert_eq!(range.title, "Research");
    assert_eq!(range.path, "/R/30-39_Research");
    let cat = &range.children[0];
    assert_eq!(cat.node_type, NodeType::Category);
    assert_eq!(cat.code, Some("30".to_string()));
    assert_eq!(cat.path, "/R/30-39_Research/30_Topic");
    assert_eq!(cat.id, "ino:1:3");
    assert_eq!(cat.children.len(), 2);
    let item = &cat.children[0];
    assert_eq!(item.node_type, NodeType::ItemDir);
    assert_eq!(item.code, Some("30.01".to_string()));
    assert_eq!(item.title, "ItemDir");
    assert_eq!(item.path, "/R/30-39_Research/30_Topic/30.01_ItemDir");
    let doc = &cat.children[1];
    assert_eq!(doc.node_type, NodeType::File);
    assert_eq!(doc.code, Some("30.02".to_string()));
    assert_eq!(doc.title, "Doc");
    assert_eq!(doc.path, "/R/30-39_Research/30_Topic/30.02_Doc.txt");
    assert_eq!(doc.id, "ino:1:5");
    assert_eq!(doc.location, None);
    assert_eq!(doc.url, None);
    assert!(doc.children.is_empty());
}

#[test]
fn a_second_scan_gives_the_same_tree() {
    let first = scan_roots(&vec![research_root()]);
    let second = scan_roots(&vec![research_root()]);
    assert_eq!(first, second);
}

#[test]
fn a_new_file_names_its_parent_as_its_location() {
    let tree = scan_roots(&vec![research_root()]);
    let cat = find_by_code(&tree, "30").unwrap();
    let step = create(&tree, NewKind::File, &cat.id, "30.05_Note.txt", None, None);
    assert_eq!(
        step,
        Ok(FsAction::WriteFile {
            path: "/R/30-39_Research/30_Topic/30.05_Note.txt".to_string(),
            content: "LOCATION=/R/30-39_Research/30_Topic\n".to_string(),
        })
    );
}

#[test]
fn children_come_in_the_order_of_their_names() {
    let root = dir(
        "/R",
        1,
        vec![
            dir("40-49_b", 2, vec![]),
            dir("10-19_a", 3, vec![]),
            dir("30_c", 4, vec![]),
            dir("10-19_A", 5, vec![]),
            dir("20.01_d", 6, vec![]),
            file("20.01_a.txt", 7, ""),
            file("10.01_z", 8, ""),
        ],
    );
    let node = scan_dir("/R", &root);
    assert_eq!(
        names(&node.children),
        vec!["10-19_A", "10-19_a", "10.01_z", "20.01_a.txt", "20.01_d", "30_c", "40-49_b"]
    );
    let mut sorted = names(&node.children);
    sorted.sort();
    assert_eq!(names(&node.children), sorted);
}

#[test]
fn entries_without_a_code_are_left_out_below_the_root() {
    let root = dir(
        "/R",
        1,
        vec![
            dir("notes", 2, vec![dir("30_Hidden", 3, vec![])]),
            file("readme.txt", 4, ""),
            file("30_Topic", 5, ""),
            file("30-39_Range", 6, ""),
            dir("30_Topic_Dir", 7, vec![file("plain.txt", 8, ""), file("30.01_kept.md", 9, "")]),
        ],
    );
    let node = scan_dir("/R", &root);
    assert_eq!(names(&node.children), vec!["30_Topic_Dir"]);
    assert_eq!(names(&node.children[0].children), vec!["30.01_kept.md"]);
}

#[test]
fn ignored_entries_are_left_out() {
    let root = dir(
        "/R",
        1,
        vec![
            dir(".git", 2, vec![dir("30_Topic", 3, vec![])]),
            dir("30_Topic", 4, vec![
                file("30.01_run.log", 5, ""),
                file("30.02_old.BAK", 6, ""),
                file("30.03_paper.aux", 7, ""),
                file("30.04_paper.pdf", 8, ""),
                dir("30.05_build.log", 9, vec![]),
            ]),
        ],
    );
    let node = scan_dir("/R", &root);
    assert_eq!(names(&node.children), vec!["30_Topic"]);
    assert_eq!(names(&node.children[0].children), vec!["30.04_paper.pdf", "30.05_build.log"]);
    let inside = scan_dir("/home/tmp/R", &dir("/home/tmp/R", 1, vec![dir("30_Topic", 2, vec![])]));
    assert!(inside.children.is_empty());
}

#[test]
fn a_root_that_is_a_file_or_has_no_name_is_a_node_without_children() {
    let f = scan_dir("/R/30.01_a.txt", &file("/R/30.01_a.txt", 1, "LOCATION=x"));
    assert_eq!(f.node_type, NodeType::ItemDir);
    assert_eq!(f.code, Some("30.01".to_string()));
    assert_eq!(f.location, None);
    assert!(f.children.is_empty());
    let slash = scan_dir("/", &dir("/", 1, vec![dir("30_Topic", 2, vec![])]));
    assert_eq!(slash.title, "/");
    assert_eq!(slash.node_type, NodeType::Other);
    assert_eq!(slash.children[0].path, "/30_Topic");
    let not_dir = RawEntry { is_dir: false, ..dir("/R", 1, vec![dir("30_T", 2, vec![])]) };
    assert!(scan_dir("/R", &not_dir).children.is_empty());
}

#[test]
fn files_and_links_are_told_apart_by_extension() {
    let webloc = "<plist version=\"1.0\"><dict><key>URL</key><string>https://a.example</string></dict></plist>";
    let cat = dir(
        "/R/30_Topic",
        1,
        vec![
            file("30.01_Site.webloc", 2, webloc),
            file("30.02_Short.url", 3, "[InternetShortcut]\nURL=https://b.example\n"),
            file("30.03_Note.txt", 4, "LOCATION= drawer 2 \nmore"),
            file("30.04_Upper.URL", 5, "URL=https://c.example"),
            file("30.05_Bare", 6, "LOCATION=x"),
            RawEntry { content: None, ..file("30.06_Unread.url", 7, "") },
        ],
    );
    let node = scan_dir("/R/30_Topic", &cat);
    let kinds: Vec<NodeType> = node.children.iter().map(|n| n.node_type).collect();
    assert_eq!(
        kinds,
        vec![NodeType::Link, NodeType::Link, NodeType::File, NodeType::File, NodeType::File, NodeType::Link]
    );
    assert_eq!(node.children[0].url, Some("https://a.example".to_string()));
    assert_eq!(node.children[0].location, None);
    assert_eq!(node.children[1].url, Some("https://b.example".to_string()));
    assert_eq!(node.children[2].location, Some("drawer 2".to_string()));
    assert_eq!(node.children[2].url, None);
    assert_eq!(node.children[3].location, None);
    assert_eq!(node.children[3].url, None);
    assert_eq!(node.children[4].location, Some("x".to_string()));
    assert_eq!(node.children[5].url, None);
}

#[test]
fn a_file_without_an_item_name_has_no_node() {
    assert!(scan_file("/R/notes.txt", &file("notes.txt", 1, "")).is_none());
    assert!(scan_file("/R/30_Topic", &file("30_Topic", 1, "")).is_none());
    let n = scan_file("/R/30.01_a_b.txt", &file("30.01_a_b.txt", 9, "")).unwrap();
    assert_eq!(n.title, "a b");
    assert_eq!(n.id, "ino:1:9");
}

#[test]
fn identities_without_metadata_are_digests() {
    let e = RawEntry {
        identity: IdentitySource::CanonicalPath("hello world".to_string()),
        ..dir("/R", 0, vec![])
    };
    assert_eq!(scan_dir("/R", &e).id, "sha1:2aae6c35c94fcfb415dbe95f408b9ce91ee846ed");
}

#[test]
fn the_shape_of_the_tree_does_not_depend_on_identities() {
    fn renumbered(e: &RawEntry, add: u64) -> RawEntry {
        RawEntry {
            name: e.name.clone(),
            is_dir: e.is_dir,
            identity: match &e.identity {
                IdentitySource::Inode { dev, ino } => IdentitySource::Inode { dev: *dev, ino: ino + add },
                other => other.clone(),
            },
            content: e.content.clone(),
            children: e.children.iter().map(|c| renumbered(c, add)).collect(),
        }
    }
    fn same_but_ids(a: &Node, b: &Node) -> bool {
        a.code == b.code
            && a.title == b.title
            && a.path == b.path
            && a.node_type == b.node_type
            && a.location == b.location
            && a.url == b.url
            && a.children.len() == b.children.len()
            && a.children.iter().zip(b.children.iter()).all(|(x, y)| same_but_ids(x, y))
    }
    let a = scan_roots(&vec![research_root()]);
    let b = scan_roots(&vec![renumbered(&research_root(), 100)]);
    assert!(same_but_ids(&a.roots[0], &b.roots[0]));
    assert_ne!(a.roots[0].id, b.roots[0].id);
}

#[test]
fn a_scan_keeps_siblings_with_one_code() {
    let cat = dir("/R/30_Topic", 1, vec![file("30.01_a.txt", 2, ""), dir("30.01_b", 3, vec![])]);
    let node = scan_dir("/R/30_Topic", &cat);
    assert_eq!(node.children.len(), 2);
    assert!(validate_unique_codes_among_siblings(&node.children).is_err());
}

#[test]
fn several_roots_give_several_trees() {
    let tree = scan_roots(&vec![dir("/B", 1, vec![]), dir("/A", 2, vec![])]);
    let paths: Vec<&str> = tree.roots.iter().map(|n| n.path.as_str()).collect();
    assert_eq!(paths, vec!["/B", "/A"]);
    assert_eq!(scan_roots(&vec![]), Tree { roots: vec![] });
}
