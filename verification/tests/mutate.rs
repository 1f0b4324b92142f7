use jd_helper::error::JdError;
use jd_helper::model::{Node, NodeType, Tree};
use jd_helper::mutate::{
    create, delete_node, move_node, name_on_arrival, rename, renamed, sanitize_title, FsAction,
    NewKind, TRASH_NAME, WEBLOC_HEAD, WEBLOC_TAIL,
};
use jd_helper::paths::{file_name, parent_dir};

fn n(id: &str, path: &str, code: Option<&str>, node_type: NodeType, children: Vec<Node>) -> Node {
    Node {
        id: id.into(),
        code: code.map(|c| c.to_string()),
        title: id.into(),
        path: path.into(),
        node_type,
        location: None,
        url: None,
        children,
    }
}

fn sample() -> Tree {
    Tree {
        roots: vec![
            n(
                "root",
                "/R",
                None,
                NodeType::Other,
                vec![
                    n(
                        "range3",
                        "/R/30-39_Research",
                        Some("30-39"),
                        NodeType::Range,
                        vec![n(
                            "cat30",
                            "/R/30-39_Research/30_Topic",
                            Some("30"),
                            NodeType::Category,
                            vec![
                                n("dir1", "/R/30-39_Research/30_Topic/30.01_ItemDir", Some("30.01"), NodeType::ItemDir, vec![]),
                                n("doc2", "/R/30-39_Research/30_Topic/30.02_My_Doc.tar.gz", Some("30.02"), NodeType::File, vec![]),
                                n("link3", "/R/30-39_Research/30_Topic/30.03_Link.url", Some("30.03"), NodeType::Link, vec![]),
                            ],
                        )],
                    ),
                    n(
                        "range4",
                        "/R/40-49_Admin",
                        Some("40-49"),
                        NodeType::Range,
                        vec![n(
                            "cat40",
                            "/R/40-49_Admin/40_Money",
                            Some("40"),
                            NodeType::Category,
                            vec![
                                n("a", "/R/40-49_Admin/40_Money/40.01_a", Some("40.01"), NodeType::ItemDir, vec![]),
                                n("c", "/R/40-49_Admin/40_Money/40.03_c.txt", Some("40.03"), NodeType::File, vec![]),
                            ],
                        )],
                    ),
                ],
            ),
            n(
                "other",
                "/S",
                None,
                NodeType::Other,
                vec![n("cat50", "/S/50_Else", Some("50"), NodeType::Category, vec![])],
            ),
        ],
    }
}

fn renamed_to(from: &str, to: &str) -> Result<FsAction, JdError> {
    Ok(FsAction::Rename { from: from.to_string(), to: to.to_string() })
}

#[test]
fn titles_are_made_fit_for_file_names() {
    assert_eq!(sanitize_title("  My new title \n"), "My_new_title");
    assert_eq!(sanitize_title("a/b c"), "ab_c");
    assert_eq!(sanitize_title("a  b"), "a__b");
    assert_eq!(sanitize_title("\u{a0}x\u{2003}"), "x");
    assert_eq!(sanitize_title("a\tb"), "a\tb");
    assert_eq!(sanitize_title(" / "), "");
    assert_eq!(sanitize_title(""), "");
}

#[test]
fn a_directory_is_created_below_its_parent() {
    assert_eq!(
        create(&sample(), NewKind::Dir, "cat30", "30.04_New", None, None),
        Ok(FsAction::CreateDir { path: "/R/30-39_Research/30_Topic/30.04_New".to_string() })
    );
}

#[test]
fn a_file_holds_its_location() {
    assert_eq!(
        create(&sample(), NewKind::File, "cat30", "30.05_Note.txt", None, Some("shelf 3")),
        Ok(FsAction::WriteFile {
            path: "/R/30-39_Research/30_Topic/30.05_Note.txt".to_string(),
            content: "LOCATION=shelf 3\n".to_string(),
        })
    );
    assert_eq!(
        create(&sample(), NewKind::File, "cat30", "30.05_Note.txt", Some("ignored"), None),
        Ok(FsAction::WriteFile {
            path: "/R/30-39_Research/30_Topic/30.05_Note.txt".to_string(),
            content: "LOCATION=/R/30-39_Research/30_Topic\n".to_string(),
        })
    );
}

#[test]
fn a_link_holds_its_address() {
    assert_eq!(
        create(&sample(), NewKind::Link, "cat30", "30.06_Link.url", Some("https://example.com"), None),
        Ok(FsAction::WriteFile {
            path: "/R/30-39_Research/30_Topic/30.06_Link.url".to_string(),
            content: "https://example.com".to_string(),
        })
    );
    for name in ["30.06_Site.webloc", "30.06_Site.WebLoc"] {
        let step = create(&sample(), NewKind::Link, "cat30", name, Some("https://example.com"), None);
        assert_eq!(
            step,
            Ok(FsAction::WriteFile {
                path: format!("/R/30-39_Research/30_Topic/{}", name),
                content: format!("{}https://example.com{}", WEBLOC_HEAD, WEBLOC_TAIL),
            })
        );
    }
    assert_eq!(
        format!("{}u{}", WEBLOC_HEAD, WEBLOC_TAIL),
        "<?xml version=\"1.0\" encoding=\"UTF-8\"?>\n<!DOCTYPE plist PUBLIC \"-//Apple//DTD PLIST 1.0//EN\" \"http://www.apple.com/DTDs/PropertyList-1.0.dtd\">\n<plist version=\"1.0\"><dict><key>URL</key><string>u</string></dict></plist>"
    );
}

#[test]
fn creating_fails_without_parent_or_address() {
    assert_eq!(create(&sample(), NewKind::Dir, "nobody", "x", None, None), Err(JdError::NotFound));
    assert_eq!(
        create(&sample(), NewKind::Link, "cat30", "30.06_Link.url", None, Some("loc")),
        Err(JdError::MissingRequiredInput)
    );
    assert_eq!(
        create(&sample(), NewKind::Link, "nobody", "30.06_Link.url", None, None),
        Err(JdError::NotFound)
    );
}

#[test]
fn a_new_title_keeps_code_and_extension() {
    assert_eq!(renamed("30.02_Note.txt", "Renamed"), "30.02_Renamed.txt");
    assert_eq!(renamed("30.02_My_Doc.tar.gz", "x"), "30.02_x.tar.gz");
    assert_eq!(renamed("30.01_ItemDir", "Box"), "30.01_Box");
    assert_eq!(renamed("30_Topic", "Other"), "30_Other");
    assert_eq!(renamed("30_Topic.d", "Other"), "30_Other");
    assert_eq!(renamed("30-39_Research", "Study"), "30-39_Study");
    assert_eq!(renamed("notes.txt", "plain"), "plain");
}

#[test]
fn renaming_plans_one_rename() {
    assert_eq!(
        rename(&sample(), "doc2", " New name/ "),
        renamed_to(
            "/R/30-39_Research/30_Topic/30.02_My_Doc.tar.gz",
            "/R/30-39_Research/30_Topic/30.02_New_name.tar.gz"
        )
    );
    assert_eq!(rename(&sample(), "cat30", "T"), renamed_to("/R/30-39_Research/30_Topic", "/R/30-39_Research/30_T"));
    assert_eq!(rename(&sample(), "root", "Q"), renamed_to("/R", "/Q"));
    assert_eq!(rename(&sample(), "nobody", "Q"), Err(JdError::NotFound));
    let odd = Tree { roots: vec![n("slash", "/", None, NodeType::Other, vec![])] };
    assert_eq!(rename(&odd, "slash", "Q"), Err(JdError::NotFound));
}

#[test]
fn an_item_moved_into_a_category_gets_the_next_free_code() {
    assert_eq!(
        move_node(&sample(), "doc2", "cat40"),
        renamed_to(
            "/R/30-39_Research/30_Topic/30.02_My_Doc.tar.gz",
            "/R/40-49_Admin/40_Money/40.02_My Doc.tar.gz"
        )
    );
    assert_eq!(
        move_node(&sample(), "dir1", "cat40"),
        renamed_to("/R/30-39_Research/30_Topic/30.01_ItemDir", "/R/40-49_Admin/40_Money/40.02_ItemDir")
    );
    assert_eq!(
        name_on_arrival(&sample(), "30.02_Note.txt", Some(&"40_Money".to_string())),
        Ok("40.02_Note.txt".to_string())
    );
    assert_eq!(
        name_on_arrival(&sample(), "30.02_Note.txt", Some(&"30_Topic".to_string())),
        Ok("30.04_Note.txt".to_string())
    );
}

#[test]
fn an_item_moved_into_an_item_directory_keeps_its_name() {
    assert_eq!(
        move_node(&sample(), "doc2", "dir1"),
        renamed_to(
            "/R/30-39_Research/30_Topic/30.02_My_Doc.tar.gz",
            "/R/30-39_Research/30_Topic/30.01_ItemDir/30.02_My_Doc.tar.gz"
        )
    );
    assert_eq!(
        move_node(&sample(), "doc2", "a"),
        renamed_to(
            "/R/30-39_Research/30_Topic/30.02_My_Doc.tar.gz",
            "/R/40-49_Admin/40_Money/40.01_a/30.02_My_Doc.tar.gz"
        )
    );
    assert_eq!(
        name_on_arrival(&sample(), "30.02_Note.txt", Some(&"40.01_a".to_string())),
        Ok("30.02_Note.txt".to_string())
    );
}

#[test]
fn other_moves_keep_the_name() {
    assert_eq!(
        move_node(&sample(), "cat30", "range4"),
        renamed_to("/R/30-39_Research/30_Topic", "/R/40-49_Admin/30_Topic")
    );
    assert_eq!(
        move_node(&sample(), "doc2", "range4"),
        renamed_to(
            "/R/30-39_Research/30_Topic/30.02_My_Doc.tar.gz",
            "/R/40-49_Admin/30.02_My_Doc.tar.gz"
        )
    );
    assert_eq!(
        move_node(&sample(), "cat30", "cat40"),
        renamed_to("/R/30-39_Research/30_Topic", "/R/40-49_Admin/40_Money/30_Topic")
    );
    assert_eq!(name_on_arrival(&sample(), "notes", None), Ok("notes".to_string()));
}

#[test]
fn a_move_fails_across_roots_or_without_its_nodes() {
    assert_eq!(move_node(&sample(), "doc2", "cat50"), Err(JdError::CrossRootViolation));
    assert_eq!(move_node(&sample(), "cat50", "cat30"), Err(JdError::CrossRootViolation));
    assert_eq!(move_node(&sample(), "nobody", "cat30"), Err(JdError::NotFound));
    assert_eq!(move_node(&sample(), "doc2", "nobody"), Err(JdError::NotFound));
}

#[test]
fn a_move_into_a_full_category_fails() {
    let mut items = Vec::new();
    for i in 1..=99 {
        let code = format!("40.{:02}", i);
        items.push(n(&format!("i{}", i), &format!("/R/40_Full/{}_x", code), Some(&code), NodeType::ItemDir, vec![]));
    }
    let tree = Tree {
        roots: vec![n(
            "root",
            "/R",
            None,
            NodeType::Other,
            vec![
                n("full", "/R/40_Full", Some("40"), NodeType::Category, items),
                n("doc", "/R/30.01_doc.txt", Some("30.01"), NodeType::File, vec![]),
            ],
        )],
    };
    assert_eq!(move_node(&tree, "doc", "full"), Err(JdError::ExhaustedCodeSpace));
}

#[test]
fn the_first_root_that_leads_to_a_path_counts() {
    let tree = Tree {
        roots: vec![
            n("outer", "/R", None, NodeType::Other, vec![n("c", "/R/30_a", Some("30"), NodeType::Category, vec![])]),
            n("inner", "/R/sub", None, NodeType::Other, vec![n("d", "/R/sub/40_b", Some("40"), NodeType::Category, vec![])]),
        ],
    };
    assert_eq!(move_node(&tree, "c", "inner"), renamed_to("/R/30_a", "/R/sub/30_a"));
}

#[test]
fn a_deleted_entry_goes_to_the_trash_beside_it() {
    let step = delete_node(&sample(), "link3");
    assert_eq!(
        step,
        Ok(FsAction::Trash {
            from: "/R/30-39_Research/30_Topic/30.03_Link.url".to_string(),
            trash_dir: "/R/30-39_Research/30_Topic/.jd_trash".to_string(),
            to: "/R/30-39_Research/30_Topic/.jd_trash/30.03_Link.url".to_string(),
        })
    );
    if let Ok(FsAction::Trash { from, trash_dir, to }) = step {
        assert_eq!(file_name(&to), file_name(&from));
        assert_eq!(parent_dir(&trash_dir), parent_dir(&from));
        assert_eq!(parent_dir(&to), Some(trash_dir.clone()));
        assert_eq!(file_name(&trash_dir), Some(TRASH_NAME.to_string()));
    }
    assert_eq!(
        delete_node(&sample(), "root"),
        Ok(FsAction::Trash {
            from: "/R".to_string(),
            trash_dir: "/.jd_trash".to_string(),
            to: "/.jd_trash/R".to_string(),
        })
    );
}

#[test]
fn deleting_fails_without_the_node() {
    assert_eq!(delete_node(&sample(), "nobody"), Err(JdError::NotFound));
    let odd = Tree { roots: vec![n("slash", "/", None, NodeType::Other, vec![])] };
    assert_eq!(delete_node(&odd, "slash"), Err(JdError::NotFound));
}

#[test]
fn every_error_has_a_message() {
    let all = [
        JdError::NotFound,
        JdError::DuplicateCode,
        JdError::ExhaustedCodeSpace,
        JdError::CrossRootViolation,
        JdError::MissingRequiredInput,
        JdError::IoFailure,
    ];
    for (i, e) in all.iter().enumerate() {
        assert!(!e.message().is_empty());
        for other in &all[i + 1..] {
            assert_ne!(e.message(), other.message());
        }
    }
    assert_eq!(JdError::CrossRootViolation.message(), "move across roots is not allowed");
}
