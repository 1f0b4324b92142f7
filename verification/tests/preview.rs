use jd_helper::preview::{
    parse_datetime_prefix, preview_dir, preview_file, preview_link, PreviewEntry,
};

fn f(name: &str) -> PreviewEntry {
    PreviewEntry { name: name.to_string(), is_file: true, is_dir: false }
}

fn d(name: &str) -> PreviewEntry {
    PreviewEntry { name: name.to_string(), is_file: false, is_dir: true }
}

#[test]
fn a_name_may_begin_with_date_and_time() {
    assert_eq!(parse_datetime_prefix("202401151230_meeting.md"), Some(202401151230));
    assert_eq!(parse_datetime_prefix("202401151230"), Some(202401151230));
    assert_eq!(parse_datetime_prefix("000000000001x"), Some(1));
    assert_eq!(parse_datetime_prefix("9999999999999"), Some(999999999999));
    assert_eq!(parse_datetime_prefix("20240115123"), None);
    assert_eq!(parse_datetime_prefix("20240115_1230"), None);
    assert_eq!(parse_datetime_prefix("x202401151230"), None);
    assert_eq!(parse_datetime_prefix(""), None);
    assert_eq!(parse_datetime_prefix("\u{661}\u{662}\u{663}\u{664}\u{665}\u{666}\u{667}\u{668}\u{669}\u{660}\u{661}\u{662}"), None);
}

#[test]
fn dated_files_come_first_the_newest_first() {
    let entries = vec![
        f("notes.txt"),
        f("202401010900_a.md"),
        d("30_Topic"),
        f("202403010900_c.md"),
        f("202401010900_A.md"),
        d("202402010900_dir"),
        f("Zebra"),
        f("202402010900_b.md"),
    ];
    assert_eq!(
        preview_dir("/R/x", &entries),
        "dir: /R/x\n\n202403010900_c.md\n202402010900_b.md\n202401010900_A.md\n202401010900_a.md\n202402010900_dir\n30_Topic\nZebra\nnotes.txt\n"
    );
}

#[test]
fn ignored_entries_are_not_listed() {
    let entries = vec![f("a.log"), d(".git"), f("b.txt"), d("tmp"), f(".DS_Store"), d("a.log")];
    assert_eq!(preview_dir("/R", &entries), "dir: /R\n\na.log\nb.txt\n");
    assert_eq!(preview_dir("/R/cache", &vec![f("b.txt")]), "dir: /R/cache\n\n");
    assert_eq!(preview_dir("/R", &vec![]), "dir: /R\n\n");
}

#[test]
fn a_listing_shows_fifty_entries_at_most() {
    let mut entries = Vec::new();
    for i in 0..70 {
        entries.push(f(&format!("n{:02}", 69 - i)));
    }
    entries.push(f("202401010900_x"));
    let text = preview_dir("/R", &entries);
    let lines: Vec<&str> = text.lines().collect();
    assert_eq!(lines.len(), 52);
    assert_eq!(lines[2], "202401010900_x");
    assert_eq!(lines[3], "n00");
    assert_eq!(lines[51], "n48");
    let mut dated = Vec::new();
    for i in 0..60 {
        dated.push(f(&format!("2024010109{:02}_x", i)));
    }
    dated.push(f("plain"));
    let text = preview_dir("/R", &dated);
    let lines: Vec<&str> = text.lines().collect();
    assert_eq!(lines.len(), 52);
    assert_eq!(lines[2], "202401010959_x");
    assert_eq!(lines[51], "202401010910_x");
}

#[test]
fn the_head_of_a_file() {
    assert_eq!(preview_file(""), "");
    assert_eq!(preview_file("one"), "one");
    assert_eq!(preview_file("one\ntwo\n"), "one\ntwo");
    assert_eq!(preview_file("one\r\ntwo\r\n\r\n"), "one\ntwo\n");
    assert_eq!(preview_file("\n"), "");
    assert_eq!(preview_file("\n\n"), "\n");
    assert_eq!(preview_file("a\rb\r"), "a\rb\r");
    let mut long = String::new();
    for i in 0..300 {
        long.push_str(&format!("line {}\n", i));
    }
    let head = preview_file(&long);
    assert_eq!(head.lines().count(), 200);
    assert!(head.ends_with("line 199"));
}

#[test]
fn the_head_agrees_with_line_splitting() {
    let texts = [
        "", "a", "a\n", "\n", "\n\n", "a\n\nb", "a\r\nb", "a\r\n", "\r\n", "\r", "a\r", "x\n\r\ny",
        "\r\r\n", "a\nb\nc", "a\n\n",
    ];
    for t in texts {
        let want = t.lines().take(200).collect::<Vec<_>>().join("\n");
        assert_eq!(preview_file(t), want, "for {:?}", t);
    }
}

#[test]
fn the_preview_of_a_link_file() {
    assert_eq!(
        preview_link("/R/30.01_a.url", Some("URL=https://example.com\n")),
        "link file: /R/30.01_a.url\n\nURL=https://example.com\n"
    );
    assert_eq!(preview_link("/R/30.01_a.url", None), "link file: /R/30.01_a.url\n\n");
}
