use jd_helper::content::{
    find_marker, parse_location_from_file, parse_url_file, parse_webloc_url, url_from_text,
};
use jd_helper::mutate::{WEBLOC_HEAD, WEBLOC_TAIL};

fn s(x: &str) -> Option<String> {
    Some(x.to_string())
}

fn bytes(x: &str) -> Vec<u8> {
    x.as_bytes().to_vec()
}

#[test]
fn a_marker_is_found_at_the_start_of_a_line() {
    assert_eq!(find_marker("LOCATION=shelf 3\n", "LOCATION="), s("shelf 3"));
    assert_eq!(find_marker("a\nLOCATION=  shelf 3 \t\nb", "LOCATION="), s("shelf 3"));
    assert_eq!(find_marker("a\r\nLOCATION=x\r\nLOCATION=y", "LOCATION="), s("x"));
    assert_eq!(find_marker("LOCATION=", "LOCATION="), s(""));
    assert_eq!(find_marker("LOCATION=\n", "LOCATION="), s(""));
    assert_eq!(find_marker("last\nLOCATION=end", "LOCATION="), s("end"));
}

#[test]
fn a_marker_elsewhere_in_a_line_does_not_count() {
    assert_eq!(find_marker(" LOCATION=x", "LOCATION="), None);
    assert_eq!(find_marker("xLOCATION=x\nlocation=y", "LOCATION="), None);
    assert_eq!(find_marker("LOCATION", "LOCATION="), None);
    assert_eq!(find_marker("", "LOCATION="), None);
    assert_eq!(find_marker("LOCA\nTION=x", "LOCATION="), None);
}

#[test]
fn markers_agree_with_line_splitting() {
    let texts = [
        "", "\n", "URL=a", "URL=a\n", "x\nURL= a b \r\ny", "URL=\r", "URL=\r\n", "\r\nURL=q",
        "x\rURL=a", "URL=a\rb", "URL=1\nURL=2", "\n\nURL=\u{a0}z\u{2003}\n", "URL",
    ];
    for t in texts {
        let mut want = None;
        for line in t.lines() {
            if let Some(rest) = line.strip_prefix("URL=") {
                want = Some(rest.trim().to_string());
                break;
            }
        }
        assert_eq!(find_marker(t, "URL="), want, "in {:?}", t);
    }
}

#[test]
fn the_location_of_a_file() {
    assert_eq!(parse_location_from_file(Some(&bytes("LOCATION=/R/30_Topic\n"))), s("/R/30_Topic"));
    assert_eq!(parse_location_from_file(Some(&bytes("hello"))), None);
    assert_eq!(parse_location_from_file(Some(&vec![0xff, 0xfe, b'L'])), None);
    assert_eq!(parse_location_from_file(None), None);
}

#[test]
fn the_url_of_a_shortcut_file() {
    let ini = "[InternetShortcut]\nURL=https://example.com/a \n";
    assert_eq!(parse_url_file(Some(&bytes(ini))), s("https://example.com/a"));
    assert_eq!(url_from_text(ini), s("https://example.com/a"));
    assert_eq!(parse_url_file(Some(&bytes("https://example.com"))), s("https://example.com"));
    assert_eq!(
        parse_url_file(Some(&bytes("see HTTP://Example.com/x?y=1 and more"))),
        s("HTTP://Example.com/x?y=1")
    );
    assert_eq!(parse_url_file(Some(&bytes("open obsidian://vault/note now"))), s("obsidian://vault/note"));
    assert_eq!(parse_url_file(Some(&bytes("file:///tmp/x"))), s("file:///tmp/x"));
    assert_eq!(parse_url_file(Some(&bytes("nothing here"))), None);
    assert_eq!(parse_url_file(Some(&vec![0xc0])), None);
    assert_eq!(parse_url_file(None), None);
}

#[test]
fn the_url_of_a_bookmark_file() {
    let doc = format!("{}{}{}", WEBLOC_HEAD, "https://example.com/page", WEBLOC_TAIL);
    assert_eq!(parse_webloc_url(Some(&bytes(&doc))), s("https://example.com/page"));
    let other = "<?xml version=\"1.0\" encoding=\"UTF-8\"?>\n<plist version=\"1.0\"><dict><key>URLString</key><string>https://b.example</string></dict></plist>";
    assert_eq!(parse_webloc_url(Some(&bytes(other))), s("https://b.example"));
    let both = "<plist version=\"1.0\"><dict><key>URLString</key><string>second</string><key>URL</key><string>first</string></dict></plist>";
    assert_eq!(parse_webloc_url(Some(&bytes(both))), s("first"));
    let number = "<plist version=\"1.0\"><dict><key>URL</key><integer>3</integer></dict></plist>";
    assert_eq!(parse_webloc_url(Some(&bytes(number))), None);
    let list = "<plist version=\"1.0\"><array><string>https://a.example</string></array></plist>";
    assert_eq!(parse_webloc_url(Some(&bytes(list))), None);
    assert_eq!(parse_webloc_url(Some(&bytes("https://example.com"))), None);
    assert_eq!(parse_webloc_url(None), None);
}
