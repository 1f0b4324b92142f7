use jd_helper::ignore::{
    file_name_lower, is_ignored_dir_lower, is_ignored_dir_name, is_ignored_file_lower,
    is_ignored_file_name, is_ignored_path,
};

#[test]
fn ignored_directory_names() {
    for name in [".git", ".obsidian", ".auctex-auto", "tmp", "temp", "cache", ".cache", ".tmp", "logs"] {
        assert!(is_ignored_dir_name(name), "{}", name);
        assert!(is_ignored_dir_lower(name), "{}", name);
    }
    assert!(is_ignored_dir_name(".GIT"));
    assert!(is_ignored_dir_name("Temp"));
    assert!(is_ignored_dir_name("LOGS"));
    assert!(!is_ignored_dir_lower("LOGS"));
    assert!(!is_ignored_dir_name("git"));
    assert!(!is_ignored_dir_name("30_Topic"));
    assert!(!is_ignored_dir_name("tmpx"));
    assert!(!is_ignored_dir_name(""));
}

#[test]
fn ignored_file_names() {
    for name in [
        ".DS_Store", "run.log", "logs", "a.bak", "a.backup", "a.old", "t.aux", "t.bbl", "t.bcf",
        "t.blg", "t.fdb_latexmk", "t.fls", "t.synctex.gz", "t.synctex", "t.toc", "t.out", "t.lof",
        "t.lot", "t.nav", "t.snm", "t.vrb", "t.dvi", "t.idx", "t.ilg", "t.ind", "t.xdv", "T.AUX",
        ".log",
    ] {
        assert!(is_ignored_file_name(name), "{}", name);
    }
    for name in ["t.pdf", "t.tex", "30.02_Doc.txt", "log", "a.logs", "aux", ".ds_store.txt", ""] {
        assert!(!is_ignored_file_name(name), "{}", name);
    }
    assert!(is_ignored_file_lower(".ds_store"));
    assert!(!is_ignored_file_lower(".DS_Store"));
}

#[test]
fn a_path_through_an_ignored_directory_is_ignored() {
    assert!(is_ignored_path("/r/.git/config", false));
    assert!(is_ignored_path("/r/.git", true));
    assert!(is_ignored_path("/r/Temp/30.01_a.txt", false));
    assert!(is_ignored_path("/r/cache/30_Topic", true));
    assert!(is_ignored_path("/r/logs", false));
    assert!(!is_ignored_path("/r/30_Topic/30.01_a.txt", false));
    assert!(!is_ignored_path("/r/30_Topic", true));
}

#[test]
fn the_own_name_decides_by_the_kind_of_entry() {
    assert!(is_ignored_path("/r/30_Topic/notes.log", false));
    assert!(!is_ignored_path("/r/30_Topic/notes.log", true));
    assert!(is_ignored_path("/r/.DS_Store", false));
    assert!(!is_ignored_path("/", true));
    assert!(!is_ignored_path("", false));
    assert!(!is_ignored_path("/r/..", true));
}

#[test]
fn file_name_in_lower_case() {
    assert_eq!(file_name_lower("/r/30_Topic/Notes.TXT"), "notes.txt");
    assert_eq!(file_name_lower("/"), "");
}
