use ferroleaf::file_tree::{file_icon, should_show};
use ferroleaf::project::Project;
use ferroleaf::session::tab_label;
use ferroleaf::paths::{has_extension, path_extension};
use ferroleaf::text::{decimal_string, parse_u32, split_lines, trim_str};

#[test]
fn decimal_round_trip() {
    for n in [0u32, 7, 10, 99, 1234, 4294967295] {
        let s = decimal_string(n as u64);
        assert_eq!(s, n.to_string());
        assert_eq!(parse_u32(&s), Some(n));
    }
}

#[test]
fn parse_numbers() {
    assert_eq!(parse_u32("42"), Some(42));
    assert_eq!(parse_u32("007"), Some(7));
    assert_eq!(parse_u32(""), None);
    assert_eq!(parse_u32("4x"), None);
    assert_eq!(parse_u32("-1"), None);
    assert_eq!(parse_u32("4294967296"), None);
}

#[test]
fn lines_like_str_lines() {
    for s in ["a\nb", "a\r\nb\n", "", "\n", "x\n\ny", "tail\r"] {
        let mine = split_lines(s);
        let std: Vec<String> = s.lines().map(|l| l.to_string()).collect();
        assert_eq!(mine, std);
    }
}

#[test]
fn trimming() {
    assert_eq!(trim_str("  a b \t\n"), "a b");
    assert_eq!(trim_str("   "), "");
}

#[test]
fn extensions_like_std_path() {
    for p in ["a/b.tex", "a/.hidden", "x.tar.gz", "noext", "dir.d/file", "a/b.", "..", "/"] {
        let std = std::path::Path::new(p).extension().and_then(|e| e.to_str()).map(|e| e.to_string());
        assert_eq!(path_extension(p), std, "{}", p);
    }
    assert!(has_extension("/p/main.tex", "tex"));
    assert!(!has_extension("/p/main.TEX", "tex"));
}

#[test]
fn file_names_come_from_the_last_component() {
    assert_eq!(Project::new("/home/u/thesis".to_string(), None).name, "thesis");
    assert_eq!(Project::new("/".to_string(), None).name, "Untitled");
    assert_eq!(tab_label("/home/u/x.tex", false), "x.tex");
    assert_eq!(tab_label("/home/u/..", false), "?");
}

#[test]
fn lower_case_is_applied_before_comparing() {
    assert!(!should_show("/p/MAIN.AUX"));
    assert_eq!(file_icon("Refs.BIB"), "B");
    assert_eq!(file_icon("Ä.TEX"), "T");
}
