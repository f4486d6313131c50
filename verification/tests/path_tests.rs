use http_server::path::{file_name, join, starts_with, trim_end_slashes};

#[test]
fn join_relative_adds_separator() {
    assert_eq!(join("/srv/www", "docs"), "/srv/www/docs");
    assert_eq!(join("/srv/www/", "docs"), "/srv/www/docs");
    assert_eq!(join("", "docs"), "docs");
    assert_eq!(join("/", "docs"), "/docs");
    assert_eq!(join("/srv", ""), "/srv/");
}

#[test]
fn join_absolute_replaces_base() {
    assert_eq!(join("/srv/www", "/etc/passwd"), "/etc/passwd");
}

#[test]
fn starts_with_whole_components_only() {
    assert!(starts_with("/home/a/b", "/home/a"));
    assert!(!starts_with("/home/ab", "/home/a"));
    assert!(starts_with("/home/a/", "/home/a"));
    assert!(starts_with("/home//a/./b", "/home/a"));
    assert!(!starts_with("home/a", "/home"));
    assert!(starts_with("/anything", ""));
    assert!(!starts_with("/home", "/home/a"));
    assert!(starts_with("./x", "."));
    assert!(!starts_with("x", "."));
}

#[test]
fn starts_with_is_reflexive() {
    for p in ["", "/", "/a/b", "./c/../d", "e//f/"] {
        assert!(starts_with(p, p));
    }
}

#[test]
fn join_starts_with_base() {
    for (b, r) in [("/srv", "x/y"), ("", "./z"), (".", "q"), ("/a/", "../b"), ("/", "")] {
        assert!(starts_with(&join(b, r), b));
    }
}

#[test]
fn file_name_of_paths() {
    assert_eq!(file_name("/srv/www/docs"), Some("docs".to_string()));
    assert_eq!(file_name("foo.txt/."), Some("foo.txt".to_string()));
    assert_eq!(file_name("foo.txt/.//"), Some("foo.txt".to_string()));
    assert_eq!(file_name("foo.txt/.."), None);
    assert_eq!(file_name("/"), None);
    assert_eq!(file_name("."), None);
    assert_eq!(file_name(""), None);
}

#[test]
fn file_name_of_join_is_the_name() {
    for b in ["", "/", "/srv", "a/b/"] {
        assert_eq!(file_name(&join(b, "report.pdf")), Some("report.pdf".to_string()));
    }
}

#[test]
fn trim_end_slashes_drops_all_trailing_slashes() {
    assert_eq!(trim_end_slashes("a/b//"), "a/b");
    assert_eq!(trim_end_slashes("///"), "");
    assert_eq!(trim_end_slashes("a/b"), "a/b");
    assert_eq!(trim_end_slashes(""), "");
}

#[test]
fn starts_with_is_transitive() {
    let (a, b, c) = ("/srv/www/docs/x", "/srv/www/docs", "/srv");
    assert!(starts_with(a, b) && starts_with(b, c) && starts_with(a, c));
}

#[test]
fn trimmed_path_has_no_trailing_slash() {
    for s in ["a//", "/", "a/b/", "", "x"] {
        let t = trim_end_slashes(s);
        assert!(!t.ends_with('/'));
        assert!(s.starts_with(t.as_str()));
        assert!(s[t.len()..].chars().all(|c| c == '/'));
    }
}
