use goose::bench::{changes_match, lines_of, strip_diff_header, DeveloperSearchReplace};

#[test]
fn evaluation_identity() {
    let e = DeveloperSearchReplace::new();
    assert_eq!(e.name(), "developer_search_replace");
    let r = e.required_extensions();
    assert_eq!(r.builtin, vec!["developer"]);
    assert!(r.external.is_empty());
    assert!(e.prompt().contains("FakeServiceReference"));
}

#[test]
fn lines_follow_str_lines() {
    for text in ["a\r\nb\n\nc\r", "", "\n", "x\n", "one\ntwo", "\r\n\r\n"] {
        let expected: Vec<String> = text.lines().map(|l| l.to_string()).collect();
        assert_eq!(lines_of(text), expected);
    }
}

#[test]
fn diff_header_is_dropped() {
    let diff = "diff --git a b\nindex 1..2\n--- a\n+++ b\n@@ -1 +1 @@\n-old\n+new\n";
    assert_eq!(strip_diff_header(diff), "@@ -1 +1 @@\n-old\n+new");
    assert_eq!(strip_diff_header("1\n2\n3\n4\n"), "");
    let other_header = "h1\nh2\nh3\nh4\r\n@@ -1 +1 @@\r\n-old\r\n+new\r\n";
    assert!(changes_match(diff, other_header));
    assert!(!changes_match(diff, "h1\nh2\nh3\nh4\n@@ -1 +1 @@\n-old\n+newer\n"));
}
