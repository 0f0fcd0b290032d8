use depdiff::{parse_hunks, DiffLine, DiffParser, LineKind, LineRange, ParseError};

fn line(kind: LineKind, content: &str) -> DiffLine {
    DiffLine { kind, content: content.to_string() }
}

#[test]
fn one_hunk_with_all_kinds() {
    let hs = parse_hunks("@@ -1,2 +1,3 @@\n context\n-old\n+new1\n+new2\n").unwrap();
    assert_eq!(hs.len(), 1);
    assert_eq!(hs[0].source_range, LineRange { start: 1, count: 2 });
    assert_eq!(hs[0].target_range, LineRange { start: 1, count: 3 });
    assert_eq!(
        hs[0].lines,
        vec![
            line(LineKind::Context, "context"),
            line(LineKind::Removed, "old"),
            line(LineKind::Added, "new1"),
            line(LineKind::Added, "new2"),
        ]
    );
}

#[test]
fn empty_patch_has_no_hunks() {
    assert_eq!(parse_hunks("").unwrap(), vec![]);
}

#[test]
fn parsing_twice_gives_the_same_result() {
    let text = "@@ -3,2 +3,2 @@ fn f()\n a\n-b\n+c\n@@ -10 +10,0 @@\n-gone\n";
    let parser = DiffParser::new();
    let first = parser.parse_file_diff("f.py", text).unwrap();
    let second = parser.parse_file_diff("f.py", text).unwrap();
    assert_eq!(first, second);
    assert_eq!(first.filename, "f.py");
    assert_eq!(first.hunks.len(), 2);
}

#[test]
fn counts_reconcile_in_every_hunk() {
    let text = "@@ -1,3 +1,2 @@\n a\n-b\n c\n@@ -7,1 +6,2 @@\n d\n+e\n";
    let hs = parse_hunks(text).unwrap();
    for h in &hs {
        let ctx = h.lines.iter().filter(|l| l.kind == LineKind::Context).count() as u64;
        let add = h.lines.iter().filter(|l| l.kind == LineKind::Added).count() as u64;
        let rem = h.lines.iter().filter(|l| l.kind == LineKind::Removed).count() as u64;
        assert_eq!(ctx + rem, h.source_range.count);
        assert_eq!(ctx + add, h.target_range.count);
    }
}

#[test]
fn missing_count_defaults_to_one() {
    let hs = parse_hunks("@@ -5 +6 @@\n-x\n+y\n").unwrap();
    assert_eq!(hs[0].source_range, LineRange { start: 5, count: 1 });
    assert_eq!(hs[0].target_range, LineRange { start: 6, count: 1 });
}

#[test]
fn header_alone_gives_empty_hunk() {
    let hs = parse_hunks("@@ -0,0 +0,0 @@").unwrap();
    assert_eq!(hs.len(), 1);
    assert!(hs[0].lines.is_empty());
}

#[test]
fn no_newline_marker_is_passed_over() {
    let hs = parse_hunks("@@ -1 +1 @@\n-a\n\\ No newline at end of file\n+b\n").unwrap();
    assert_eq!(hs[0].lines, vec![line(LineKind::Removed, "a"), line(LineKind::Added, "b")]);
}

#[test]
fn count_mismatch_is_an_error() {
    let e = parse_hunks("@@ -1,2 +1,2 @@\n a\n").unwrap_err();
    assert_eq!(e, ParseError::HunkLineCountMismatch { hunk: 0, expected: 2, actual: 1 });
}

#[test]
fn target_count_mismatch_is_an_error() {
    let e = parse_hunks("@@ -1,1 +1,1 @@\n a\n@@ -4,1 +4,3 @@\n b\n+c\n").unwrap_err();
    assert_eq!(e, ParseError::HunkLineCountMismatch { hunk: 1, expected: 3, actual: 2 });
}

#[test]
fn unknown_marker_is_an_error() {
    let e = parse_hunks("@@ -1 +1 @@\n a\n*b\n").unwrap_err();
    assert_eq!(e, ParseError::UnexpectedMarker { marker: '*', line: 3 });
}

#[test]
fn bad_header_is_malformed() {
    let e = parse_hunks("@@ -x +1 @@\n").unwrap_err();
    assert_eq!(e, ParseError::Malformed { fragment: "@@ -x +1 @@".to_string(), line: 1 });
}

#[test]
fn content_before_any_header_is_malformed() {
    let e = parse_hunks("+a\n").unwrap_err();
    assert_eq!(e, ParseError::Malformed { fragment: "+a".to_string(), line: 1 });
}

#[test]
fn oversized_number_is_malformed() {
    let e = parse_hunks("@@ -1,99999999999999999999 +1 @@\n").unwrap_err();
    assert!(matches!(e, ParseError::Malformed { line: 1, .. }));
}

#[test]
fn largest_count_is_accepted_in_header() {
    let e = parse_hunks("@@ -1,18446744073709551615 +1,0 @@\n").unwrap_err();
    assert_eq!(
        e,
        ParseError::HunkLineCountMismatch { hunk: 0, expected: u64::MAX, actual: 0 }
    );
}
