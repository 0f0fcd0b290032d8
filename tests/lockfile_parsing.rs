use depdiff::{parse_lockfile, Field, Package, ParseError};

fn pkg(name: &str, version: &str) -> Package {
    Package {
        name: name.to_string(),
        current_version: version.to_string(),
        latest_version: None,
        homepage: None,
    }
}

#[test]
fn two_entries_in_order() {
    let ps = parse_lockfile("foo==1.2.0\nbar==2.0.0\n").unwrap();
    assert_eq!(ps, vec![pkg("foo", "1.2.0"), pkg("bar", "2.0.0")]);
}

#[test]
fn entry_count_matches_declared_lines() {
    let ps = parse_lockfile("# pinned\na==1\n\nb==2\nc==3").unwrap();
    assert_eq!(ps.len(), 3);
    assert_eq!(ps[0].name, "a");
    assert_eq!(ps[1].name, "b");
    assert_eq!(ps[2].name, "c");
    for p in &ps {
        assert!(!p.name.is_empty());
        assert!(!p.current_version.is_empty());
    }
}

#[test]
fn empty_lockfile_has_no_packages() {
    assert_eq!(parse_lockfile("").unwrap(), vec![]);
}

#[test]
fn duplicates_are_kept() {
    let ps = parse_lockfile("x==1\nx==2\n").unwrap();
    assert_eq!(ps, vec![pkg("x", "1"), pkg("x", "2")]);
}

#[test]
fn version_split_at_first_separator() {
    let ps = parse_lockfile("x===1").unwrap();
    assert_eq!(ps, vec![pkg("x", "=1")]);
}

#[test]
fn line_without_separator_is_malformed() {
    let e = parse_lockfile("foo==1.0\nnot an entry\nbar==2.0").unwrap_err();
    assert_eq!(
        e,
        ParseError::Malformed { fragment: "not an entry".to_string(), line: 2 }
    );
}

#[test]
fn missing_name_is_reported() {
    let e = parse_lockfile("a==1\n==2\n").unwrap_err();
    assert_eq!(e, ParseError::MissingField { field: Field::Name, entry: 1 });
}

#[test]
fn missing_version_is_reported() {
    let e = parse_lockfile("a==\n").unwrap_err();
    assert_eq!(e, ParseError::MissingField { field: Field::Version, entry: 0 });
}

#[test]
fn first_error_wins() {
    let e = parse_lockfile("==1\nbad\n").unwrap_err();
    assert_eq!(e, ParseError::MissingField { field: Field::Name, entry: 0 });
}
