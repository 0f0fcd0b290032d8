use depdiff::{compare_url, owner_repo, Decision, Package, SkipReason, Tag, UpdateOrchestrator, WhichTag, GITHUB_API_REPOS};

fn package(current: &str, latest: Option<&str>) -> Package {
    Package {
        name: "pkg".to_string(),
        current_version: current.to_string(),
        latest_version: latest.map(|s| s.to_string()),
        homepage: None,
    }
}

fn tag(name: &str, sha: &str) -> Tag {
    Tag { name: name.to_string(), commit_sha: sha.to_string() }
}

#[test]
fn no_latest_version_is_skipped_whatever_the_tags() {
    let o = UpdateOrchestrator::new();
    let p = package("1.0", None);
    assert_eq!(o.decide(&p, &vec![]), Decision::Skip(SkipReason::NoLatestVersion));
    let tags = vec![tag("1.0", "aaa"), tag("2.0", "bbb")];
    assert_eq!(o.decide(&p, &tags), Decision::Skip(SkipReason::NoLatestVersion));
}

#[test]
fn same_version_is_already_latest() {
    let o = UpdateOrchestrator::new();
    let tags = vec![tag("1.0", "aaa")];
    assert_eq!(o.decide(&package("1.0", Some("1.0")), &tags), Decision::Skip(SkipReason::AlreadyLatest));
}

#[test]
fn compares_current_with_latest_commit() {
    let o = UpdateOrchestrator::new();
    let tags = vec![tag("2.0", "bbb"), tag("1.0", "aaa"), tag("2.0", "ccc")];
    let p = package("1.0", Some("2.0"));
    let d = o.decide(&p, &tags);
    assert_eq!(d, Decision::Compare { from: "aaa".to_string(), to: "bbb".to_string() });
    assert_eq!(o.decide(&p, &tags), d);
}

#[test]
fn missing_latest_tag_is_reported() {
    let o = UpdateOrchestrator::new();
    let tags = vec![tag("1.0", "aaa")];
    assert_eq!(
        o.decide(&package("1.0", Some("2.0")), &tags),
        Decision::Skip(SkipReason::TagNotFound { which: WhichTag::Latest })
    );
}

#[test]
fn missing_current_tag_is_reported() {
    let o = UpdateOrchestrator::new();
    let tags = vec![tag("2.0", "bbb")];
    assert_eq!(
        o.decide(&package("1.0", Some("2.0")), &tags),
        Decision::Skip(SkipReason::TagNotFound { which: WhichTag::Current })
    );
}

#[test]
fn owner_and_repo_from_homepage() {
    assert_eq!(
        owner_repo("https://github.com/psf/requests"),
        Some(("psf".to_string(), "requests".to_string()))
    );
    assert_eq!(
        owner_repo("https://github.com/psf/requests/tree/main"),
        Some(("psf".to_string(), "requests".to_string()))
    );
    assert_eq!(owner_repo("https://github.com/psf"), None);
    assert_eq!(owner_repo("https://github.com//requests"), None);
    assert_eq!(owner_repo("https://gitlab.com/psf/requests"), None);
}

#[test]
fn package_without_homepage_has_no_repo() {
    let mut p = package("1.0", None);
    assert_eq!(p.extract_owner_repo(), None);
    p.homepage = Some("https://github.com/a/b".to_string());
    assert_eq!(p.extract_owner_repo(), Some(("a".to_string(), "b".to_string())));
}

#[test]
fn compare_address() {
    assert_eq!(
        compare_url(GITHUB_API_REPOS, "psf", "requests", "aaa", "bbb"),
        "https://api.github.com/repos/psf/requests/compare/aaa...bbb"
    );
}

#[test]
fn first_github_address_is_picked() {
    let urls = vec![
        "https://docs.example.org".to_string(),
        "https://github.com/a/b".to_string(),
        "https://github.com/c/d".to_string(),
    ];
    assert_eq!(depdiff::pick_repository_url(&urls), Some(1));
    assert_eq!(depdiff::pick_repository_url(&vec!["x".to_string()]), None);
}
