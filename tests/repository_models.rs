use ziper::models::{sort_branches, sort_tags, tag_short_name, BranchInfo, TagInfo};

fn branch(name: &str, head: bool) -> BranchInfo {
    BranchInfo::new(name.to_string(), head, None)
}

fn names(v: &[BranchInfo]) -> Vec<String> {
    v.iter().map(|b| b.name.clone()).collect()
}

#[test]
fn local_branches_head_first_then_by_name() {
    let v = vec![branch("zeta", false), branch("main", true), branch("alpha", false), branch("dev", false)];
    let sorted = sort_branches(v, true);
    assert_eq!(names(&sorted), vec!["main", "alpha", "dev", "zeta"]);
}

#[test]
fn remote_branches_by_name() {
    let v = vec![branch("origin/b", false), branch("origin/a", false), branch("upstream/a", false)];
    let sorted = sort_branches(v, false);
    assert_eq!(names(&sorted), vec!["origin/a", "origin/b", "upstream/a"]);
}

#[test]
fn names_sort_by_code_point_with_prefix_first() {
    let v = vec![branch("b", false), branch("B", false), branch("ab", false), branch("a", false)];
    let sorted = sort_branches(v, false);
    assert_eq!(names(&sorted), vec!["B", "a", "ab", "b"]);
}

#[test]
fn tags_by_name() {
    let v = vec![
        TagInfo::new("v2.0".to_string(), "c2".to_string(), None),
        TagInfo::new("v1.0".to_string(), "c1".to_string(), Some("first".to_string())),
        TagInfo::new("v1.10".to_string(), "c3".to_string(), None),
    ];
    let sorted = sort_tags(v);
    let n: Vec<String> = sorted.iter().map(|t| t.name.clone()).collect();
    assert_eq!(n, vec!["v1.0", "v1.10", "v2.0"]);
    assert_eq!(sorted[0].message, Some("first".to_string()));
}

#[test]
fn tag_names_lose_reference_prefix() {
    assert_eq!(tag_short_name("refs/tags/v1.0"), "v1.0");
    assert_eq!(tag_short_name("refs/tags/refs/tags/x"), "x");
    assert_eq!(tag_short_name("v3"), "v3");
    assert_eq!(tag_short_name("refs/heads/main"), "refs/heads/main");
}

#[test]
fn branch_display_texts() {
    let b = BranchInfo::new("dev".to_string(), false, Some("origin/dev".to_string()));
    assert_eq!(b.display_name(), "  dev");
    assert_eq!(b.display_upstream(), "origin/dev");
    assert_eq!(branch("x", false).display_upstream(), "-");
    let head = branch("main", true).display_name();
    assert!(head == "* main" || head == "\u{1b}[32m* main\u{1b}[0m");
}

#[test]
fn tag_display_texts() {
    let t = TagInfo::new(
        "v1".to_string(),
        "0123456789abcdef0123456789abcdef01234567".to_string(),
        None,
    );
    assert_eq!(t.display_name(false), "v1");
    let local = t.display_name(true);
    assert!(local == "v1" || local == "\u{1b}[32mv1\u{1b}[0m");
    let commit = t.display_commit();
    assert!(commit == "01234567" || commit == "\u{1b}[33m01234567\u{1b}[0m");
    assert_eq!(t.display_message(), "-");
    let m = TagInfo::new("v2".to_string(), "abcdef0123".to_string(), Some("release".to_string()));
    assert_eq!(m.display_message(), "release");
}
