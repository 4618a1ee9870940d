use ziper::ignore::{should_ignore, IgnoreRule, IgnoreRuleSet};
use ziper::paths::{archive_path, final_name, path_components, same_text};
use ziper::source::{default_output, SourceRoot};

fn strings(v: &[&str]) -> Vec<String> {
    v.iter().map(|s| s.to_string()).collect()
}

#[test]
fn components_collapse_separators_and_dots() {
    assert_eq!(path_components("a//b/./c/"), strings(&["a", "b", "c"]));
    assert_eq!(path_components("/x/../y"), strings(&["/", "x", "..", "y"]));
    assert_eq!(path_components("./a"), strings(&[".", "a"]));
    assert_eq!(path_components("."), strings(&["."]));
    assert_eq!(path_components("//"), strings(&["/"]));
    assert!(path_components("").is_empty());
}

#[test]
fn final_name_of_paths() {
    assert_eq!(final_name("a/b.txt"), Some("b.txt".to_string()));
    assert_eq!(final_name("a/b/"), Some("b".to_string()));
    assert_eq!(final_name("a/.."), None);
    assert_eq!(final_name("/"), None);
    assert_eq!(final_name("."), None);
}

#[test]
fn source_root_is_cleaned() {
    let r = SourceRoot::new("a//b/../c/.");
    assert_eq!(r.path, "a/c");
    assert_eq!(r.name, "c");
    let dot = SourceRoot::new(".");
    assert_eq!(dot.path, ".");
    assert_eq!(dot.name, "archive");
    let up = SourceRoot::new("/../x");
    assert_eq!(up.path, "/x");
    let empty = SourceRoot::new("");
    assert_eq!(empty.path, ".");
}

#[test]
fn archive_paths_under_root_name() {
    assert_eq!(archive_path("dist", "dist", "dist"), Some("dist".to_string()));
    assert_eq!(archive_path("a/dist", "dist", "a/dist/x/y.txt"), Some("dist/x/y.txt".to_string()));
    assert_eq!(archive_path("/", "archive", "/etc/hosts"), Some("archive/etc/hosts".to_string()));
    assert_eq!(archive_path(".", "archive", "./f"), Some("archive/f".to_string()));
    assert_eq!(archive_path("dist", "dist", "distx/y"), None);
    assert_eq!(archive_path("dist", "dist", "other"), None);
}

#[test]
fn default_output_adds_zip() {
    assert_eq!(default_output("some/dir"), "dir.zip");
    assert_eq!(default_output("dist/"), "dist.zip");
    assert_eq!(default_output("/"), ".zip");
}

#[test]
fn glob_rules_match_paths_and_components() {
    let set = IgnoreRuleSet::compile(&strings(&["node_modules", "*.zip"])).0;
    assert!(should_ignore("web/node_modules/x/y.js", &set));
    assert!(should_ignore("web/out.zip", &set));
    assert!(!should_ignore("web/src/app.js", &set));
    assert!(!should_ignore("web/node_modules_old/a", &set));
    let whole = IgnoreRuleSet::compile(&strings(&["a/*/c"])).0;
    assert!(should_ignore("a/b/c", &whole));
    assert!(!should_ignore("x/a/b/c", &whole));
}

#[test]
fn single_rule_compiles_and_matches() {
    let rule = match IgnoreRule::new("c?t") {
        Ok(r) => r,
        Err(_) => panic!("pattern should compile"),
    };
    assert_eq!(rule.as_str(), "c?t");
    assert!(rule.matches("cat"));
    assert!(!rule.matches("cart"));
    assert!(IgnoreRule::new("a**b").is_err());
    assert!(IgnoreRule::new("[unclosed").is_err());
}

#[test]
fn empty_rule_set_ignores_nothing() {
    let set = IgnoreRuleSet::empty();
    assert_eq!(set.len(), 0);
    assert!(!should_ignore("anything/at/all", &set));
}

#[test]
fn same_text_compares() {
    assert!(same_text("abc", "abc"));
    assert!(!same_text("abc", "abd"));
    assert!(!same_text("ab", "abc"));
}

#[test]
fn clean_root_names() {
    assert_eq!(SourceRoot::from_clean("a/b".to_string()).name, "b");
    assert_eq!(SourceRoot::from_clean("..".to_string()).name, "archive");
    assert_eq!(SourceRoot::from_clean("../x".to_string()).name, "x");
}
