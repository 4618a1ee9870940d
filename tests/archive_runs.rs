use ziper::archive::{
    decide, plan_archive, Action, ArchiveRun, EntryKind, FatalError, RunSetup, WalkEvent,
    WriteFailure,
};
use ziper::ignore::IgnoreRuleSet;
use ziper::source::SourceRoot;

fn entry(path: &str, kind: EntryKind) -> WalkEvent {
    WalkEvent::Entry { path: path.to_string(), kind }
}

fn rules(patterns: &[&str]) -> IgnoreRuleSet {
    let v: Vec<String> = patterns.iter().map(|p| p.to_string()).collect();
    IgnoreRuleSet::compile(&v).0
}

fn sorted(mut v: Vec<String>) -> Vec<String> {
    v.sort();
    v
}

fn dist_tree() -> Vec<WalkEvent> {
    vec![
        entry("dist", EntryKind::Directory),
        entry("dist/a.txt", EntryKind::File),
        entry("dist/node_modules", EntryKind::Directory),
        entry("dist/node_modules/lib.js", EntryKind::File),
        entry("dist/.git", EntryKind::Directory),
        entry("dist/.git/config", EntryKind::File),
    ]
}

#[test]
fn ignores_node_modules_and_git() {
    let root = SourceRoot::new("dist");
    let names = plan_archive(&root, &rules(&["node_modules", ".git"]), &dist_tree());
    assert_eq!(names, vec!["dist/a.txt".to_string()]);
}

#[test]
fn no_patterns_keep_every_file() {
    let root = SourceRoot::new("dist");
    let names = plan_archive(&root, &IgnoreRuleSet::empty(), &dist_tree());
    assert_eq!(
        names,
        vec![
            "dist/a.txt".to_string(),
            "dist/node_modules/lib.js".to_string(),
            "dist/.git/config".to_string(),
        ]
    );
}

#[test]
fn descendants_of_ignored_directory_are_absent() {
    let root = SourceRoot::new("proj");
    let events = vec![
        entry("proj", EntryKind::Directory),
        entry("proj/build", EntryKind::Directory),
        entry("proj/build/deep", EntryKind::Directory),
        entry("proj/build/deep/x.o", EntryKind::File),
        entry("proj/src/main.rs", EntryKind::File),
        entry("proj/out.zip", EntryKind::File),
    ];
    let names = plan_archive(&root, &rules(&["build", "*.zip"]), &events);
    assert_eq!(names, vec!["proj/src/main.rs".to_string()]);
}

#[test]
fn whole_path_pattern_excludes_file() {
    let root = SourceRoot::new("proj");
    let events = vec![
        entry("proj/docs/a.md", EntryKind::File),
        entry("proj/docs/b.txt", EntryKind::File),
    ];
    let names = plan_archive(&root, &rules(&["proj/docs/*.md"]), &events);
    assert_eq!(names, vec!["proj/docs/b.txt".to_string()]);
}

#[test]
fn two_walk_orders_give_same_names() {
    let root = SourceRoot::new("dist");
    let r = rules(&[".git"]);
    let mut reversed = dist_tree();
    reversed.reverse();
    let first = plan_archive(&root, &r, &dist_tree());
    let second = plan_archive(&root, &r, &reversed);
    assert_eq!(sorted(first), sorted(second));
}

#[test]
fn directories_only_give_no_records() {
    let root = SourceRoot::new("empty");
    let events = vec![
        entry("empty", EntryKind::Directory),
        entry("empty/a", EntryKind::Directory),
        entry("empty/a/b", EntryKind::Directory),
    ];
    assert!(plan_archive(&root, &IgnoreRuleSet::empty(), &events).is_empty());
}

#[test]
fn symlinks_and_access_errors_are_not_archived() {
    let root = SourceRoot::new("t");
    let events = vec![
        entry("t/link", EntryKind::Other),
        WalkEvent::AccessError { message: "permission denied".to_string() },
        entry("t/f", EntryKind::File),
    ];
    assert_eq!(plan_archive(&root, &IgnoreRuleSet::empty(), &events), vec!["t/f".to_string()]);
}

#[test]
fn missing_source_fails_before_output() {
    let r = RunSetup::prepare("does/not/exist", false, &vec!["*.tmp".to_string()]);
    assert!(matches!(r, Err(FatalError::SourceMissing)));
}

#[test]
fn existing_source_prepares_root_and_rules() {
    let r = RunSetup::prepare("./work//dist/", true, &vec!["[".to_string(), "*.tmp".to_string()]);
    let setup = match r {
        Ok(s) => s,
        Err(_) => panic!("setup failed"),
    };
    assert_eq!(setup.root.path, "work/dist");
    assert_eq!(setup.root.name, "dist");
    assert_eq!(setup.rules.len(), 1);
    assert_eq!(setup.invalid.len(), 1);
    assert_eq!(setup.invalid[0].pattern, "[");
}

#[test]
fn unreadable_file_is_skipped_with_warning() {
    let root = SourceRoot::new("data");
    let rules = IgnoreRuleSet::empty();
    let events = vec![
        entry("data", EntryKind::Directory),
        entry("data/one.txt", EntryKind::File),
        entry("data/secret.txt", EntryKind::File),
        entry("data/two.txt", EntryKind::File),
    ];
    let mut run = match ArchiveRun::start(true) {
        Ok(run) => run,
        Err(_) => panic!("start failed"),
    };
    for ev in &events {
        if let Action::Add { archive_path } = run.visit(&root, &rules, ev) {
            if archive_path == "data/secret.txt" {
                run.file_failed("data/secret.txt".to_string(), WriteFailure::Open);
            } else {
                run.file_written(archive_path);
            }
        }
    }
    assert_eq!(run.warning_count(), 1);
    let names = run.finish(true).ok().unwrap();
    assert_eq!(names, vec!["data/one.txt".to_string(), "data/two.txt".to_string()]);
}

#[test]
fn failed_record_or_copy_keeps_running() {
    let mut run = ArchiveRun::start(true).ok().unwrap();
    run.file_failed("a".to_string(), WriteFailure::Register);
    run.file_failed("b".to_string(), WriteFailure::Copy);
    run.file_written("x/c".to_string());
    assert_eq!(run.warning_count(), 2);
    assert_eq!(run.records(), &vec!["x/c".to_string()]);
}

#[test]
fn sink_creation_failure_aborts() {
    assert!(matches!(ArchiveRun::start(false), Err(FatalError::SinkCreation)));
}

#[test]
fn finalization_failure_aborts() {
    let run = ArchiveRun::start(true).ok().unwrap();
    assert!(matches!(run.finish(false), Err(FatalError::Finalization)));
}

#[test]
fn invalid_pattern_is_dropped_valid_one_applies() {
    let patterns = vec!["[".to_string(), "*.log".to_string()];
    let (set, invalid) = IgnoreRuleSet::compile(&patterns);
    assert_eq!(set.len(), 1);
    assert_eq!(invalid.len(), 1);
    assert_eq!(invalid[0].pattern, "[");
    let root = SourceRoot::new("logs");
    let events = vec![entry("logs/a.log", EntryKind::File), entry("logs/b.txt", EntryKind::File)];
    assert_eq!(plan_archive(&root, &set, &events), vec!["logs/b.txt".to_string()]);
}

#[test]
fn decide_classifies_each_kind() {
    let root = SourceRoot::new("r");
    let rules = rules(&["skip*"]);
    assert!(matches!(decide(&root, &rules, &entry("r", EntryKind::Directory)), Action::SkipDirectory));
    assert!(matches!(decide(&root, &rules, &entry("r/p", EntryKind::Other)), Action::SkipOther));
    assert!(matches!(decide(&root, &rules, &entry("r/skipme", EntryKind::File)), Action::Ignore));
    assert!(matches!(decide(&root, &rules, &entry("elsewhere/x", EntryKind::File)), Action::SkipOutsideRoot));
    assert!(matches!(
        decide(&root, &rules, &WalkEvent::AccessError { message: "gone".to_string() }),
        Action::AccessFailed
    ));
    match decide(&root, &rules, &entry("r/d/f.txt", EntryKind::File)) {
        Action::Add { archive_path } => assert_eq!(archive_path, "r/d/f.txt"),
        _ => panic!("expected a record"),
    }
}

#[test]
fn root_file_maps_to_root_name() {
    let root = SourceRoot::new("notes.txt");
    let names = plan_archive(&root, &IgnoreRuleSet::empty(), &vec![entry("notes.txt", EntryKind::File)]);
    assert_eq!(names, vec!["notes.txt".to_string()]);
}

#[test]
fn filesystem_root_uses_default_name() {
    let root = SourceRoot::new("/");
    assert_eq!(root.name, "archive");
    let names = plan_archive(&root, &IgnoreRuleSet::empty(), &vec![entry("/etc", EntryKind::File)]);
    assert_eq!(names, vec!["archive/etc".to_string()]);
}
