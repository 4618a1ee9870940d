//! Archive building: what becomes of each walked entry, and the fault
//! policy of a run.
use vstd::prelude::*;
use crate::ignore::{is_ignored, should_ignore, IgnoreRuleSet, InvalidPattern};
use crate::paths::{archive_path, joined, relative_to};
use crate::source::SourceRoot;

verus! {

/// The kind of a walked filesystem node. Symbolic links are not followed,
/// so a link is `Other`.
#[derive(Clone, Copy, PartialEq, Eq, Debug, Structural)]
pub enum EntryKind {
    File,
    Directory,
    Other,
}

/// One step of a walk: a node with its path, or a node that could not be read.
pub enum WalkEvent {
    Entry { path: String, kind: EntryKind },
    AccessError { message: String },
}

/// The mathematical form of a walk step.
pub enum Visit {
    Entry { path: Seq<char>, kind: EntryKind },
    Failed,
}

impl View for WalkEvent {
    type V = Visit;

    open spec fn view(&self) -> Visit {
        match self {
            WalkEvent::Entry { path, kind } => Visit::Entry { path: path@, kind: *kind },
            WalkEvent::AccessError { .. } => Visit::Failed,
        }
    }
}

/// What to do with one walk step.
pub enum Action {
    /// Write the file's bytes under this archive path.
    Add { archive_path: String },
    /// A pattern excludes the entry.
    Ignore,
    /// Directories get no record of their own.
    SkipDirectory,
    /// Neither a regular file nor a directory: skipped with a warning.
    SkipOther,
    /// The entry is not under the source root: skipped with a warning.
    SkipOutsideRoot,
    /// The walk could not read this node: skipped with a warning.
    AccessFailed,
}

/// The mathematical form of an action.
pub enum Decision {
    Add(Seq<char>),
    Ignore,
    SkipDirectory,
    SkipOther,
    SkipOutsideRoot,
    AccessFailed,
}

impl View for Action {
    type V = Decision;

    open spec fn view(&self) -> Decision {
        match self {
            Action::Add { archive_path } => Decision::Add(archive_path@),
            Action::Ignore => Decision::Ignore,
            Action::SkipDirectory => Decision::SkipDirectory,
            Action::SkipOther => Decision::SkipOther,
            Action::SkipOutsideRoot => Decision::SkipOutsideRoot,
            Action::AccessFailed => Decision::AccessFailed,
        }
    }
}

/// What becomes of walk step `v` in a run rooted at `root` with top-level
/// name `name`: its archive path is computed first; an entry that the rules
/// exclude, by its walked path or by its archive path, is ignored; then a
/// file is added, a directory skipped silently and anything else skipped
/// with a warning.
pub open spec fn decision_of(
    root: Seq<char>,
    name: Seq<char>,
    rules: Seq<Seq<char>>,
    v: Visit,
) -> Decision {
    match v {
        Visit::Failed => Decision::AccessFailed,
        Visit::Entry { path, kind } => match relative_to(root, path) {
            None => Decision::SkipOutsideRoot,
            Some(rel) => {
                let target = joined(name, rel);
                if is_ignored(rules, path) || is_ignored(rules, target) {
                    Decision::Ignore
                } else {
                    match kind {
                        EntryKind::File => Decision::Add(target),
                        EntryKind::Directory => Decision::SkipDirectory,
                        EntryKind::Other => Decision::SkipOther,
                    }
                }
            },
        },
    }
}

/// Whether a decision is reported as a warning.
pub open spec fn is_warning(d: Decision) -> bool {
    d is SkipOther || d is SkipOutsideRoot || d is AccessFailed
}

/// The archive record that walk step `v` yields, if any.
pub open spec fn record_of(
    root: Seq<char>,
    name: Seq<char>,
    rules: Seq<Seq<char>>,
    v: Visit,
) -> Option<Seq<char>> {
    match decision_of(root, name, rules, v) {
        Decision::Add(target) => Some(target),
        _ => None,
    }
}

/// The records of a walk, in walk order, when every file is written.
pub open spec fn archive_names(
    root: Seq<char>,
    name: Seq<char>,
    rules: Seq<Seq<char>>,
    visits: Seq<Visit>,
) -> Seq<Seq<char>>
    decreases visits.len(),
{
    if visits.len() == 0 {
        Seq::empty()
    } else {
        let prev = archive_names(root, name, rules, visits.drop_last());
        match record_of(root, name, rules, visits.last()) {
            Some(target) => prev.push(target),
            None => prev,
        }
    }
}

/// Decides what to do with one walk step (see [`decision_of`]).
pub fn decide(root: &SourceRoot, rules: &IgnoreRuleSet, event: &WalkEvent) -> (r: Action)
    ensures
        r@ == decision_of(root.path@, root.name@, rules@, event@),
{
    match event {
        WalkEvent::AccessError { .. } => Action::AccessFailed,
        WalkEvent::Entry { path, kind } => {
            match archive_path(root.path.as_str(), root.name.as_str(), path.as_str()) {
                None => Action::SkipOutsideRoot,
                Some(target) => {
                    if should_ignore(path.as_str(), rules) || should_ignore(target.as_str(), rules) {
                        Action::Ignore
                    } else {
                        match kind {
                            EntryKind::File => Action::Add { archive_path: target },
                            EntryKind::Directory => Action::SkipDirectory,
                            EntryKind::Other => Action::SkipOther,
                        }
                    }
                },
            }
        },
    }
}

/// The two failures that end a run.
#[derive(Clone, Copy, PartialEq, Eq, Debug, Structural)]
pub enum FatalError {
    /// The source path does not exist; nothing was created.
    SourceMissing,
    /// The output archive could not be created.
    SinkCreation,
    /// The archive could not be sealed after all entries.
    Finalization,
}

/// The step at which writing one file failed; the file is abandoned and the
/// run goes on.
#[derive(Clone, Copy, PartialEq, Eq, Debug, Structural)]
pub enum WriteFailure {
    Open,
    Register,
    Copy,
}

/// A running archive build. It exists only while the run is running:
/// [`ArchiveRun::start`] enters that state, [`ArchiveRun::finish`] leaves it
/// as completed or aborted. Per-entry failures leave it running.
pub struct ArchiveRun {
    records: Vec<String>,
    warnings: Vec<String>,
}

impl ArchiveRun {
    /// The records written so far, in order.
    pub closed spec fn written(&self) -> Seq<Seq<char>> {
        self.records@.map_values(|s: String| s@)
    }

    /// The number of warnings so far.
    pub closed spec fn warned(&self) -> nat {
        self.warnings@.len()
    }

    /// Starts a run once the output has been opened; fails exactly when it
    /// could not be created.
    pub fn start(sink_created: bool) -> (r: Result<ArchiveRun, FatalError>)
        ensures
            r is Ok <==> sink_created,
            r matches Err(e) ==> e == FatalError::SinkCreation,
            r matches Ok(run) ==> run.written().len() == 0 && run.warned() == 0,
    {
        if sink_created {
            Ok(ArchiveRun { records: Vec::new(), warnings: Vec::new() })
        } else {
            Err(FatalError::SinkCreation)
        }
    }

    /// Decides on one walk step; warnings are counted, records untouched.
    pub fn visit(&mut self, root: &SourceRoot, rules: &IgnoreRuleSet, event: &WalkEvent) -> (r:
        Action)
        ensures
            r@ == decision_of(root.path@, root.name@, rules@, event@),
            final(self).written() == old(self).written(),
            final(self).warned() == old(self).warned() + if is_warning(r@) {
                1nat
            } else {
                0nat
            },
    {
        let action = decide(root, rules, event);
        match (&action, event) {
            (Action::SkipOther, WalkEvent::Entry { path, .. }) => {
                self.warnings.push(path.clone());
            },
            (Action::SkipOutsideRoot, WalkEvent::Entry { path, .. }) => {
                self.warnings.push(path.clone());
            },
            (Action::AccessFailed, WalkEvent::AccessError { message }) => {
                self.warnings.push(message.clone());
            },
            _ => {},
        }
        action
    }

    /// Records that a file's bytes went into the archive under `target`.
    pub fn file_written(&mut self, target: String)
        ensures
            final(self).written() == old(self).written().push(target@),
            final(self).warned() == old(self).warned(),
    {
        self.records.push(target);
        assert(self.written() =~= old(self).written().push(target@));
    }

    /// Records that writing a file failed at some step: a warning, and the
    /// run goes on without it.
    pub fn file_failed(&mut self, path: String, failure: WriteFailure)
        ensures
            final(self).written() == old(self).written(),
            final(self).warned() == old(self).warned() + 1,
    {
        self.warnings.push(path);
        assert(self.written() =~= old(self).written());
    }

    /// The records written so far.
    pub fn records(&self) -> (r: &Vec<String>)
        ensures
            r@.map_values(|s: String| s@) == self.written(),
    {
        &self.records
    }

    /// The number of warnings so far.
    pub fn warning_count(&self) -> (r: usize)
        ensures
            r == self.warned(),
    {
        self.warnings.len()
    }

    /// Ends the run: completed with its records when the archive was sealed,
    /// aborted otherwise.
    pub fn finish(self, finalized: bool) -> (r: Result<Vec<String>, FatalError>)
        ensures
            r is Ok <==> finalized,
            r matches Ok(v) ==> v@.map_values(|s: String| s@) == self.written(),
            r matches Err(e) ==> e == FatalError::Finalization,
    {
        if finalized {
            Ok(self.records)
        } else {
            Err(FatalError::Finalization)
        }
    }
}

/// The archive records of a walk when every file is written: the run's
/// decisions over the steps in order.
pub fn plan_archive(root: &SourceRoot, rules: &IgnoreRuleSet, events: &Vec<WalkEvent>) -> (r: Vec<
    String,
>)
    ensures
        r@.map_values(|s: String| s@) == archive_names(
            root.path@,
            root.name@,
            rules@,
            events@.map_values(|e: WalkEvent| e@),
        ),
{
    let ghost visits = events@.map_values(|e: WalkEvent| e@);
    let mut names: Vec<String> = Vec::new();
    let mut i: usize = 0;
    while i < events.len()
        invariant
            i <= events.len(),
            visits == events@.map_values(|e: WalkEvent| e@),
            names@.map_values(|s: String| s@) == archive_names(
                root.path@,
                root.name@,
                rules@,
                visits.take(i as int),
            ),
        decreases events.len() - i,
    {
        assert(visits.take(i + 1).drop_last() =~= visits.take(i as int));
        match decide(root, rules, &events[i]) {
            Action::Add { archive_path } => {
                names.push(archive_path);
            },
            _ => {},
        }
        i = i + 1;
        assert(names@.map_values(|s: String| s@) =~= archive_names(
            root.path@,
            root.name@,
            rules@,
            visits.take(i as int),
        ));
    }
    assert(visits.take(i as int) =~= visits);
    names
}

/// What a run starts from: its root and its rules, with the patterns that
/// did not compile.
pub struct RunSetup {
    pub root: SourceRoot,
    pub rules: IgnoreRuleSet,
    pub invalid: Vec<InvalidPattern>,
}

impl RunSetup {
    /// Prepares a run before anything is created: fails exactly when the
    /// source does not exist; otherwise cleans the source path and compiles
    /// the patterns, dropping the invalid ones.
    pub fn prepare(raw_source: &str, source_exists: bool, patterns: &Vec<String>) -> (r: Result<
        RunSetup,
        FatalError,
    >)
        ensures
            r is Ok <==> source_exists,
            r matches Err(e) ==> e == FatalError::SourceMissing,
            r matches Ok(s) ==> s.root.path@ == crate::source::cleaned(raw_source@)
                && s.root.name@ == crate::source::root_name_of(crate::source::cleaned(raw_source@))
                && s.rules@ == crate::ignore::valid_patterns(patterns@.map_values(|p: String| p@))
                && s.invalid@.map_values(|e: InvalidPattern| e.pattern@)
                == crate::ignore::invalid_patterns(patterns@.map_values(|p: String| p@)),
    {
        if !source_exists {
            return Err(FatalError::SourceMissing);
        }
        let root = SourceRoot::new(raw_source);
        let (rules, invalid) = IgnoreRuleSet::compile(patterns);
        Ok(RunSetup { root, rules, invalid })
    }
}

} // verus!
