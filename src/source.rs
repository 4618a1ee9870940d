//! The source root of a run: the cleaned source path and the name under
//! which its files appear in the archive.
use vstd::prelude::*;
use crate::paths::{file_name, final_name};

verus! {

/// What lexical cleanup makes of a path: separators collapsed, `.` dropped,
/// `..` folded into the component before it.
pub uninterp spec fn cleaned(s: Seq<char>) -> Seq<char>;

/// Relies on `path_clean::clean`: the cleanup is lexical, so the result
/// depends on the text alone. The input is UTF-8, so the conversion back
/// loses nothing.
#[verifier::external_body]
fn clean_path(raw: &str) -> (r: String)
    ensures
        r@ == cleaned(raw@),
{
    path_clean::clean(raw).to_string_lossy().into_owned()
}

/// The name used for a root whose path has no final name (`/`, `.`, `..`).
pub open spec fn default_root_name() -> Seq<char> {
    "archive"@
}

/// The archive's top-level name for a cleaned root path.
pub open spec fn root_name_of(path: Seq<char>) -> Seq<char> {
    match file_name(path) {
        Some(n) => n,
        None => default_root_name(),
    }
}

/// The root of an archiving run.
pub struct SourceRoot {
    /// The cleaned source path; the walk starts here.
    pub path: String,
    /// The top-level name of every archive entry.
    pub name: String,
}

impl SourceRoot {
    /// Cleans `raw` and takes its final component as the root name, or the
    /// default name where it has none.
    pub fn new(raw: &str) -> (r: SourceRoot)
        ensures
            r.path@ == cleaned(raw@),
            r.name@ == root_name_of(cleaned(raw@)),
    {
        SourceRoot::from_clean(clean_path(raw))
    }

    /// A root for a path that is already clean: the name is its final
    /// component, or the default name where it has none.
    pub fn from_clean(path: String) -> (r: SourceRoot)
        ensures
            r.path@ == path@,
            r.name@ == root_name_of(path@),
    {
        let name = match final_name(path.as_str()) {
            Some(n) => n,
            None => String::from_str("archive"),
        };
        SourceRoot { path, name }
    }
}

/// The archive written when no output is given: the source's final name
/// with `.zip` added, in the current directory.
pub fn default_output(source: &str) -> (r: String)
    ensures
        r@ == match file_name(source@) {
            Some(n) => n,
            None => Seq::empty(),
        } + ".zip"@,
{
    let mut r = match final_name(source) {
        Some(n) => n,
        None => String::new(),
    };
    r.append(".zip");
    r
}

} // verus!
