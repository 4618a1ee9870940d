//! Command-line values of the two tools, as plain data, and the choices
//! made from them.
use vstd::prelude::*;

verus! {

/// The repository tool's arguments.
pub struct Cli {
    /// The command to run.
    pub command: Commands,
    /// The repository directory; the current directory when absent.
    pub project: Option<String>,
    /// An HTTP proxy for reaching remotes.
    pub proxy: Option<String>,
}

/// The repository tool's commands.
pub enum Commands {
    /// Branches, as a table or a list, local and/or remote.
    Branch { list: bool, table: bool, local: bool, remote: bool },
    /// Tags, as a table or a list.
    Tag { list: bool, table: bool },
}

impl Cli {
    /// The repository directory: the one given, else `current_dir`, else `.`.
    pub fn get_repo_path(&self, current_dir: Option<String>) -> (r: String)
        ensures
            r@ == match self.project {
                Some(p) => p@,
                None => match current_dir {
                    Some(d) => d@,
                    None => "."@,
                },
            },
    {
        match &self.project {
            Some(p) => p.clone(),
            None => match current_dir {
                Some(d) => d,
                None => String::from_str("."),
            },
        }
    }
}

/// Which branch sections to show: `(local, remote)`. Asking for local
/// branches only hides the remote ones, and the other way round.
pub fn shown_sections(local_only: bool, remote_only: bool) -> (r: (bool, bool))
    ensures
        r == (!remote_only, !local_only),
{
    (!remote_only, !local_only)
}

/// How much a run reports.
#[derive(Clone, Copy, PartialEq, Eq, Debug, Structural)]
pub enum LogLevel {
    /// Errors only.
    Error,
    /// Progress lines and warnings.
    Info,
    /// Everything.
    Debug,
}

/// Quiet mode reports errors only and wins over verbose mode, which reports
/// everything; the default is progress and warnings.
pub fn log_level(quiet: bool, verbose: bool) -> (r: LogLevel)
    ensures
        quiet ==> r == LogLevel::Error,
        !quiet && verbose ==> r == LogLevel::Debug,
        !quiet && !verbose ==> r == LogLevel::Info,
{
    if quiet {
        LogLevel::Error
    } else if verbose {
        LogLevel::Debug
    } else {
        LogLevel::Info
    }
}

} // verus!
