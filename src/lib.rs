//! Recursive file search by name fragment: the filters that decide which
//! entries of a directory walk belong in the result.
use vstd::prelude::*;

pub mod entry;
pub mod file_searcher;
pub mod text;

verus! {

/// The settings of one search run.
#[derive(Clone, Debug)]
pub struct Args {
    /// The fragment that a base name must contain.
    pub filename: String,
    /// The directory the walk starts from.
    pub path: String,
    /// Report directories as well as files.
    pub include_dirs: bool,
    /// Report directories only; takes precedence over `include_dirs`.
    pub only_dirs: bool,
    /// The extension that a reported entry must have, if any.
    pub file_type: Option<String>,
    /// How many directory levels below the root the walk may go, if bounded.
    pub max_depth: Option<usize>,
    /// Compare names and fragment after lower-casing both.
    pub ignore_case: bool,
}

/// The command line: an optional subcommand.
#[derive(Clone, Debug)]
pub struct Cli {
    pub command: Option<Commands>,
}

/// The subcommands of the tool.
#[derive(Clone, Debug)]
pub enum Commands {
    /// Print the tool's version.
    Version,
    /// Search with the given settings.
    Search(Args),
}

/// Whether the operating system named `os` (as `std::env::consts::OS` names
/// it) treats file names case-insensitively by convention, which makes
/// `ignore_case` the default there.
pub fn is_case_insensitive_default(os: &str) -> (r: bool)
    ensures
        r == (os@ == "windows"@ || os@ == "macos"@),
{
    proof {
        reveal_strlit("windows");
        reveal_strlit("macos");
    }
    let name = os.to_owned();
    let windows = "windows".to_owned();
    let macos = "macos".to_owned();
    name == windows || name == macos
}

} // verus!
