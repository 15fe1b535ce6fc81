//! What a search is directed at.

use vstd::prelude::*;

verus! {

/// What the user asked to have searched.
#[derive(Debug, Clone, PartialEq, Eq)]
pub enum SearchTarget {
    /// Standard input, piped in.
    Stdin,
    /// The current directory, recursively.
    CurrentDir,
    /// The given files and directories.
    SpecifiedPaths(Vec<String>),
}

impl Default for SearchTarget {
    /// The current directory.
    fn default() -> (target: Self)
        ensures
            target is CurrentDir,
    {
        SearchTarget::CurrentDir
    }
}

/// One source to search. Whether a path is a file or a directory is found
/// out when it is searched, not before.
#[derive(Debug, Clone, PartialEq, Eq)]
pub enum Target {
    /// Standard input.
    Stdin,
    /// A file or a directory, by its path.
    Path(String),
}

impl Target {
    /// Whether the target is standard input.
    pub fn is_stdin(&self) -> (stdin: bool)
        ensures
            stdin == (self is Stdin),
    {
        match self {
            Target::Stdin => true,
            Target::Path(_) => false,
        }
    }

    /// The target for the file or directory at `path`.
    pub fn for_path(path: String) -> (target: Self)
        ensures
            target == Target::Path(path),
    {
        Target::Path(path)
    }
}

/// What a target turned out to be when it was looked at.
#[derive(Debug, Clone, Copy, PartialEq, Eq, Structural)]
pub enum TargetKind {
    /// Standard input.
    Stdin,
    /// A file.
    File,
    /// A directory.
    Directory,
    /// Neither a file nor a directory.
    Missing,
}

} // verus!
