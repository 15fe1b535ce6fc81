//! What can go wrong in a run.

use vstd::prelude::*;

verus! {

/// A failure that is reported to the caller and stops nothing else.
#[derive(Debug, Clone, PartialEq, Eq)]
pub enum SearchError {
    /// A line of the named target could not be printed as UTF-8.
    Utf8PrintFail(String),
    /// These targets are neither a file nor a directory.
    TargetsNotFound(Vec<String>),
    /// The pattern is no regular expression; the message says why.
    InvalidPattern(String),
    /// This argument looks like an option and is none that is known.
    UnknownFlag(String),
}

} // verus!
