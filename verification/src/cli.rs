//! The decisions of the command dispatcher.
//!
//! The dispatcher itself parses flags, prompts, prints and exits; those are
//! side effects it keeps to itself. What it decides — whether the request
//! is acceptable, whether a confirmation is owed before acting — is stated
//! and verified here.

use vstd::prelude::*;

verus! {

/// A condition that ends the invocation with an error report and a
/// non-zero exit status.
#[derive(Clone, Copy, Debug, PartialEq, Eq, Structural)]
pub enum FatalError {
    /// No ancestor of the working directory holds the metadata directory.
    RepositoryNotFound,
    /// The working directory cannot be determined or used.
    WorkingDirectoryInaccessible,
    /// Opening, reading, writing or truncating the exclusion file failed.
    ExcludeFileIoError,
    /// An add was requested with no entries at all.
    NoEntriesProvided,
}

impl FatalError {
    /// What each condition means.
    pub open spec fn message_spec(&self) -> Seq<char> {
        match self {
            FatalError::RepositoryNotFound => "Unable to find git repository in current directory or any of the parent directories"@,
            FatalError::WorkingDirectoryInaccessible => "Unable to access current working dir"@,
            FatalError::ExcludeFileIoError => "Could not access the exclude file"@,
            FatalError::NoEntriesProvided => "No entries to exclude provided"@,
        }
    }

    /// The single-line report for this condition.
    pub fn message(&self) -> (r: String)
        ensures
            r@ == self.message_spec(),
    {
        match self {
            FatalError::RepositoryNotFound => "Unable to find git repository in current directory or any of the parent directories".to_owned(),
            FatalError::WorkingDirectoryInaccessible => "Unable to access current working dir".to_owned(),
            FatalError::ExcludeFileIoError => "Could not access the exclude file".to_owned(),
            FatalError::NoEntriesProvided => "No entries to exclude provided".to_owned(),
        }
    }
}

/// An add request is acceptable exactly when it names at least one entry;
/// an empty one is fatal, and nothing is written for it.
pub fn validate_add_entries(entries: &Vec<String>) -> (r: Result<(), FatalError>)
    ensures
        r is Ok <==> entries@.len() > 0,
        r matches Err(e) ==> e == FatalError::NoEntriesProvided,
{
    if entries.len() == 0 {
        Err(FatalError::NoEntriesProvided)
    } else {
        Ok(())
    }
}

/// Clearing the list is destructive, so it is confirmed interactively
/// unless the force flag already said yes.
pub fn clear_needs_confirmation(force: bool) -> (r: bool)
    ensures
        r == !force,
{
    !force
}

/// Adding asks for confirmation only for several entries at once, and
/// never when the force flag already said yes.
pub fn add_needs_confirmation(force: bool, entry_count: usize) -> (r: bool)
    ensures
        r == (!force && entry_count > 1),
{
    !force && entry_count > 1
}

} // verus!
