//! Errors of the command layer.
use vstd::prelude::*;

verus! {

#[derive(Debug, PartialEq, Eq)]
pub enum Error {
    /// No network configuration has been selected.
    NoConfigSelected,
    /// The selected configuration is a local file, not a repository.
    NotAGithubConfig,
    /// The command exists but does nothing yet.
    NotYetImplemented,
    /// The answer to a question on the terminal was not understood.
    InvalidResponse,
    /// The stored settings or the configuration could not be read.
    BrokenConfig,
    /// The repository has no remote branch of the requested name.
    InvalidBranch,
    /// The requested file does not exist in the repository.
    InvalidRepo,
    /// The settings could not be written.
    FailedToWriteConfig,
    /// A file that was named does not exist.
    FileNotFound(String),
}

} // verus!
