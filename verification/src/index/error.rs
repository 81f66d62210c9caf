//! What can go wrong in the index and in the repository behind it.

use vstd::prelude::*;

verus! {

/// Why an operation on the index failed.
#[derive(Clone, Copy, Debug, PartialEq, Eq, Structural)]
pub enum IndexError {
    /// The engine reported an error.
    Engine,
    /// The analyzers of a new index are not what the schema relies on.
    Tokenizers,
}

/// Why the repository did not hand out an entry.
#[derive(Clone, Copy, Debug, PartialEq, Eq, Structural)]
pub enum RepoError {
    NotFound,
    TooManyFound,
    InvalidVersion,
    Other,
}

} // verus!
