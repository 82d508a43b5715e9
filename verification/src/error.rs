use vstd::prelude::*;

verus! {

/// The failure kinds of the registry. Every error is terminal for the call
/// that raised it: a failed operation leaves the registry unchanged.
#[derive(Clone, Copy, Debug, PartialEq, Eq, Structural)]
pub enum Error {
    /// `config` was called while an admin is already recorded.
    AlreadyInitialized,
    /// A mutating call was made with no admin recorded, or by a principal
    /// other than the recorded admin.
    Unauthorized,
    /// An operation referenced a repository name that is not present.
    RepoMissing,
    /// An add targeted a repository name that is already present.
    RepoAlreadyExists,
    /// An add would bring the repository count to or above the limit.
    RepoLimitExceeded,
    /// An add targeted an issue name already present for that repository.
    IssueAlreadyExists,
    /// An add would bring a repository's issue count to or above the limit.
    IssueLimitExceeded,
    /// A remove referenced an issue name not present for that repository.
    IssueMissing,
}

} // verus!
