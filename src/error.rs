use vstd::prelude::*;

verus! {

/// Why the status of one project could not be computed.
#[derive(Debug, PartialEq, Eq)]
pub enum Error {
    /// The version-control library failed; the message says how.
    NativeVcsError(String),
    /// A branch name is not valid UTF-8.
    NoBranchNameFound,
    /// The project directory does not exist.
    RepositoryMissing,
}

impl Error {
    /// Human-readable description of the error.
    pub fn describe(&self) -> (r: String)
        ensures
            match self {
                Error::NativeVcsError(m) => r@ == m@,
                Error::NoBranchNameFound => r@ == "No branch name found"@,
                Error::RepositoryMissing => r@ == "Repository missing"@,
            },
    {
        match self {
            Error::NativeVcsError(m) => m.clone(),
            Error::NoBranchNameFound => "No branch name found".to_owned(),
            Error::RepositoryMissing => "Repository missing".to_owned(),
        }
    }
}

} // verus!
