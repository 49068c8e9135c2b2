//! Typed failures of the core operations. Scan-root and watch-setup errors
//! are returned synchronously to the caller; per-entry and per-subtree errors
//! during a recursive scan are absorbed, never surfaced.

use vstd::prelude::*;

verus! {

/// Failure of a whole scan call.
#[derive(Debug, Clone)]
pub enum ScanError {
    /// The scan root does not exist.
    NotFound { path: String },
    /// The scan root exists but is not a directory.
    WrongKind { path: String },
    /// The scan root itself could not be listed.
    Unreadable { path: String },
}

/// Failure of a watch-control operation.
#[derive(Debug, Clone)]
pub enum WatchError {
    /// The watch root does not exist.
    NotFound { path: String },
    /// The watch root exists but is not a directory.
    WrongKind { path: String },
    /// The backend could not establish the watch.
    SetupFailed { path: String },
    /// The shared watch state could not be locked.
    LockContention,
}

impl ScanError {
    /// The path the failure is about.
    pub open spec fn spec_path(&self) -> Seq<char> {
        match self {
            ScanError::NotFound { path } => path@,
            ScanError::WrongKind { path } => path@,
            ScanError::Unreadable { path } => path@,
        }
    }

    /// A human-readable description of the failure.
    pub fn message(&self) -> (r: String)
        ensures
            match self {
                ScanError::NotFound { path } => r@ == "Directory does not exist: "@ + path@,
                ScanError::WrongKind { path } => r@ == "Path is not a directory: "@ + path@,
                ScanError::Unreadable { path } => r@ == "Failed to read directory: "@ + path@,
            },
    {
        match self {
            ScanError::NotFound { path } => String::from_str("Directory does not exist: ").concat(
                path.as_str(),
            ),
            ScanError::WrongKind { path } => String::from_str("Path is not a directory: ").concat(
                path.as_str(),
            ),
            ScanError::Unreadable { path } => String::from_str(
                "Failed to read directory: ",
            ).concat(path.as_str()),
        }
    }
}

impl WatchError {
    /// A human-readable description of the failure.
    pub fn message(&self) -> (r: String)
        ensures
            match self {
                WatchError::NotFound { path } => r@ == "Directory does not exist: "@ + path@,
                WatchError::WrongKind { path } => r@ == "Path is not a directory: "@ + path@,
                WatchError::SetupFailed { path } => r@ == "Failed to start watching: "@ + path@,
                WatchError::LockContention => r@ == "Failed to lock watcher state"@,
            },
    {
        match self {
            WatchError::NotFound { path } => String::from_str("Directory does not exist: ").concat(
                path.as_str(),
            ),
            WatchError::WrongKind { path } => String::from_str("Path is not a directory: ").concat(
                path.as_str(),
            ),
            WatchError::SetupFailed { path } => String::from_str(
                "Failed to start watching: ",
            ).concat(path.as_str()),
            WatchError::LockContention => String::from_str("Failed to lock watcher state"),
        }
    }
}

} // verus!
