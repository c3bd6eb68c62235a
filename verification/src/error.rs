//! The error type shared by every part of the package manager.

use vstd::prelude::*;

verus! {

/// What went wrong. Each variant but `HashMismatch` carries a detail text.
#[derive(Debug)]
pub enum RavenError {
    /// The downloaded bytes do not have the digest that the recipe declares.
    HashMismatch,
    /// A package is missing, a version does not fit, the graph has a cycle,
    /// or a package that others need was to be removed.
    DependencyError(String),
    /// A filesystem operation failed.
    IoError(String),
    /// The metadata store failed.
    DbError(String),
    /// The transport failed, or the server did not answer with success.
    NetworkError(String),
    /// The recipe tree could not be cloned.
    GitError(String),
    /// A recipe or the configuration is malformed.
    ParseError(String),
    /// A text is no semantic version.
    VersionError(String),
}

/// The variant of an error, without its detail.
#[derive(Clone, Copy, Debug, PartialEq, Eq, Structural)]
pub enum ErrorKind {
    HashMismatch,
    Dependency,
    Io,
    Db,
    Network,
    Git,
    Parse,
    Version,
}

/// An error as a value of specifications: its kind and its detail text.
pub struct ErrorView {
    pub kind: ErrorKind,
    pub detail: Seq<char>,
}

impl View for RavenError {
    type V = ErrorView;

    open spec fn view(&self) -> ErrorView {
        match self {
            RavenError::HashMismatch => ErrorView { kind: ErrorKind::HashMismatch, detail: Seq::empty() },
            RavenError::DependencyError(d) => ErrorView { kind: ErrorKind::Dependency, detail: d@ },
            RavenError::IoError(d) => ErrorView { kind: ErrorKind::Io, detail: d@ },
            RavenError::DbError(d) => ErrorView { kind: ErrorKind::Db, detail: d@ },
            RavenError::NetworkError(d) => ErrorView { kind: ErrorKind::Network, detail: d@ },
            RavenError::GitError(d) => ErrorView { kind: ErrorKind::Git, detail: d@ },
            RavenError::ParseError(d) => ErrorView { kind: ErrorKind::Parse, detail: d@ },
            RavenError::VersionError(d) => ErrorView { kind: ErrorKind::Version, detail: d@ },
        }
    }
}

/// A dependency error with the given detail.
pub open spec fn dependency_error(detail: Seq<char>) -> ErrorView {
    ErrorView { kind: ErrorKind::Dependency, detail }
}

/// The line shown to the user for an error.
pub open spec fn message_text(e: ErrorView) -> Seq<char> {
    match e.kind {
        ErrorKind::HashMismatch => "Checksum verification failed (Files may be corrupted or tampered)"@,
        ErrorKind::Dependency => "Dependency resolution failed: "@ + e.detail,
        ErrorKind::Io => "File system error: "@ + e.detail,
        ErrorKind::Db => "Database failure: "@ + e.detail,
        ErrorKind::Network => "Network connection failed"@,
        ErrorKind::Git => "Git repository error: "@ + e.detail,
        ErrorKind::Parse => "Recipe parsing error: "@ + e.detail,
        ErrorKind::Version => "Version Error: "@ + e.detail,
    }
}

/// `head` followed by `tail`.
pub fn prefixed(head: &str, tail: &str) -> (r: String)
    ensures
        r@ == head@ + tail@,
{
    let mut out = head.to_owned();
    out.append(tail);
    out
}

impl RavenError {
    /// The variant of this error.
    pub fn kind(&self) -> (k: ErrorKind)
        ensures
            k == self@.kind,
    {
        match self {
            RavenError::HashMismatch => ErrorKind::HashMismatch,
            RavenError::DependencyError(_) => ErrorKind::Dependency,
            RavenError::IoError(_) => ErrorKind::Io,
            RavenError::DbError(_) => ErrorKind::Db,
            RavenError::NetworkError(_) => ErrorKind::Network,
            RavenError::GitError(_) => ErrorKind::Git,
            RavenError::ParseError(_) => ErrorKind::Parse,
            RavenError::VersionError(_) => ErrorKind::Version,
        }
    }

    /// The line shown to the user.
    pub fn message(&self) -> (r: String)
        ensures
            r@ == message_text(self@),
    {
        match self {
            RavenError::HashMismatch => {
                "Checksum verification failed (Files may be corrupted or tampered)".to_owned()
            },
            RavenError::DependencyError(d) => prefixed("Dependency resolution failed: ", d.as_str()),
            RavenError::IoError(d) => prefixed("File system error: ", d.as_str()),
            RavenError::DbError(d) => prefixed("Database failure: ", d.as_str()),
            RavenError::NetworkError(_) => "Network connection failed".to_owned(),
            RavenError::GitError(d) => prefixed("Git repository error: ", d.as_str()),
            RavenError::ParseError(d) => prefixed("Recipe parsing error: ", d.as_str()),
            RavenError::VersionError(d) => prefixed("Version Error: ", d.as_str()),
        }
    }
}

} // verus!
