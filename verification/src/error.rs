//! Error taxonomy of the transfer engine.
//!
//! Every phase fails fast: an error aborts the whole operation, and each
//! variant carries enough context (offending name, path or cause) for the
//! host to render an actionable message.

use vstd::prelude::*;

verus! {

/// An error of a single send or receive operation. Nothing here is fatal to
/// the process; every failure is scoped to the one operation that raised it.
#[derive(Debug, Clone)]
pub enum SendmeError {
    /// The requested import root does not exist.
    PathNotFound,
    /// Hashing or registering one file failed; the whole import is aborted.
    ImportItemFailed { name: String, cause: String },
    /// An export target path already exists; nothing is written to it.
    TargetAlreadyExists { path: String },
    /// Writing one entry to the filesystem failed.
    ExportItemFailed { name: String, cause: String },
    /// The ticket string does not decode to a ticket.
    InvalidTicket { cause: String },
    /// The identity override was set but does not parse as a secret key.
    InvalidSecret { cause: String },
    /// Connection establishment exceeded its fixed upper bound.
    ConnectionTimeout,
    /// The peer was reachable but the connection failed.
    ConnectionFailed { cause: String },
    /// The fetch stream reported an error.
    DownloadFailed { cause: String },
    /// Removing the receiver's scratch directory failed.
    CleanupFailed { cause: String },
}

impl SendmeError {
    /// A short, stable label naming the error variant.
    pub fn label(&self) -> (r: &'static str)
        ensures
            r@ == self.spec_label(),
    {
        match self {
            SendmeError::PathNotFound => "path not found",
            SendmeError::ImportItemFailed { .. } => "import item failed",
            SendmeError::TargetAlreadyExists { .. } => "target already exists",
            SendmeError::ExportItemFailed { .. } => "export item failed",
            SendmeError::InvalidTicket { .. } => "invalid ticket",
            SendmeError::InvalidSecret { .. } => "invalid secret",
            SendmeError::ConnectionTimeout => "connection timeout",
            SendmeError::ConnectionFailed { .. } => "connection failed",
            SendmeError::DownloadFailed { .. } => "download failed",
            SendmeError::CleanupFailed { .. } => "cleanup failed",
        }
    }

    /// The label of each variant, as a sequence of characters.
    pub open spec fn spec_label(&self) -> Seq<char> {
        match self {
            SendmeError::PathNotFound => "path not found"@,
            SendmeError::ImportItemFailed { .. } => "import item failed"@,
            SendmeError::TargetAlreadyExists { .. } => "target already exists"@,
            SendmeError::ExportItemFailed { .. } => "export item failed"@,
            SendmeError::InvalidTicket { .. } => "invalid ticket"@,
            SendmeError::InvalidSecret { .. } => "invalid secret"@,
            SendmeError::ConnectionTimeout => "connection timeout"@,
            SendmeError::ConnectionFailed { .. } => "connection failed"@,
            SendmeError::DownloadFailed { .. } => "download failed"@,
            SendmeError::CleanupFailed { .. } => "cleanup failed"@,
        }
    }
}

} // verus!
