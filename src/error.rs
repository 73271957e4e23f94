use vstd::prelude::*;

verus! {

/// Errors reported by the clipboard file bridge.
#[derive(PartialEq, Eq, Structural, Debug, Clone, Copy)]
pub enum CliprdrError {
    /// The mount context of the role is missing, or mounting failed.
    CliprdrInit,
    /// A descriptor payload was truncated or malformed.
    InvalidRequest,
    /// An internal counter or channel could not serve the request.
    ClipboardInternalError,
    /// No node with the given id or name.
    NotFound,
    /// A read was issued against a directory.
    IsDirectory,
    /// A directory operation was issued against a file.
    NotDirectory,
    /// No matching content response arrived before the deadline.
    IoTimeout,
    /// The file list was replaced while the read was pending.
    StaleGeneration,
    /// The peer answered the content request with a failure.
    FileContentsFailed,
}

} // verus!
