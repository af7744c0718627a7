use vstd::prelude::*;

verus! {

/// Why an invocation failed. Every error is fatal to the run: the first one
/// encountered during resolution, rendering or delivery aborts the whole
/// invocation. Each variant keeps the offending path or description as a
/// structured field, so callers can branch on the kind.
#[derive(Debug, PartialEq, Eq)]
pub enum PbError {
    /// A path named on the command line does not exist.
    NotFound { path: String },
    /// The operating system refused access to a path.
    AccessDenied { path: String },
    /// Another operating-system failure while reading a path.
    Io { path: String, detail: String },
    /// An input is neither a regular file nor a directory.
    InvalidInput { path: String },
    /// A file's bytes are not valid UTF-8 text.
    Encoding { path: String },
    /// Resolution left no files at all.
    NoFilesFound,
    /// Every clipboard candidate failed; holds the last failure's description.
    ClipboardUnavailable { detail: String },
    /// The command line itself is wrong.
    Usage { detail: String },
}

} // verus!
