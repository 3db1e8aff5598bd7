//! The error kinds a run of the tool can end with.

use vstd::prelude::*;

verus! {

/// Every terminal failure of an invocation.
///
/// The first three arise while resolving the command-line tokens,
/// `DecodeFailure` while counting words or characters of a stream that is
/// not valid UTF-8. The remaining kinds describe failures of the
/// surrounding I/O shell: opening the file, reading it, or rewinding it
/// for a further pass. No error is retried or downgraded.
#[derive(Debug)]
pub enum WcError {
    /// A token began with the flag marker but matched no recognized flag;
    /// carries the offending token.
    InvalidFlag(String),
    /// More than one token was not a flag.
    MultipleFiles,
    /// No token named a file.
    MissingFile,
    /// The underlying file could not be opened.
    FileOpenFailure,
    /// Reading the stream failed partway.
    ReadFailure,
    /// The stream is not valid text, and characters or words were requested.
    DecodeFailure,
    /// A further pass was required but the stream could not be rewound.
    RewindFailure,
}

impl WcError {
    /// A short description, rendered by the shell before the usage line.
    pub fn message(&self) -> (r: &'static str) {
        match self {
            WcError::InvalidFlag(_) => "Invalid flag provided",
            WcError::MultipleFiles => "Only one file is allowed",
            WcError::MissingFile => "No file provided",
            WcError::FileOpenFailure => "Error opening file",
            WcError::ReadFailure => "Error while reading file",
            WcError::DecodeFailure => "File is not valid text",
            WcError::RewindFailure => "Could not rewind file",
        }
    }
}

} // verus!
