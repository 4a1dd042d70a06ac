//! Errors the library's own logic reports.
use vstd::prelude::*;

verus! {

/// `std::io::Error`, carried through unchanged.
#[verifier::external_type_specification]
#[verifier::external_body]
pub struct ExIoError(std::io::Error);

/// Failures around snippet files.
#[derive(Debug)]
pub enum SnippetError {
    SnippetFileNotFound(String),
    SnippetDirNotFound(String),
    Read { path: String, source: std::io::Error },
    Write { path: String, source: std::io::Error },
    DuplicateDescription(String),
}

/// Failures around syncing with a gist.
#[derive(Debug, Clone, PartialEq, Eq)]
pub enum SyncError {
    MissingAccessToken,
    MissingGistId,
    Unauthorized,
    GistNotFound(String),
    FileNotFoundInGist { gist_id: String, file_name: String, found: Vec<String> },
    Truncated(String),
    UnexpectedStatus { status: u16, body: String },
}

} // verus!
