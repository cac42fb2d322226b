use vstd::prelude::*;

verus! {

/// Everything that stops a run before or while commands are dispatched.
#[derive(Debug, Clone)]
pub enum AppError {
    ConfigNotFound { checked_paths: Vec<String> },
    ConfigInvalid { path: String, details: String },
    NotGitRepository { dir: String },
    NoStagedFiles,
    NoFilesMatched { patterns: Vec<String> },
    CommandNotFound { command: String, reason: String },
    Timeout(String),
    IoError(String),
    GitError(String),
    TomlError(String),
    TaskJoinError(String),
    JsonError(String),
}

} // verus!
